use ps3_update_core::fetcher::{
    assemble_fetch_result, check_metadata_status, extract_packages, extract_title_from_xml,
    metadata_url, package_attr_to_info, parse_u64, sort_by_version, url_filename,
    validate_title_id, PackageAttr, ParamsFo, TagNode, TitlePatch,
};
use ps3_update_core::types::PS3UpdateError;

fn bits(v: &str) -> Option<u32> {
    v.parse::<f32>().ok().map(f32::to_bits)
}

fn entry(version: Option<&str>, size: Option<&str>, url: &str) -> PackageAttr {
    PackageAttr {
        url: Some(url.to_string()),
        digest: None,
        sha1: Some("abc123".to_string()),
        size: size.map(|s| s.to_string()),
        version: version.map(|s| s.to_string()),
        ps3_system_ver: Some("04.30".to_string()),
        paramsfo: None,
        version_bits: version.and_then(bits),
    }
}

fn empty_patch() -> TitlePatch {
    TitlePatch { package: None, package_upper: None, tag: None, tag_upper: None }
}

#[test]
fn metadata_url_uses_the_id_twice() {
    assert_eq!(
        metadata_url("BLES00779"),
        "https://a0.ww.np.dl.playstation.net/tpl/np/BLES00779/BLES00779-ver.xml"
    );
}

#[test]
fn empty_identifier_is_refused() {
    match validate_title_id("--") {
        Err(PS3UpdateError::InvalidTitleId(m)) => assert_eq!(m, "Empty or invalid Title ID"),
        _ => panic!("expected InvalidTitleId"),
    }
    assert!(validate_title_id("").is_err());
    assert_eq!(validate_title_id("bles-00779").unwrap(), "BLES00779");
}

#[test]
fn non_success_reply_means_no_updates() {
    assert!(check_metadata_status(200, "BLES00779").is_ok());
    match check_metadata_status(404, "BLES00779") {
        Err(PS3UpdateError::NoUpdatesFound(m)) => assert_eq!(m, "BLES00779"),
        _ => panic!("expected NoUpdatesFound"),
    }
}

#[test]
fn raw_title_scan() {
    let xml = "<titlepatch><tag><package><paramsfo><TITLE>  God of War III </TITLE></paramsfo></package></tag></titlepatch>";
    assert_eq!(extract_title_from_xml(xml).as_deref(), Some("God of War III"));
    assert_eq!(extract_title_from_xml("<TITLE>   </TITLE>"), None);
    assert_eq!(extract_title_from_xml("<TITLE>no end"), None);
    assert_eq!(extract_title_from_xml("nothing here"), None);
    assert_eq!(extract_title_from_xml("</TITLE><TITLE>A</TITLE>").as_deref(), Some("A"));
}

#[test]
fn u64_reading() {
    assert_eq!(parse_u64("104857600"), Some(104857600));
    assert_eq!(parse_u64("+7"), Some(7));
    assert_eq!(parse_u64("18446744073709551615"), Some(u64::MAX));
    assert_eq!(parse_u64("18446744073709551616"), None);
    assert_eq!(parse_u64(""), None);
    assert_eq!(parse_u64("+"), None);
    assert_eq!(parse_u64("-1"), None);
    assert_eq!(parse_u64("12a"), None);
    assert_eq!(parse_u64(" 1"), None);
}

#[test]
fn filename_is_last_url_segment() {
    assert_eq!(url_filename("http://x/y/UP0001-BLES00779_00-PATCH-A0104-PE.pkg"), "UP0001-BLES00779_00-PATCH-A0104-PE.pkg");
    assert_eq!(url_filename("http://x/y/"), "");
    assert_eq!(url_filename("plain"), "plain");
}

#[test]
fn entry_mapping_defaults() {
    let mut p = entry(None, Some("not a number"), " http://h/a/b.pkg ");
    p.digest = Some(" d1 ".to_string());
    let info = package_attr_to_info(p);
    assert_eq!(info.version, "Unknown");
    assert_eq!(info.size_bytes, 0);
    assert_eq!(info.size_human, "Unknown");
    assert_eq!(info.url, "http://h/a/b.pkg");
    assert_eq!(info.sha1, "d1");
    assert_eq!(info.filename, "b.pkg");
    assert_eq!(info.system_ver, "04.30");
    let info2 = package_attr_to_info(entry(Some("1.01"), Some("2048"), "http://h/c.pkg"));
    assert_eq!(info2.sha1, "abc123");
    assert_eq!(info2.size_human, "2.00 KB");
}

#[test]
fn wrapped_entries_win_over_top_level() {
    let tp = TitlePatch {
        package: Some(vec![entry(Some("9.99"), None, "http://h/top.pkg")]),
        package_upper: None,
        tag: Some(TagNode {
            package: Some(vec![entry(Some("1.00"), None, "http://h/a.pkg")]),
            package_upper: Some(vec![entry(Some("1.01"), None, "http://h/b.pkg")]),
        }),
        tag_upper: None,
    };
    let r = extract_packages(tp);
    assert_eq!(r.len(), 2);
    assert_eq!(r[0].url.as_deref(), Some("http://h/a.pkg"));
    assert_eq!(r[1].url.as_deref(), Some("http://h/b.pkg"));
}

#[test]
fn top_level_entries_when_wrapper_is_empty() {
    let tp = TitlePatch {
        package: None,
        package_upper: Some(vec![entry(Some("1.00"), None, "http://h/top.pkg")]),
        tag: None,
        tag_upper: Some(TagNode { package: None, package_upper: None }),
    };
    let r = extract_packages(tp);
    assert_eq!(r.len(), 1);
    assert_eq!(r[0].url.as_deref(), Some("http://h/top.pkg"));
}

#[test]
fn versions_sort_descending_and_stably() {
    let pkgs = vec![
        entry(Some("1.01"), None, "http://h/a"),
        entry(Some("beta"), None, "http://h/b"),
        entry(Some("1.10"), None, "http://h/c"),
        entry(None, None, "http://h/d"),
        entry(Some("1.01"), None, "http://h/e"),
        entry(Some("-1"), None, "http://h/f"),
    ];
    let sorted = sort_by_version(pkgs);
    let urls: Vec<String> = sorted.iter().map(|p| p.url.clone().unwrap()).collect();
    assert_eq!(urls, vec!["http://h/c", "http://h/a", "http://h/e", "http://h/b", "http://h/d", "http://h/f"]);
}

#[test]
fn discovery_of_one_package() {
    let mut e = entry(Some("1.04"), Some("104857600"), "http://b0.ww.np.dl.playstation.net/tppkg/np/BLES00779/UP9000-BLES00779_00-PATCH.pkg");
    e.paramsfo = Some(ParamsFo { title: Some(" Uncharted 2 ".to_string()) });
    let tp = TitlePatch {
        package: None,
        package_upper: None,
        tag: Some(TagNode { package: Some(vec![e]), package_upper: None }),
        tag_upper: None,
    };
    let r = assemble_fetch_result("BLES00779".to_string(), Some("Raw".to_string()), tp);
    assert_eq!(r.results.len(), 1);
    assert_eq!(r.results[0].size_human, "100.00 MB");
    assert_eq!(r.results[0].version, "1.04");
    assert_eq!(r.results[0].filename, "UP9000-BLES00779_00-PATCH.pkg");
    assert_eq!(r.game_title, "Uncharted 2");
    assert_eq!(r.cleaned_title_id, "BLES00779");
    assert!(r.error.is_none());
}

#[test]
fn discovery_without_packages_is_an_empty_result() {
    let r = assemble_fetch_result("NPUA80662".to_string(), None, empty_patch());
    assert!(r.results.is_empty());
    assert_eq!(r.error.as_deref(), Some("No <package> entries found in XML for NPUA80662"));
    assert_eq!(r.game_title, "Unknown Title");
}

#[test]
fn discovery_keeps_scanned_title_without_paramsfo() {
    let tp = TitlePatch {
        package: Some(vec![entry(Some("1.00"), Some("1"), "http://h/a.pkg"), entry(Some("1.02"), Some("2"), "http://h/b.pkg")]),
        package_upper: None,
        tag: None,
        tag_upper: None,
    };
    let r = assemble_fetch_result("X".to_string(), Some("Scanned".to_string()), tp);
    assert_eq!(r.game_title, "Scanned");
    assert_eq!(r.results[0].version, "1.02");
    assert_eq!(r.results[1].version, "1.00");
}
