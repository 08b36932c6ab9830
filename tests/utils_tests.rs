use ps3_update_core::utils::{clean_title_id, download_folder_name, format_size, safe_dir_name};

#[test]
fn test_format_size() {
    assert_eq!(format_size(0), "Unknown");
    assert_eq!(format_size(512), "512.00 B");
    assert_eq!(format_size(1024), "1.00 KB");
    assert_eq!(format_size(1048576), "1.00 MB");
}

#[test]
fn test_clean_title_id() {
    assert_eq!(clean_title_id("BLES00779"), "BLES00779");
    assert_eq!(clean_title_id("bles-00779"), "BLES00779");
    assert_eq!(clean_title_id("NPUA 80662"), "NPUA80662");
}

#[test]
fn test_safe_dir_name() {
    assert_eq!(safe_dir_name("God of War"), "God of War");
    assert_eq!(safe_dir_name("Game/Title: Test"), "Game Title Test");
    assert_eq!(safe_dir_name(""), "PS3Updates");
}

#[test]
fn format_size_unit_boundaries() {
    assert_eq!(format_size(1), "1.00 B");
    assert_eq!(format_size(1023), "1023.00 B");
    assert_eq!(format_size(1536), "1.50 KB");
    assert_eq!(format_size(1073741824), "1.00 GB");
    assert_eq!(format_size(1099511627776), "1.00 TB");
    assert_eq!(format_size(1099511627776 * 2048), "2048.00 TB");
    assert_eq!(format_size(104857600), "100.00 MB");
}

#[test]
fn format_size_rounds_to_two_places() {
    // 1029 / 1024 = 1.0048828125
    assert_eq!(format_size(1029), "1.00 KB");
    // 1035 / 1024 = 1.0107421875
    assert_eq!(format_size(1035), "1.01 KB");
    assert_eq!(format_size(u64::MAX), "16777216.00 TB");
}

#[test]
fn clean_title_id_edge_cases() {
    assert_eq!(clean_title_id(""), "");
    assert_eq!(clean_title_id("--- ---"), "");
    assert_eq!(clean_title_id("é-bles_00779"), "BLES00779");
}

#[test]
fn clean_title_id_twice_is_once() {
    for raw in ["bles-00779", "NPUA 80662", "a.b.c", "", "Ünï 1"] {
        let once = clean_title_id(raw);
        assert_eq!(clean_title_id(&once), once);
    }
}

#[test]
fn safe_dir_name_collapses_and_truncates() {
    assert_eq!(safe_dir_name("  a   b  "), "a b");
    assert_eq!(safe_dir_name("Ratchet & Clank: A-Crack_in_Time"), "Ratchet Clank A-Crack_in_Time");
    assert_eq!(safe_dir_name("!!!"), "PS3Updates");
    let long = "x".repeat(70);
    assert_eq!(safe_dir_name(&long), "x".repeat(64));
}

#[test]
fn download_folder_name_replaces_reserved_characters() {
    assert_eq!(download_folder_name("God of War", "BCES00510"), "God of War (BCES00510)");
    assert_eq!(download_folder_name("A/B: C?", "X*Y"), "A_B_ C_ (X_Y)");
}
