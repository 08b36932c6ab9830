use crate::transfer::{chars_of, find_from, first_at_from};
use crate::types::{FetchResult, PS3UpdateError, PackageInfo};
use crate::utils::{clean_id, clean_title_id, format_size, push_str, size_text};
use vstd::prelude::*;
use vstd::string::StrSliceExecFns;
use vstd::string::StringExecFns;

verus! {

/// The metadata host.
pub const PS3_UPDATE_BASE_URL: &'static str = "https://a0.ww.np.dl.playstation.net";

/// The `PARAMSFO` element of a package entry.
#[derive(Debug, Clone)]
pub struct ParamsFo {
    pub title: Option<String>,
}

/// The attributes of one `package` element, as the document holds them.
///
/// `version_bits` holds the bits of the version read as a 32-bit float, where it
/// reads as one; it orders the packages.
#[derive(Debug, Clone)]
pub struct PackageAttr {
    pub url: Option<String>,
    pub digest: Option<String>,
    pub sha1: Option<String>,
    pub size: Option<String>,
    pub version: Option<String>,
    pub ps3_system_ver: Option<String>,
    pub paramsfo: Option<ParamsFo>,
    pub version_bits: Option<u32>,
}

/// A `tag` or `TAG` wrapper element.
#[derive(Debug, Clone)]
pub struct TagNode {
    pub package: Option<Vec<PackageAttr>>,
    pub package_upper: Option<Vec<PackageAttr>>,
}

/// The document root: packages under a wrapper, in either casing, or at the top.
#[derive(Debug, Clone)]
pub struct TitlePatch {
    pub package: Option<Vec<PackageAttr>>,
    pub package_upper: Option<Vec<PackageAttr>>,
    pub tag: Option<TagNode>,
    pub tag_upper: Option<TagNode>,
}

/// The text after `"/tpl/np/"`, with the identifier used twice.
pub open spec fn metadata_path(id: Seq<char>) -> Seq<char> {
    "/tpl/np/"@ + id + "/"@ + id + "-ver.xml"@
}

/// The address of the metadata document of a normalised identifier.
pub fn metadata_url(cleaned: &str) -> (r: String)
    ensures
        r@ == PS3_UPDATE_BASE_URL@ + metadata_path(cleaned@),
{
    let mut out = String::new();
    push_str(&mut out, PS3_UPDATE_BASE_URL);
    push_str(&mut out, "/tpl/np/");
    push_str(&mut out, cleaned);
    push_str(&mut out, "/");
    push_str(&mut out, cleaned);
    push_str(&mut out, "-ver.xml");
    proof {
        assert(out@ =~= PS3_UPDATE_BASE_URL@ + metadata_path(cleaned@));
    }
    out
}

/// Normalise an identifier for discovery; an identifier with nothing left is refused.
pub fn validate_title_id(raw: &str) -> (r: Result<String, PS3UpdateError>)
    ensures
        match r {
            Ok(c) => c@ == clean_id(raw@) && c@.len() > 0,
            Err(e) => clean_id(raw@).len() == 0 && (e matches PS3UpdateError::InvalidTitleId(m)
                && m@ == "Empty or invalid Title ID"@),
        },
{
    let cleaned = clean_title_id(raw);
    if cleaned.as_str().unicode_len() == 0 {
        Err(PS3UpdateError::InvalidTitleId(String::from_str("Empty or invalid Title ID")))
    } else {
        Ok(cleaned)
    }
}

/// A metadata reply that is not a success means that the title has no updates.
pub fn check_metadata_status(status: u16, cleaned: &str) -> (r: Result<(), PS3UpdateError>)
    ensures
        r is Ok <==> 200 <= status <= 299,
        r matches Err(e) ==> (e matches PS3UpdateError::NoUpdatesFound(m) && m@ == cleaned@),
{
    if crate::transfer::is_success_status(status) {
        Ok(())
    } else {
        Err(PS3UpdateError::NoUpdatesFound(String::from_str(cleaned)))
    }
}

/// Text with leading and trailing whitespace removed, as `str::trim` gives it.
pub uninterp spec fn trim_of(s: Seq<char>) -> Seq<char>;

/// Relies on `str::trim`: its result depends on the text alone.
#[verifier::external_body]
fn trim_text(s: &str) -> (r: String)
    ensures
        r@ == trim_of(s@),
{
    s.trim().to_string()
}

/// The title between the first `<TITLE>` and the first `</TITLE>` after it, trimmed,
/// where both occur and it is not empty.
pub open spec fn raw_title_at(s: Seq<char>, i: int, j: int) -> bool {
    &&& first_at_from(s, "<TITLE>"@, 0, i)
    &&& first_at_from(s, "</TITLE>"@, i + 7, j)
}

/// Scan the raw document for the text of its first `TITLE` element.
pub fn extract_title_from_xml(text: &str) -> (r: Option<String>)
    ensures
        r is Some <==> exists|i: int, j: int|
            raw_title_at(text@, i, j) && #[trigger] trim_of(text@.subrange(i + 7, j)).len() > 0,
        r matches Some(t) ==> exists|i: int, j: int|
            raw_title_at(text@, i, j) && t@ == #[trigger] trim_of(text@.subrange(i + 7, j)),
{
    proof {
        reveal_strlit("<TITLE>");
        reveal_strlit("</TITLE>");
    }
    let s = chars_of(text);
    let open = chars_of("<TITLE>");
    let close = chars_of("</TITLE>");
    let start = match find_from(&s, &open, 0) {
        Some(i) => i,
        None => {
            proof {
                assert forall|i: int, j: int| !raw_title_at(text@, i, j) by {
                    if raw_title_at(text@, i, j) {
                        assert(s@.subrange(i, i + open@.len()) == open@);
                    }
                }
            }
            return None;
        },
    };
    let n = s.len();
    assert(open@.len() == 7 && start + 7 <= n);
    let end = match find_from(&s, &close, start + 7) {
        Some(j) => j,
        None => {
            proof {
                assert forall|i: int, j: int| !raw_title_at(text@, i, j) by {
                    if raw_title_at(text@, i, j) {
                        lemma_first_unique(s@, open@, 0, i, start as int);
                        assert(s@.subrange(j, j + close@.len()) == close@);
                    }
                }
            }
            return None;
        },
    };
    let t = trim_text(text.substring_char(start + 7, end));
    proof {
        assert(raw_title_at(text@, start as int, end as int));
        assert forall|i: int, j: int| raw_title_at(text@, i, j) implies i == start && j == end by {
            lemma_first_unique(s@, open@, 0, i, start as int);
            lemma_first_unique(s@, close@, i + 7, j, end as int);
        }
    }
    if t.as_str().unicode_len() == 0 {
        None
    } else {
        Some(t)
    }
}

proof fn lemma_first_unique(s: Seq<char>, t: Seq<char>, from: int, i: int, k: int)
    requires
        first_at_from(s, t, from, i),
        first_at_from(s, t, from, k),
    ensures
        i == k,
{
    if i < k {
        assert(s.subrange(i, i + t.len()) == t);
    } else if k < i {
        assert(s.subrange(k, k + t.len()) == t);
    }
}

/// The entries of an optional list.
pub open spec fn entries(l: Option<Vec<PackageAttr>>) -> Seq<PackageAttr> {
    match l {
        Some(v) => v@,
        None => seq![],
    }
}

/// The package entries of a document: those under the first wrapper present
/// (lowercase first), or, where that gives none, those at the top level.
pub open spec fn packages_of(tp: TitlePatch) -> Seq<PackageAttr> {
    let wrapped = match (if tp.tag is Some { tp.tag } else { tp.tag_upper }) {
        Some(tag) => entries(tag.package) + entries(tag.package_upper),
        None => seq![],
    };
    if wrapped.len() > 0 {
        wrapped
    } else {
        entries(tp.package) + entries(tp.package_upper)
    }
}

fn append_entries(out: &mut Vec<PackageAttr>, l: Option<Vec<PackageAttr>>)
    ensures
        final(out)@ == old(out)@ + entries(l),
{
    match l {
        Some(mut v) => out.append(&mut v),
        None => {},
    }
}

/// Collect the package entries of a document.
pub fn extract_packages(tp: TitlePatch) -> (r: Vec<PackageAttr>)
    ensures
        r@ == packages_of(tp),
{
    let ghost g = tp;
    let mut pkgs: Vec<PackageAttr> = Vec::new();
    let wrapper = if tp.tag.is_some() {
        tp.tag
    } else {
        tp.tag_upper
    };
    match wrapper {
        Some(tag) => {
            append_entries(&mut pkgs, tag.package);
            append_entries(&mut pkgs, tag.package_upper);
        },
        None => {},
    }
    if pkgs.len() == 0 {
        append_entries(&mut pkgs, tp.package);
        append_entries(&mut pkgs, tp.package_upper);
    }
    proof {
        assert(pkgs@ =~= packages_of(g));
    }
    pkgs
}

/// The decimal value of a run of digits.
pub open spec fn digits_value(s: Seq<char>) -> nat
    decreases s.len(),
{
    if s.len() == 0 {
        0
    } else {
        10 * digits_value(s.drop_last()) + ((s.last() as u32) - ('0' as u32)) as nat
    }
}

pub open spec fn is_digit(c: char) -> bool {
    '0' <= c && c <= '9'
}

/// What `u64::from_str` reads: an optional `+`, then one or more decimal digits
/// whose value fits in 64 bits.
pub open spec fn parse_u64_spec(s: Seq<char>) -> Option<u64> {
    let d = unsigned_digits(s);
    if d.len() > 0 && all_digits(d) && digits_value(d) <= u64::MAX {
        Some(digits_value(d) as u64)
    } else {
        None
    }
}

/// The text without a leading `+`.
pub open spec fn unsigned_digits(s: Seq<char>) -> Seq<char> {
    if s.len() > 0 && s[0] == '+' {
        s.drop_first()
    } else {
        s
    }
}

pub open spec fn all_digits(d: Seq<char>) -> bool {
    forall|i: int| 0 <= i < d.len() ==> is_digit(#[trigger] d[i])
}

/// Read a decimal unsigned 64-bit integer.
pub fn parse_u64(s: &str) -> (r: Option<u64>)
    ensures
        r == parse_u64_spec(s@),
{
    let c = chars_of(s);
    let n = c.len();
    let mut i: usize = if n > 0 && c[0] == '+' {
        1
    } else {
        0
    };
    let ghost d = if s@.len() > 0 && s@[0] == '+' {
        s@.drop_first()
    } else {
        s@
    };
    let first = i;
    if first == n {
        return None;
    }
    let mut acc: u64 = 0;
    while i < n
        invariant
            c@ == s@,
            n == c@.len(),
            first <= i <= n,
            first < n,
            d == c@.subrange(first as int, n as int),
            d == unsigned_digits(s@),
            forall|k: int| first <= k < i ==> is_digit(#[trigger] c@[k]),
            acc as nat == digits_value(c@.subrange(first as int, i as int)),
        decreases n - i,
    {
        let ch = c[i];
        proof {
            assert(c@.subrange(first as int, i + 1).drop_last() =~= c@.subrange(
                first as int,
                i as int,
            ));
        }
        if !('0' <= ch && ch <= '9') {
            proof {
                assert(d[i - first] == ch);
                assert(!is_digit(d[(i - first) as int]));
                assert(!all_digits(d));
            }
            return None;
        }
        let dig = (ch as u32 - '0' as u32) as u64;
        if acc > (u64::MAX - dig) / 10 {
            proof {
                let v = digits_value(c@.subrange(first as int, i + 1));
                assert(v == 10 * acc + dig);
                assert(10 * acc + dig > u64::MAX) by (nonlinear_arith)
                    requires
                        acc > (u64::MAX - dig) / 10,
                        dig <= 9,
                ;
                assert(d.subrange(0, i + 1 - first) =~= c@.subrange(first as int, i + 1));
                if all_digits(d) {
                    lemma_digits_value_prefix(d, (i + 1 - first) as int);
                }
            }
            return None;
        }
        assert(acc * 10 + dig <= u64::MAX) by (nonlinear_arith)
            requires
                acc <= (u64::MAX - dig) / 10,
                dig <= 9,
        ;
        acc = acc * 10 + dig;
        i = i + 1;
    }
    proof {
        assert(d =~= c@.subrange(first as int, n as int));
    }
    Some(acc)
}

proof fn lemma_digits_value_prefix(d: Seq<char>, k: int)
    requires
        0 <= k <= d.len(),
        forall|i: int| 0 <= i < d.len() ==> is_digit(#[trigger] d[i]),
    ensures
        digits_value(d.subrange(0, k)) <= digits_value(d),
    decreases d.len(),
{
    if k < d.len() {
        let p = d.drop_last();
        assert forall|i: int| 0 <= i < p.len() implies is_digit(#[trigger] p[i]) by {
            assert(p[i] == d[i]);
        }
        lemma_digits_value_prefix(p, k);
        assert(p.subrange(0, k) =~= d.subrange(0, k));
    } else {
        assert(d.subrange(0, k) =~= d);
    }
}

/// The text after the last `/`.
pub open spec fn last_segment(s: Seq<char>) -> Seq<char>
    decreases s.len(),
{
    if s.len() == 0 {
        seq![]
    } else if s.last() == '/' {
        seq![]
    } else {
        last_segment(s.drop_last()).push(s.last())
    }
}

/// The file name a URL ends in: its final `/`-delimited segment.
pub fn url_filename(url: &str) -> (r: String)
    ensures
        r@ == last_segment(url@),
{
    broadcast use vstd::string::group_string_axioms;
    broadcast use vstd::seq_lib::group_seq_properties;

    let mut out = String::new();
    for c in it: url.chars()
        invariant
            it.seq() == url@,
            out@ == last_segment(it.seq().take(it.index())),
    {
        proof {
            let t = it.seq().take(it.index() + 1);
            assert(t.drop_last() == it.seq().take(it.index()));
            assert(t.last() == c);
        }
        if c == '/' {
            out = String::new();
        } else {
            out.push(c);
        }
    }
    out
}

/// The text of an optional attribute, empty where it is absent.
pub open spec fn text_or_empty(o: Option<String>) -> Seq<char> {
    match o {
        Some(s) => s@,
        None => seq![],
    }
}

/// The package an entry describes.
pub open spec fn package_matches(p: PackageAttr, r: PackageInfo) -> bool {
    let url = trim_of(text_or_empty(p.url));
    let size = match p.size {
        Some(s) => match parse_u64_spec(s@) {
            Some(n) => n,
            None => 0,
        },
        None => 0,
    };
    &&& r.url@ == url
    &&& r.sha1@ == trim_of(text_or_empty(if p.digest is Some { p.digest } else { p.sha1 }))
    &&& r.version@ == (match p.version {
        Some(v) => v@,
        None => "Unknown"@,
    })
    &&& r.system_ver@ == text_or_empty(p.ps3_system_ver)
    &&& r.size_bytes == size
    &&& r.size_human@ == size_text(size as nat)
    &&& r.filename@ == last_segment(url)
}

fn text_of(o: Option<String>) -> (r: String)
    ensures
        r@ == text_or_empty(o),
{
    match o {
        Some(s) => s,
        None => String::new(),
    }
}

/// Turn a package entry into a package description.
pub fn package_attr_to_info(p: PackageAttr) -> (r: PackageInfo)
    ensures
        package_matches(p, r),
{
    let ghost g = p;
    let url = trim_text(text_of(p.url).as_str());
    let digest = trim_text(text_of(if p.digest.is_some() { p.digest } else { p.sha1 }).as_str());
    let version = match p.version {
        Some(v) => v,
        None => String::from_str("Unknown"),
    };
    let system_ver = text_of(p.ps3_system_ver);
    let size_bytes: u64 = match p.size {
        Some(s) => match parse_u64(s.as_str()) {
            Some(n) => n,
            None => 0,
        },
        None => 0,
    };
    let filename = url_filename(url.as_str());
    let size_human = format_size(size_bytes);
    let r = PackageInfo { version, system_ver, size_bytes, size_human, url, sha1: digest, filename };
    assert(package_matches(g, r));
    r
}

/// The order key of a version: the value of the float whose bits are given, where
/// larger floats have larger keys; versions that do not read as a number, and NaN,
/// have the key of 0.0.
pub open spec fn version_key(bits: Option<u32>) -> int {
    match bits {
        Some(b) => {
            let mag = (b as int) % 0x8000_0000;
            if mag > 0x7f80_0000 {
                0
            } else if b >= 0x8000_0000 {
                -mag
            } else {
                mag
            }
        },
        None => 0,
    }
}

fn version_key_of(bits: Option<u32>) -> (r: i64)
    ensures
        r == version_key(bits),
{
    match bits {
        Some(b) => {
            let mag = (b % 0x8000_0000) as i64;
            if mag > 0x7f80_0000 {
                0
            } else if b >= 0x8000_0000 {
                -mag
            } else {
                mag
            }
        },
        None => 0,
    }
}

pub open spec fn key_of(p: PackageAttr) -> int {
    version_key(p.version_bits)
}

/// Where an entry of key `k` goes in a list sorted by descending key: after every
/// entry whose key is at least `k`.
pub open spec fn insert_pos(s: Seq<PackageAttr>, k: int) -> int
    decreases s.len(),
{
    if s.len() == 0 {
        0
    } else if key_of(s[0]) < k {
        0
    } else {
        1 + insert_pos(s.drop_first(), k)
    }
}

/// The entries sorted by descending version key, equal keys in the order they came.
pub open spec fn sorted_by_version(s: Seq<PackageAttr>) -> Seq<PackageAttr>
    decreases s.len(),
{
    if s.len() == 0 {
        s
    } else {
        let t = sorted_by_version(s.drop_last());
        t.insert(insert_pos(t, key_of(s.last())), s.last())
    }
}

proof fn lemma_insert_pos(s: Seq<PackageAttr>, k: int, j: int)
    requires
        0 <= j <= s.len(),
        forall|m: int| 0 <= m < j ==> key_of(#[trigger] s[m]) >= k,
        j < s.len() ==> key_of(s[j]) < k,
    ensures
        insert_pos(s, k) == j,
    decreases s.len(),
{
    if s.len() > 0 && j > 0 {
        let t = s.drop_first();
        assert forall|m: int| 0 <= m < j - 1 implies key_of(#[trigger] t[m]) >= k by {
            assert(t[m] == s[m + 1]);
        }
        lemma_insert_pos(t, k, j - 1);
    }
}

/// Sort entries by descending version, keeping the order of equal versions.
pub fn sort_by_version(pkgs: Vec<PackageAttr>) -> (r: Vec<PackageAttr>)
    ensures
        r@ == sorted_by_version(pkgs@),
{
    let ghost orig = pkgs@;
    let ghost mut i: int = 0;
    let mut rest = pkgs;
    let mut out: Vec<PackageAttr> = Vec::new();
    while rest.len() > 0
        invariant
            0 <= i <= orig.len(),
            rest@ == orig.skip(i),
            out@ == sorted_by_version(orig.take(i)),
        decreases rest@.len(),
    {
        let e = rest.remove(0);
        let k = version_key_of(e.version_bits);
        let mut j: usize = 0;
        while j < out.len() && version_key_of(out[j].version_bits) >= k
            invariant
                j <= out@.len(),
                forall|m: int| 0 <= m < j ==> key_of(#[trigger] out@[m]) >= k,
            decreases out@.len() - j,
        {
            j = j + 1;
        }
        proof {
            lemma_insert_pos(out@, k as int, j as int);
            let t = orig.take(i + 1);
            assert(t.drop_last() =~= orig.take(i));
            assert(t.last() == e);
        }
        out.insert(j, e);
        proof {
            i = i + 1;
            assert(rest@ =~= orig.skip(i));
        }
    }
    proof {
        assert(orig.take(i) =~= orig);
    }
    out
}

/// The title found by scanning the raw document, or "Unknown Title".
pub open spec fn fallback_title(raw_title: Option<String>) -> Seq<char> {
    match raw_title {
        Some(t) => t@,
        None => "Unknown Title"@,
    }
}

/// The trimmed title of an entry's `PARAMSFO` element, where it has one.
pub open spec fn entry_title(p: PackageAttr) -> Option<Seq<char>> {
    match p.paramsfo {
        Some(pf) => match pf.title {
            Some(t) => Some(trim_of(t@)),
            None => None,
        },
        None => None,
    }
}

/// The message of a document without package entries.
pub open spec fn no_packages_text(cleaned: Seq<char>) -> Seq<char> {
    "No <package> entries found in XML for "@ + cleaned
}

/// Build the discovery result of a parsed document. Without entries the result is
/// empty and says so; otherwise the title of the first entry, where present, wins
/// over the scanned one, and the packages come sorted by descending version.
pub fn assemble_fetch_result(cleaned: String, raw_title: Option<String>, tp: TitlePatch) -> (r:
    FetchResult)
    ensures
        r.cleaned_title_id@ == cleaned@,
        packages_of(tp).len() == 0 ==> {
            &&& r.results@.len() == 0
            &&& r.error matches Some(e) && e@ == no_packages_text(cleaned@)
            &&& r.game_title@ == fallback_title(raw_title)
        },
        packages_of(tp).len() > 0 ==> {
            &&& r.error is None
            &&& r.game_title@ == (match entry_title(packages_of(tp)[0]) {
                Some(t) => t,
                None => fallback_title(raw_title),
            })
            &&& r.results@.len() == packages_of(tp).len()
            &&& forall|i: int|
                0 <= i < r.results@.len() ==> package_matches(
                    #[trigger] sorted_by_version(packages_of(tp))[i],
                    r.results@[i],
                )
        },
{
    let pkgs = extract_packages(tp);
    let fallback = match raw_title {
        Some(t) => t,
        None => String::from_str("Unknown Title"),
    };
    if pkgs.len() == 0 {
        let mut msg = String::new();
        push_str(&mut msg, "No <package> entries found in XML for ");
        push_str(&mut msg, cleaned.as_str());
        return FetchResult {
            results: Vec::new(),
            error: Some(msg),
            game_title: fallback,
            cleaned_title_id: cleaned,
        };
    }
    let game_title = match &pkgs[0].paramsfo {
        Some(pf) => match &pf.title {
            Some(t) => trim_text(t.as_str()),
            None => fallback,
        },
        None => fallback,
    };
    let ghost sorted_spec = sorted_by_version(pkgs@);
    let mut rest = sort_by_version(pkgs);
    proof {
        lemma_sorted_len(pkgs@);
    }
    let ghost n = rest@.len();
    let mut results: Vec<PackageInfo> = Vec::new();
    while rest.len() > 0
        invariant
            n == sorted_spec.len(),
            results@.len() + rest@.len() == n,
            rest@ == sorted_spec.skip(results@.len() as int),
            forall|i: int|
                0 <= i < results@.len() ==> package_matches(
                    #[trigger] sorted_spec[i],
                    results@[i],
                ),
        decreases rest@.len(),
    {
        let ghost k = results@.len();
        let p = rest.remove(0);
        assert(p == sorted_spec[k as int]);
        results.push(package_attr_to_info(p));
        proof {
            assert(rest@ =~= sorted_spec.skip(results@.len() as int));
        }
    }
    FetchResult { results, error: None, game_title, cleaned_title_id: cleaned }
}

proof fn lemma_insert_pos_bound(s: Seq<PackageAttr>, k: int)
    ensures
        0 <= insert_pos(s, k) <= s.len(),
    decreases s.len(),
{
    if s.len() > 0 && key_of(s[0]) >= k {
        lemma_insert_pos_bound(s.drop_first(), k);
    }
}

proof fn lemma_sorted_len(s: Seq<PackageAttr>)
    ensures
        sorted_by_version(s).len() == s.len(),
    decreases s.len(),
{
    if s.len() > 0 {
        lemma_sorted_len(s.drop_last());
        lemma_insert_pos_bound(sorted_by_version(s.drop_last()), key_of(s.last()));
    }
}

/// The entries of `s` whose version key is `k`, in their order.
pub open spec fn with_key(s: Seq<PackageAttr>, k: int) -> Seq<PackageAttr>
    decreases s.len(),
{
    if s.len() == 0 {
        seq![]
    } else if key_of(s.last()) == k {
        with_key(s.drop_last(), k).push(s.last())
    } else {
        with_key(s.drop_last(), k)
    }
}

/// Version keys never rise along `s`.
pub open spec fn descending(s: Seq<PackageAttr>) -> bool {
    forall|i: int, j: int| 0 <= i < j < s.len() ==> key_of(#[trigger] s[i]) >= key_of(#[trigger] s[j])
}

proof fn lemma_with_key_concat(a: Seq<PackageAttr>, b: Seq<PackageAttr>, k: int)
    ensures
        with_key(a + b, k) == with_key(a, k) + with_key(b, k),
    decreases b.len(),
{
    if b.len() == 0 {
        assert(a + b =~= a);
        assert(with_key(a, k) + with_key(b, k) =~= with_key(a, k));
    } else {
        lemma_with_key_concat(a, b.drop_last(), k);
        assert((a + b).drop_last() =~= a + b.drop_last());
        assert((a + b).last() == b.last());
        if key_of(b.last()) == k {
            assert(with_key(a, k) + with_key(b, k) =~= (with_key(a, k) + with_key(b.drop_last(), k)).push(b.last()));
        }
    }
}

proof fn lemma_with_key_none(s: Seq<PackageAttr>, k: int)
    requires
        forall|m: int| 0 <= m < s.len() ==> key_of(#[trigger] s[m]) != k,
    ensures
        with_key(s, k) == Seq::<PackageAttr>::empty(),
    decreases s.len(),
{
    if s.len() > 0 {
        let p = s.drop_last();
        assert forall|m: int| 0 <= m < p.len() implies key_of(#[trigger] p[m]) != k by {
            assert(p[m] == s[m]);
        }
        lemma_with_key_none(p, k);
        assert(key_of(s[s.len() - 1]) != k);
    }
}

proof fn lemma_insert_pos_split(t: Seq<PackageAttr>, k: int)
    requires
        descending(t),
    ensures
        0 <= insert_pos(t, k) <= t.len(),
        forall|m: int| 0 <= m < insert_pos(t, k) ==> key_of(#[trigger] t[m]) >= k,
        forall|m: int| insert_pos(t, k) <= m < t.len() ==> key_of(#[trigger] t[m]) < k,
    decreases t.len(),
{
    if t.len() > 0 {
        if key_of(t[0]) < k {
            assert forall|m: int| 0 <= m < t.len() implies key_of(#[trigger] t[m]) < k by {
                if m > 0 {
                    assert(key_of(t[0]) >= key_of(t[m]));
                }
            }
        } else {
            let u = t.drop_first();
            assert forall|i: int, j: int| 0 <= i < j < u.len() implies key_of(#[trigger] u[i])
                >= key_of(#[trigger] u[j]) by {
                assert(u[i] == t[i + 1] && u[j] == t[j + 1]);
            }
            lemma_insert_pos_split(u, k);
            assert forall|m: int| 0 <= m < insert_pos(t, k) implies key_of(#[trigger] t[m]) >= k by {
                if m > 0 {
                    assert(t[m] == u[m - 1]);
                }
            }
            assert forall|m: int| insert_pos(t, k) <= m < t.len() implies key_of(#[trigger] t[m]) < k by {
                assert(t[m] == u[m - 1]);
            }
        }
    }
}

/// Discovery's order: the packages come by descending version key, where a version
/// that does not read as a number has the key of 0.0, and packages of equal key keep
/// the order the document gave them; no package is lost or added.
pub proof fn version_order_is_stable_descending(s: Seq<PackageAttr>)
    ensures
        sorted_by_version(s).len() == s.len(),
        descending(sorted_by_version(s)),
        forall|k: int| #[trigger] with_key(sorted_by_version(s), k) == with_key(s, k),
    decreases s.len(),
{
    lemma_sorted_len(s);
    if s.len() > 0 {
        let p = s.drop_last();
        let e = s.last();
        let t = sorted_by_version(p);
        version_order_is_stable_descending(p);
        let ke = key_of(e);
        lemma_insert_pos_split(t, ke);
        let pos = insert_pos(t, ke);
        let r = t.insert(pos, e);
        assert(r == sorted_by_version(s));
        assert forall|i: int, j: int| 0 <= i < j < r.len() implies key_of(#[trigger] r[i])
            >= key_of(#[trigger] r[j]) by {
            if j < pos {
                assert(r[i] == t[i] && r[j] == t[j]);
            } else if j == pos {
                assert(r[i] == t[i]);
            } else if i < pos {
                assert(r[i] == t[i] && r[j] == t[j - 1]);
            } else if i == pos {
                assert(r[j] == t[j - 1]);
            } else {
                assert(r[i] == t[i - 1] && r[j] == t[j - 1]);
            }
        }
        assert forall|k: int| #[trigger] with_key(r, k) == with_key(s, k) by {
            let a = t.take(pos);
            let b = t.skip(pos);
            assert(t =~= a + b);
            assert(r =~= a + (seq![e] + b));
            lemma_with_key_concat(a, b, k);
            lemma_with_key_concat(a, seq![e] + b, k);
            lemma_with_key_concat(seq![e], b, k);
            assert(seq![e].drop_last() =~= Seq::<PackageAttr>::empty());
            assert(seq![e].last() == e);
            assert(with_key(seq![e].drop_last(), k) == Seq::<PackageAttr>::empty());
            assert(s =~= p.push(e));
            if ke == k {
                assert forall|m: int| 0 <= m < b.len() implies key_of(#[trigger] b[m]) != k by {
                    assert(b[m] == t[pos + m]);
                }
                lemma_with_key_none(b, k);
                assert(with_key(seq![e], k) =~= seq![e]);
                assert(with_key(r, k) =~= with_key(a, k).push(e));
                assert(with_key(t, k) =~= with_key(a, k));
            } else {
                assert(with_key(seq![e], k) =~= Seq::<PackageAttr>::empty());
                assert(with_key(r, k) =~= with_key(t, k));
            }
        }
    }
}

} // verus!
