use vstd::prelude::*;
use vstd::string::StrSliceExecFns;
use vstd::string::StringExecFns;

verus! {

/// Relies on `String::push`: the character is appended at the end.
pub assume_specification[ String::push ](s: &mut String, ch: char)
    ensures
        final(s)@ == old(s)@.push(ch),
;

/// The character of a digit below sixteen, lowercase for the letters.
pub open spec fn digit_char(d: nat) -> char {
    if d == 0 {
        '0'
    } else if d == 1 {
        '1'
    } else if d == 2 {
        '2'
    } else if d == 3 {
        '3'
    } else if d == 4 {
        '4'
    } else if d == 5 {
        '5'
    } else if d == 6 {
        '6'
    } else if d == 7 {
        '7'
    } else if d == 8 {
        '8'
    } else if d == 9 {
        '9'
    } else if d == 10 {
        'a'
    } else if d == 11 {
        'b'
    } else if d == 12 {
        'c'
    } else if d == 13 {
        'd'
    } else if d == 14 {
        'e'
    } else {
        'f'
    }
}

/// The digits of `n` in the given base, most significant first, without leading zeros.
pub open spec fn digits(n: nat, base: nat) -> Seq<char>
    decreases n
    via digits_decreases
{
    if base < 2 || n < base {
        seq![digit_char(n % 16)]
    } else {
        digits(n / base, base).push(digit_char(n % base))
    }
}

#[via_fn]
proof fn digits_decreases(n: nat, base: nat) {
    if !(base < 2 || n < base) {
        assert(n / base < n) by (nonlinear_arith)
            requires
                base >= 2,
                n >= base,
        ;
    }
}

/// Decimal text of `n`.
pub open spec fn dec_text(n: nat) -> Seq<char> {
    digits(n, 10)
}

/// Lowercase hexadecimal text of `n`.
pub open spec fn hex_text(n: nat) -> Seq<char> {
    digits(n, 16)
}

pub fn digit_of(d: u64) -> (c: char)
    requires
        d < 16,
    ensures
        c == digit_char(d as nat),
{
    if d == 0 {
        '0'
    } else if d == 1 {
        '1'
    } else if d == 2 {
        '2'
    } else if d == 3 {
        '3'
    } else if d == 4 {
        '4'
    } else if d == 5 {
        '5'
    } else if d == 6 {
        '6'
    } else if d == 7 {
        '7'
    } else if d == 8 {
        '8'
    } else if d == 9 {
        '9'
    } else if d == 10 {
        'a'
    } else if d == 11 {
        'b'
    } else if d == 12 {
        'c'
    } else if d == 13 {
        'd'
    } else if d == 14 {
        'e'
    } else {
        'f'
    }
}

/// Appends the digits of `n` in base 10 or 16.
pub fn push_digits(out: &mut String, n: u64, base: u64)
    requires
        base == 10 || base == 16,
    ensures
        final(out)@ == old(out)@ + digits(n as nat, base as nat),
    decreases n,
{
    if n >= base {
        push_digits(out, n / base, base);
    }
    out.push(digit_of(n % base));
    proof {
        if n < base {
            assert(n % 16 == n % base);
        }
        assert(old(out)@ + digits(n as nat, base as nat) == old(out)@ + digits(
            (n / base) as nat,
            base as nat,
        ) + seq![digit_char((n % base) as nat)] || n < base);
    }
}

/// Appends every character of `s`.
pub fn push_str(out: &mut String, s: &str)
    ensures
        final(out)@ == old(out)@ + s@,
{
    broadcast use vstd::string::group_string_axioms;

    let ghost start = out@;
    for c in it: s.chars()
        invariant
            it.seq() == s@,
            out@ == start + it.seq().take(it.index()),
    {
        proof {
            assert(it.seq().take(it.index() + 1) == it.seq().take(it.index()).push(c));
        }
        out.push(c);
    }
}

/// The unit names of the size scale, from bytes up.
pub open spec fn unit_name(i: nat) -> Seq<char> {
    if i == 0 {
        seq!['B']
    } else if i == 1 {
        seq!['K', 'B']
    } else if i == 2 {
        seq!['M', 'B']
    } else if i == 3 {
        seq!['G', 'B']
    } else {
        seq!['T', 'B']
    }
}

/// 1024 to the power `i`.
pub open spec fn scale(i: nat) -> nat
    decreases i,
{
    if i == 0 {
        1
    } else {
        1024 * scale((i - 1) as nat)
    }
}

/// The unit a size is shown in: the largest of the five whose scale does not exceed it.
pub open spec fn unit_of(n: nat) -> nat {
    if n >= scale(4) {
        4
    } else if n >= scale(3) {
        3
    } else if n >= scale(2) {
        2
    } else if n >= scale(1) {
        1
    } else {
        0
    }
}

/// `a / d` rounded to the nearest integer, ties to the even neighbour.
pub open spec fn round_half_even(a: nat, d: nat) -> nat {
    let q = a / d;
    let r = a % d;
    if 2 * r > d || (2 * r == d && q % 2 == 1) {
        q + 1
    } else {
        q
    }
}

/// Two decimal places of a value held in hundredths.
pub open spec fn hundredths_text(h: nat) -> Seq<char> {
    dec_text(h / 100) + seq!['.', digit_char((h % 100) / 10), digit_char(h % 10)]
}

/// Human-readable size: "Unknown" for zero, else the value in its unit with two
/// decimals (the exact quotient, rounded half to even) and the unit name.
pub open spec fn size_text(n: nat) -> Seq<char> {
    if n == 0 {
        seq!['U', 'n', 'k', 'n', 'o', 'w', 'n']
    } else {
        let i = unit_of(n);
        hundredths_text(round_half_even(100 * n, scale(i))) + seq![' '] + unit_name(i)
    }
}

proof fn lemma_scales()
    ensures
        scale(0) == 1,
        scale(1) == 1024,
        scale(2) == 1048576,
        scale(3) == 1073741824,
        scale(4) == 1099511627776,
{
    reveal_with_fuel(scale, 5);
}

/// Format a byte count as a human-readable size.
pub fn format_size(n: u64) -> (r: String)
    ensures
        r@ == size_text(n as nat),
{
    let mut out = String::new();
    if n == 0 {
        out.push('U');
        out.push('n');
        out.push('k');
        out.push('n');
        out.push('o');
        out.push('w');
        out.push('n');
        return out;
    }
    proof {
        lemma_scales();
    }
    let (i, d): (u64, u128) = if n >= 1099511627776 {
        (4, 1099511627776)
    } else if n >= 1073741824 {
        (3, 1073741824)
    } else if n >= 1048576 {
        (2, 1048576)
    } else if n >= 1024 {
        (1, 1024)
    } else {
        (0, 1)
    };
    assert(i as nat == unit_of(n as nat) && d as nat == scale(i as nat));
    let a: u128 = 100 * (n as u128);
    let q: u128 = a / d;
    let rem: u128 = a % d;
    let h: u128 = if 2 * rem > d || (2 * rem == d && q % 2 == 1) {
        q + 1
    } else {
        q
    };
    assert(h as nat == round_half_even(100 * n as nat, scale(i as nat)));
    assert(h <= 100 * (n as u128) + 1) by {
        assert(q <= a) by (nonlinear_arith)
            requires
                q == a / d,
                d >= 1,
        ;
    }
    let whole: u64 = (h / 100) as u64;
    let frac: u64 = (h % 100) as u64;
    push_digits(&mut out, whole, 10);
    out.push('.');
    out.push(digit_of(frac / 10));
    out.push(digit_of(frac % 10));
    out.push(' ');
    if i == 0 {
        out.push('B');
    } else {
        if i == 1 {
            out.push('K');
        } else if i == 2 {
            out.push('M');
        } else if i == 3 {
            out.push('G');
        } else {
            out.push('T');
        }
        out.push('B');
    }
    proof {
        let hn = h as nat;
        assert(frac as nat == hn % 100);
        assert(whole as nat == hn / 100);
        assert(hn % 10 == (hn % 100) % 10) by (nonlinear_arith);
        assert(out@ =~= size_text(n as nat));
    }
    out
}

/// ASCII letters and digits.
pub open spec fn is_alnum(c: char) -> bool {
    ('0' <= c && c <= '9') || ('a' <= c && c <= 'z') || ('A' <= c && c <= 'Z')
}

/// ASCII uppercase of a character; every other character is kept.
pub open spec fn upper(c: char) -> char {
    if 'a' <= c && c <= 'z' {
        (((c as u32) - 32) as u8) as char
    } else {
        c
    }
}

/// The identifier with everything but ASCII letters and digits dropped, uppercased.
pub open spec fn clean_id(s: Seq<char>) -> Seq<char>
    decreases s.len(),
{
    if s.len() == 0 {
        seq![]
    } else {
        let prev = clean_id(s.drop_last());
        if is_alnum(s.last()) {
            prev.push(upper(s.last()))
        } else {
            prev
        }
    }
}

fn is_alnum_char(c: char) -> (r: bool)
    ensures
        r == is_alnum(c),
{
    ('0' <= c && c <= '9') || ('a' <= c && c <= 'z') || ('A' <= c && c <= 'Z')
}

fn upper_char(c: char) -> (r: char)
    ensures
        r == upper(c),
{
    if 'a' <= c && c <= 'z' {
        (((c as u32) - 32) as u8) as char
    } else {
        c
    }
}

/// Clean and normalise a title identifier: keep ASCII letters and digits, uppercased.
pub fn clean_title_id(raw: &str) -> (r: String)
    ensures
        r@ == clean_id(raw@),
{
    broadcast use vstd::string::group_string_axioms;
    broadcast use vstd::seq_lib::group_seq_properties;

    let mut out = String::new();
    for c in it: raw.chars()
        invariant
            it.seq() == raw@,
            out@ == clean_id(it.seq().take(it.index())),
    {
        proof {
            let t = it.seq().take(it.index() + 1);
            assert(t.drop_last() == it.seq().take(it.index()));
            assert(t.last() == c);
        }
        if is_alnum_char(c) {
            out.push(upper_char(c));
        }
    }
    out
}

proof fn lemma_clean_id_chars(s: Seq<char>)
    ensures
        forall|i: int|
            0 <= i < clean_id(s).len() ==> is_alnum(#[trigger] clean_id(s)[i]) && upper(
                clean_id(s)[i],
            ) == clean_id(s)[i],
    decreases s.len(),
{
    if s.len() > 0 {
        lemma_clean_id_chars(s.drop_last());
        if is_alnum(s.last()) {
            lemma_upper_alnum(s.last());
            let p = clean_id(s.drop_last());
            assert forall|i: int| 0 <= i < clean_id(s).len() implies is_alnum(
                #[trigger] clean_id(s)[i],
            ) && upper(clean_id(s)[i]) == clean_id(s)[i] by {
                if i < p.len() {
                    assert(clean_id(s)[i] == p[i]);
                }
            }
        } else {
            assert(clean_id(s) == clean_id(s.drop_last()));
        }
    }
}

proof fn lemma_upper_alnum(c: char)
    requires
        is_alnum(c),
    ensures
        is_alnum(upper(c)),
        upper(upper(c)) == upper(c),
        !('a' <= upper(c) && upper(c) <= 'z'),
{
    if 'a' <= c && c <= 'z' {
        let v = (c as u32) - 32;
        assert(65 <= v <= 90);
        assert(((v as u8) as char) as u32 == v);
    }
}

proof fn lemma_clean_id_fixed(s: Seq<char>)
    requires
        forall|i: int| 0 <= i < s.len() ==> is_alnum(#[trigger] s[i]) && upper(s[i]) == s[i],
    ensures
        clean_id(s) == s,
    decreases s.len(),
{
    if s.len() > 0 {
        let p = s.drop_last();
        assert forall|i: int| 0 <= i < p.len() implies is_alnum(#[trigger] p[i]) && upper(p[i])
            == p[i] by {
            assert(p[i] == s[i]);
        }
        lemma_clean_id_fixed(p);
        assert(s == p.push(s.last()));
    }
}

/// Normalising an identifier twice gives what normalising it once gives: the result
/// holds only uppercase ASCII letters and digits.
pub proof fn clean_title_id_idempotent(s: Seq<char>)
    ensures
        clean_id(clean_id(s)) == clean_id(s),
        forall|i: int|
            0 <= i < clean_id(s).len() ==> is_alnum(#[trigger] clean_id(s)[i]) && !(
            'a' <= clean_id(s)[i] && clean_id(s)[i] <= 'z'),
{
    lemma_clean_id_chars(s);
    lemma_clean_id_fixed(clean_id(s));
    assert forall|i: int| 0 <= i < clean_id(s).len() implies is_alnum(#[trigger] clean_id(s)[i])
        && !('a' <= clean_id(s)[i] && clean_id(s)[i] <= 'z') by {
        lemma_upper_alnum(clean_id(s)[i]);
    }
}

/// Characters kept in a directory name; every other one becomes a space.
pub open spec fn dir_char(c: char) -> char {
    if is_alnum(c) || c == ' ' || c == '-' || c == '_' {
        c
    } else {
        ' '
    }
}

/// The sanitised text with runs of spaces collapsed to one and none at either end.
pub open spec fn squeeze(s: Seq<char>) -> Seq<char>
    decreases s.len(),
{
    if s.len() == 0 {
        seq![]
    } else {
        let prev = squeeze(s.drop_last());
        let c = dir_char(s.last());
        if c == ' ' {
            prev
        } else if prev.len() > 0 && dir_char(s[s.len() - 2]) == ' ' {
            prev.push(' ').push(c)
        } else {
            prev.push(c)
        }
    }
}

/// A directory name made of `s`: its squeezed text cut to 64 characters, or
/// "PS3Updates" where nothing is left.
pub open spec fn safe_dir(s: Seq<char>) -> Seq<char> {
    let q = squeeze(s);
    if q.len() == 0 {
        "PS3Updates"@
    } else if q.len() <= 64 {
        q
    } else {
        q.take(64)
    }
}

fn dir_char_of(c: char) -> (r: char)
    ensures
        r == dir_char(c),
{
    if is_alnum_char(c) || c == ' ' || c == '-' || c == '_' {
        c
    } else {
        ' '
    }
}

/// Create a safe directory name from a string.
pub fn safe_dir_name(raw: &str) -> (r: String)
    ensures
        r@ == safe_dir(raw@),
{
    broadcast use vstd::string::group_string_axioms;
    broadcast use vstd::seq_lib::group_seq_properties;

    let mut out = String::new();
    let mut prev_gap = false;
    for c in it: raw.chars()
        invariant
            it.seq() == raw@,
            out@ == squeeze(it.seq().take(it.index())),
            prev_gap == (it.index() > 0 && dir_char(it.seq()[it.index() - 1]) == ' '),
    {
        let ghost t = it.seq().take(it.index() + 1);
        proof {
            assert(t.drop_last() == it.seq().take(it.index()));
            assert(t.last() == c);
            if it.index() > 0 {
                assert(t[t.len() - 2] == it.seq()[it.index() - 1]);
            }
        }
        let d = dir_char_of(c);
        if d != ' ' {
            if prev_gap && out.as_str().unicode_len() > 0 {
                out.push(' ');
            }
            out.push(d);
        }
        prev_gap = d == ' ';
    }
    let n = out.as_str().unicode_len();
    if n == 0 {
        String::from_str("PS3Updates")
    } else if n <= 64 {
        out
    } else {
        String::from_str(out.as_str().substring_char(0, 64))
    }
}

/// Characters that cannot stand in a folder name on common file systems become `_`.
pub open spec fn path_char(c: char) -> char {
    if c == '/' || c == '\\' || c == ':' || c == '*' || c == '?' || c == '"' || c == '<' || c
        == '>' || c == '|' {
        '_'
    } else {
        c
    }
}

/// The folder a package of a title is saved in: "<title> (<id>)" with the characters
/// that paths reserve replaced by `_`.
pub open spec fn folder_text(game_title: Seq<char>, title_id: Seq<char>) -> Seq<char> {
    (game_title + seq![' ', '('] + title_id + seq![')']).map_values(|c: char| path_char(c))
}

fn path_char_of(c: char) -> (r: char)
    ensures
        r == path_char(c),
{
    if c == '/' || c == '\\' || c == ':' || c == '*' || c == '?' || c == '"' || c == '<' || c
        == '>' || c == '|' {
        '_'
    } else {
        c
    }
}

fn push_path_chars(out: &mut String, s: &str)
    ensures
        final(out)@ == old(out)@ + s@.map_values(|c: char| path_char(c)),
{
    broadcast use vstd::string::group_string_axioms;
    broadcast use vstd::seq_lib::group_seq_properties;

    let ghost start = out@;
    for c in it: s.chars()
        invariant
            it.seq() == s@,
            out@ == start + it.seq().take(it.index()).map_values(|c: char| path_char(c)),
    {
        proof {
            assert(it.seq().take(it.index() + 1).map_values(|c: char| path_char(c))
                =~= it.seq().take(it.index()).map_values(|c: char| path_char(c)).push(
                path_char(c),
            ));
        }
        out.push(path_char_of(c));
    }
}

/// Name of the folder that a title's packages are saved in.
pub fn download_folder_name(game_title: &str, title_id: &str) -> (r: String)
    ensures
        r@ == folder_text(game_title@, title_id@),
{
    let mut out = String::new();
    push_path_chars(&mut out, game_title);
    out.push(' ');
    out.push('(');
    push_path_chars(&mut out, title_id);
    out.push(')');
    proof {
        let f = |c: char| path_char(c);
        assert(folder_text(game_title@, title_id@) =~= game_title@.map_values(f) + seq![' ', '(']
            + title_id@.map_values(f) + seq![')']);
    }
    out
}

} // verus!
