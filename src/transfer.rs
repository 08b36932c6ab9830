use crate::types::DownloadMode;
use vstd::prelude::*;

verus! {

/// Size of every range but the last: the total split evenly, at least one byte.
pub open spec fn part_size(total: nat, num_parts: nat) -> nat {
    if num_parts == 0 || total / num_parts == 0 {
        1
    } else {
        total / num_parts
    }
}

/// The ranges, inclusive at both ends, follow one another from byte 0 to byte
/// `total - 1` with neither gap nor overlap.
pub open spec fn tiles(r: Seq<(u64, u64)>, total: nat) -> bool {
    &&& r.len() > 0
    &&& r[0].0 == 0
    &&& r.last().1 + 1 == total
    &&& forall|i: int| 0 <= i < r.len() ==> #[trigger] r[i].0 <= r[i].1
    &&& forall|i: int| 0 <= i < r.len() - 1 ==> #[trigger] r[i + 1].0 == r[i].1 + 1
}

/// Split `[0, total)` into at most `num_parts` contiguous inclusive ranges. Each
/// range but the last holds `part_size` bytes; the last takes the remaining tail,
/// and it is no longer than the others unless all `num_parts` ranges were used.
pub fn split_ranges(total: u64, num_parts: usize) -> (r: Vec<(u64, u64)>)
    requires
        total > 0,
        num_parts > 0,
    ensures
        tiles(r@, total as nat),
        r@.len() <= num_parts,
        forall|i: int|
            0 <= i < r@.len() - 1 ==> #[trigger] r@[i].1 - r@[i].0 + 1 == part_size(
                total as nat,
                num_parts as nat,
            ),
        r@.len() < num_parts ==> r@.last().1 - r@.last().0 + 1 <= part_size(
            total as nat,
            num_parts as nat,
        ),
{
    let q: u64 = total / (num_parts as u64);
    let p: u64 = if q == 0 {
        1
    } else {
        q
    };
    assert(p as nat == part_size(total as nat, num_parts as nat));
    let mut ranges: Vec<(u64, u64)> = Vec::new();
    let mut start: u64 = 0;
    let mut i: usize = 0;
    loop
        invariant
            i < num_parts,
            p == part_size(total as nat, num_parts as nat),
            p >= 1,
            ranges@.len() == i,
            start < total,
            i == 0 ==> start == 0,
            i > 0 ==> start == ranges@.last().1 + 1,
            ranges@.len() > 0 ==> ranges@[0].0 == 0,
            forall|k: int| 0 <= k < ranges@.len() ==> #[trigger] ranges@[k].0 <= ranges@[k].1,
            forall|k: int|
                0 <= k < ranges@.len() - 1 ==> #[trigger] ranges@[k + 1].0 == ranges@[k].1 + 1,
            forall|k: int|
                0 <= k < ranges@.len() ==> #[trigger] ranges@[k].1 - ranges@[k].0 + 1 == p,
        decreases num_parts - i,
    {
        let last = i == num_parts - 1 || p - 1 >= (total - 1) - start;
        let end: u64 = if last {
            total - 1
        } else {
            start + (p - 1)
        };
        ranges.push((start, end));
        if last {
            assert(ranges@.len() - 1 == i);
            return ranges;
        }
        start = end + 1;
        i = i + 1;
    }
}

/// Every byte of `[0, total)` lies in exactly one range of a tiling, and no range
/// reaches past it.
pub proof fn ranges_cover_exactly_once(r: Seq<(u64, u64)>, total: nat, b: nat)
    requires
        tiles(r, total),
    ensures
        forall|i: int| 0 <= i < r.len() ==> #[trigger] r[i].1 < total,
        b < total ==> exists|i: int| 0 <= i < r.len() && (#[trigger] r[i]).0 <= b <= r[i].1,
        forall|i: int, j: int|
            0 <= i < j < r.len() ==> !(#[trigger] r[i].0 <= b <= r[i].1 && #[trigger] r[j].0 <= b
                <= r[j].1),
{
    lemma_tiles_ordered(r, total);
    if b < total {
        lemma_tiles_find(r, total, b, r.len() - 1);
    }
    assert forall|i: int, j: int| 0 <= i < j < r.len() implies !(#[trigger] r[i].0 <= b <= r[i].1
        && #[trigger] r[j].0 <= b <= r[j].1) by {
        assert(r[i].1 < r[j].0);
    }
}

proof fn lemma_tiles_ordered(r: Seq<(u64, u64)>, total: nat)
    requires
        tiles(r, total),
    ensures
        forall|i: int| 0 <= i < r.len() ==> #[trigger] r[i].1 < total,
        forall|i: int, j: int| 0 <= i < j < r.len() ==> #[trigger] r[i].1 < #[trigger] r[j].0,
{
    assert forall|i: int, j: int| 0 <= i < j < r.len() implies #[trigger] r[i].1
        < #[trigger] r[j].0 by {
        lemma_tiles_gap(r, total, i, j);
    }
    assert forall|i: int| 0 <= i < r.len() implies #[trigger] r[i].1 < total by {
        if i < r.len() - 1 {
            lemma_tiles_gap(r, total, i, r.len() - 1);
        }
    }
}

proof fn lemma_tiles_gap(r: Seq<(u64, u64)>, total: nat, i: int, j: int)
    requires
        tiles(r, total),
        0 <= i < j < r.len(),
    ensures
        r[i].1 < r[j].0,
    decreases j - i,
{
    assert(r[j - 1 + 1].0 == r[j - 1].1 + 1);
    if i < j - 1 {
        lemma_tiles_gap(r, total, i, j - 1);
        assert(r[j - 1].0 <= r[j - 1].1);
    }
}

proof fn lemma_tiles_find(r: Seq<(u64, u64)>, total: nat, b: nat, k: int)
    requires
        tiles(r, total),
        0 <= k < r.len(),
        b <= r[k].1,
    ensures
        exists|i: int| 0 <= i <= k && (#[trigger] r[i]).0 <= b <= r[i].1,
    decreases k,
{
    if b < r[k].0 {
        assert(r[k - 1 + 1].0 == r[k - 1].1 + 1);
        lemma_tiles_find(r, total, b, k - 1);
    } else {
        assert(r[k].0 <= b <= r[k].1);
    }
}

/// Status codes of a successful HTTP reply.
pub open spec fn success_status(status: u16) -> bool {
    200 <= status <= 299
}

/// Whether an HTTP status reports success; a range reply (206) is one of them.
pub fn is_success_status(status: u16) -> (r: bool)
    ensures
        r == success_status(status),
{
    200 <= status && status <= 299
}

/// The lowercase form of a text, as `str::to_lowercase` gives it.
pub uninterp spec fn lower_of(s: Seq<char>) -> Seq<char>;

/// Relies on `str::to_lowercase`: its result depends on the text alone.
#[verifier::external_body]
fn lowercase(s: &str) -> (r: String)
    ensures
        r@ == lower_of(s@),
{
    s.to_lowercase()
}

/// `t` occurs in `s` at some position.
pub open spec fn contains_text(s: Seq<char>, t: Seq<char>) -> bool {
    exists|i: int| 0 <= i && i + t.len() <= s.len() && #[trigger] s.subrange(i, i + t.len()) == t
}

/// The characters of a text, one by one.
pub fn chars_of(s: &str) -> (r: Vec<char>)
    ensures
        r@ == s@,
{
    broadcast use vstd::string::group_string_axioms;
    broadcast use vstd::seq_lib::group_seq_properties;

    let mut out: Vec<char> = Vec::new();
    for c in it: s.chars()
        invariant
            it.seq() == s@,
            out@ == it.seq().take(it.index()),
    {
        proof {
            assert(it.seq().take(it.index() + 1) == it.seq().take(it.index()).push(c));
        }
        out.push(c);
    }
    out
}

/// Whether `t` occurs in `s` at position `i`.
pub fn occurs_at(s: &Vec<char>, t: &Vec<char>, i: usize) -> (r: bool)
    ensures
        r == (i + t@.len() <= s@.len() && s@.subrange(i as int, i + t@.len()) == t@),
{
    if i > s.len() || t.len() > s.len() - i {
        return false;
    }
    let mut k: usize = 0;
    while k < t.len()
        invariant
            i + t@.len() <= s@.len(),
            k <= t@.len(),
            forall|j: int| 0 <= j < k ==> s@[i + j] == t@[j],
        decreases t@.len() - k,
    {
        let n = s.len();
        assert(i + k < n);
        if s[i + k] != t[k] {
            assert(s@.subrange(i as int, i + t@.len())[k as int] != t@[k as int]);
            return false;
        }
        k = k + 1;
    }
    assert(s@.subrange(i as int, i + t@.len()) =~= t@);
    true
}

/// The first position at or after `from` where `t` occurs in `s`.
pub open spec fn first_at_from(s: Seq<char>, t: Seq<char>, from: int, i: int) -> bool {
    &&& from <= i
    &&& i + t.len() <= s.len()
    &&& s.subrange(i, i + t.len()) == t
    &&& forall|j: int| from <= j < i ==> #[trigger] s.subrange(j, j + t.len()) != t
}

/// Find `t` in `s` at or after position `from`.
pub fn find_from(s: &Vec<char>, t: &Vec<char>, from: usize) -> (r: Option<usize>)
    ensures
        match r {
            Some(i) => first_at_from(s@, t@, from as int, i as int),
            None => forall|j: int|
                from <= j && j + t@.len() <= s@.len() ==> #[trigger] s@.subrange(j, j + t@.len())
                    != t@,
        },
{
    if t.len() == 0 {
        if from <= s.len() {
            assert(s@.subrange(from as int, from as int) =~= t@);
            return Some(from);
        }
        return None;
    }
    let mut i = from;
    while i < s.len()
        invariant
            from <= i,
            t@.len() > 0,
            forall|j: int|
                from <= j < i && j + t@.len() <= s@.len() ==> #[trigger] s@.subrange(
                    j,
                    j + t@.len(),
                ) != t@,
        decreases s@.len() - i,
    {
        if occurs_at(s, t, i) {
            return Some(i);
        }
        i = i + 1;
    }
    None
}

/// Whether an already lowercased `Accept-Ranges` value offers byte ranges.
pub fn offers_bytes_folded(folded: &str) -> (r: bool)
    ensures
        r == contains_text(folded@, "bytes"@),
{
    let s = chars_of(folded);
    let t = chars_of("bytes");
    let found = find_from(&s, &t, 0);
    match found {
        Some(_) => true,
        None => {
            assert forall|j: int| 0 <= j && j + t@.len() <= s@.len() implies #[trigger] s@.subrange(
                j,
                j + t@.len(),
            ) != t@ by {}
            false
        },
    }
}

/// Whether a server's `Accept-Ranges` header, where present, offers byte ranges.
pub fn accepts_byte_ranges(header: Option<&str>) -> (r: bool)
    ensures
        r == match header {
            Some(v) => contains_text(lower_of(v@), "bytes"@),
            None => false,
        },
{
    match header {
        Some(v) => {
            let folded = lowercase(v);
            offers_bytes_folded(folded.as_str())
        },
        None => false,
    }
}

/// Whether a ranged attempt can go ahead on what the size probe found.
pub open spec fn ranged_ready(content_length: Option<u64>, accepts_ranges: bool, num_parts: usize) -> bool {
    &&& num_parts > 0
    &&& content_length matches Some(n) && n > 0
    &&& accepts_ranges
}

/// Where a transfer stands.
#[derive(Debug, Clone, Copy, PartialEq, Eq, Structural)]
pub enum Stage {
    /// Waiting for the size probe of a ranged attempt.
    Probing,
    /// The ranges are in flight.
    Ranges,
    /// A single-stream transfer is in flight.
    Whole,
    /// The outcome has been decided.
    Done,
}

/// What the caller is to do next.
#[derive(Debug, Clone, Copy, PartialEq, Eq, Structural)]
pub enum TransferStep {
    /// Ask for the size and range support of the resource (a HEAD request).
    Probe,
    /// Record `total` on the job, create the file, and fetch the ranges that
    /// `split_ranges(total, num_parts)` gives, each at its own offset.
    FetchRanges { total: u64 },
    /// Fetch the whole resource in one stream, writing the file from scratch.
    FetchWhole,
    /// Mark the job finished, with the error of the last transfer where it failed.
    Finish { failed: bool },
    /// Nothing to do.
    Idle,
}

/// What the caller observed.
#[derive(Debug, Clone, Copy, PartialEq, Eq, Structural)]
pub enum TransferEvent {
    /// The size probe answered.
    Probed { content_length: Option<u64>, accepts_ranges: bool },
    /// The size probe could not be made.
    ProbeFailed,
    /// Every range task has ended.
    RangesDone { any_failed: bool },
    /// The single-stream transfer has ended.
    WholeDone { failed: bool },
}

/// The decisions of one transfer: a ranged attempt first where asked for, and on
/// any failure of it one single-stream transfer whose outcome is final.
#[derive(Debug, Clone, Copy, PartialEq, Eq, Structural)]
pub struct TransferPlan {
    pub stage: Stage,
    pub num_parts: usize,
}

/// The plan a mode starts with, and its first step.
pub open spec fn start_spec(mode: DownloadMode) -> (TransferPlan, TransferStep) {
    match mode {
        DownloadMode::Direct => (TransferPlan { stage: Stage::Whole, num_parts: 1 }, TransferStep::FetchWhole),
        DownloadMode::MultiPart { num_parts } => (
            TransferPlan { stage: Stage::Probing, num_parts },
            TransferStep::Probe,
        ),
    }
}

/// The next plan and step after an event; an event that does not belong to the
/// stage changes nothing.
pub open spec fn next_spec(p: TransferPlan, ev: TransferEvent) -> (TransferPlan, TransferStep) {
    let whole = (TransferPlan { stage: Stage::Whole, ..p }, TransferStep::FetchWhole);
    match (p.stage, ev) {
        (Stage::Probing, TransferEvent::Probed { content_length, accepts_ranges }) => {
            if ranged_ready(content_length, accepts_ranges, p.num_parts) {
                (
                    TransferPlan { stage: Stage::Ranges, ..p },
                    TransferStep::FetchRanges { total: content_length->0 },
                )
            } else {
                whole
            }
        },
        (Stage::Probing, TransferEvent::ProbeFailed) => whole,
        (Stage::Ranges, TransferEvent::RangesDone { any_failed }) => {
            if any_failed {
                whole
            } else {
                (TransferPlan { stage: Stage::Done, ..p }, TransferStep::Finish { failed: false })
            }
        },
        (Stage::Whole, TransferEvent::WholeDone { failed }) => (
            TransferPlan { stage: Stage::Done, ..p },
            TransferStep::Finish { failed },
        ),
        _ => (p, TransferStep::Idle),
    }
}

impl TransferPlan {
    /// The plan for a transfer in `mode`, and what to do first.
    pub fn start(mode: DownloadMode) -> (r: (TransferPlan, TransferStep))
        ensures
            r == start_spec(mode),
    {
        match mode {
            DownloadMode::Direct => (
                TransferPlan { stage: Stage::Whole, num_parts: 1 },
                TransferStep::FetchWhole,
            ),
            DownloadMode::MultiPart { num_parts } => (
                TransferPlan { stage: Stage::Probing, num_parts },
                TransferStep::Probe,
            ),
        }
    }

    /// Take in what happened and say what to do next.
    pub fn on_event(&mut self, ev: TransferEvent) -> (r: TransferStep)
        ensures
            (*final(self), r) == next_spec(*old(self), ev),
    {
        let whole = TransferPlan { stage: Stage::Whole, num_parts: self.num_parts };
        match (self.stage, ev) {
            (Stage::Probing, TransferEvent::Probed { content_length, accepts_ranges }) => {
                let ready = match content_length {
                    Some(n) => self.num_parts > 0 && n > 0 && accepts_ranges,
                    None => false,
                };
                if ready {
                    self.stage = Stage::Ranges;
                    TransferStep::FetchRanges { total: content_length.unwrap() }
                } else {
                    *self = whole;
                    TransferStep::FetchWhole
                }
            },
            (Stage::Probing, TransferEvent::ProbeFailed) => {
                *self = whole;
                TransferStep::FetchWhole
            },
            (Stage::Ranges, TransferEvent::RangesDone { any_failed }) => {
                if any_failed {
                    *self = whole;
                    TransferStep::FetchWhole
                } else {
                    self.stage = Stage::Done;
                    TransferStep::Finish { failed: false }
                }
            },
            (Stage::Whole, TransferEvent::WholeDone { failed }) => {
                self.stage = Stage::Done;
                TransferStep::Finish { failed }
            },
            _ => TransferStep::Idle,
        }
    }
}

/// A ranged transfer that fails at any stage (the probe cannot be made, the size
/// is unknown or zero, ranges are not offered, or a range fails) falls back to one
/// single-stream transfer, and the job finishes with that transfer's outcome.
pub proof fn fallback_finishes_with_direct_outcome(
    num_parts: usize,
    probe: TransferEvent,
    failed: bool,
)
    requires
        probe is Probed || probe is ProbeFailed,
    ensures
        ({
            let planned = start_spec(DownloadMode::MultiPart { num_parts }).0;
            let (probed, first) = next_spec(planned, probe);
            let ready = match probe {
                TransferEvent::Probed { content_length, accepts_ranges } => ranged_ready(
                    content_length,
                    accepts_ranges,
                    num_parts,
                ),
                _ => false,
            };
            &&& !ready ==> first == TransferStep::FetchWhole && next_spec(
                probed,
                TransferEvent::WholeDone { failed },
            ).1 == TransferStep::Finish { failed }
            &&& ready ==> {
                let (refetch, second) = next_spec(probed, TransferEvent::RangesDone { any_failed: true });
                &&& first is FetchRanges
                &&& second == TransferStep::FetchWhole
                &&& next_spec(refetch, TransferEvent::WholeDone { failed }).1 == TransferStep::Finish {
                    failed,
                }
            }
        }),
{
}

} // verus!
