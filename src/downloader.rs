use crate::types::{PS3UpdateError, ProgressInfo};
use crate::utils::{digit_char, digits, format_size, hex_text, push_digits, push_str, size_text};
use std::collections::HashMap;
use vstd::prelude::*;
use vstd::string::StringExecFns;

verus! {

/// Relies on `rand::random`: a value drawn from the thread-local generator; nothing
/// is known of which.
pub assume_specification<T>[ rand::random::<T> ]() -> T
    where
        rand::distributions::Standard: rand::distributions::Distribution<T>,
;

/// The ledger entry of one transfer.
#[derive(Debug)]
pub struct Job {
    pub filename: String,
    pub total: u64,
    pub downloaded: u64,
    /// When the job was created, in microseconds on the caller's clock.
    pub started_us: u64,
    pub done: bool,
    pub error: Option<String>,
}

/// The passive shared ledger of transfer jobs, keyed by job id. Callers that share
/// it between threads hold it behind a lock; each method is one atomic update.
pub struct DownloadManager {
    pub jobs: HashMap<u64, Job>,
}

pub open spec fn is_hex_digit(c: char) -> bool {
    ('0' <= c && c <= '9') || ('a' <= c && c <= 'f')
}

pub open spec fn hex_digit_value(c: char) -> nat {
    if '0' <= c && c <= '9' {
        ((c as u32) - ('0' as u32)) as nat
    } else {
        ((c as u32) - ('a' as u32) + 10) as nat
    }
}

/// The value of a run of hexadecimal digits.
pub open spec fn hex_value(s: Seq<char>) -> nat
    decreases s.len(),
{
    if s.len() == 0 {
        0
    } else {
        16 * hex_value(s.drop_last()) + hex_digit_value(s.last())
    }
}

pub open spec fn all_hex(s: Seq<char>) -> bool {
    forall|i: int| 0 <= i < s.len() ==> is_hex_digit(#[trigger] s[i])
}

/// The job a text names: the number whose lowercase hexadecimal text it is.
pub open spec fn job_key(s: Seq<char>) -> Option<u64> {
    if s.len() > 0 && all_hex(s) && hex_value(s) <= u64::MAX && hex_text(hex_value(s)) == s {
        Some(hex_value(s) as u64)
    } else {
        None
    }
}

proof fn lemma_digit_value(d: nat)
    requires
        d < 16,
    ensures
        is_hex_digit(digit_char(d)),
        hex_digit_value(digit_char(d)) == d,
{
}

proof fn lemma_hex_text(v: nat)
    ensures
        hex_text(v).len() > 0,
        all_hex(hex_text(v)),
        hex_value(hex_text(v)) == v,
    decreases v,
{
    reveal_with_fuel(digits, 2);
    if v < 16 {
        lemma_digit_value(v);
        assert(hex_text(v) == seq![digit_char(v % 16)]);
        assert(hex_text(v).drop_last() =~= Seq::<char>::empty());
        assert(hex_value(hex_text(v)) == 16 * hex_value(Seq::<char>::empty()) + hex_digit_value(
            digit_char(v),
        ));
        assert(v % 16 == v);
    } else {
        lemma_hex_text(v / 16);
        lemma_digit_value(v % 16);
        let p = hex_text(v / 16);
        assert(hex_text(v) == p.push(digit_char(v % 16)));
        assert(hex_text(v).drop_last() =~= p);
        assert(hex_value(hex_text(v)) == 16 * hex_value(p) + hex_digit_value(digit_char(v % 16)));
        assert(v == 16 * (v / 16) + v % 16);
        assert forall|i: int| 0 <= i < hex_text(v).len() implies is_hex_digit(
            #[trigger] hex_text(v)[i],
        ) by {
            if i < p.len() {
                assert(hex_text(v)[i] == p[i]);
            }
        }
    }
}

/// Every job id text names its job.
pub proof fn job_key_of_id(v: u64)
    ensures
        job_key(hex_text(v as nat)) == Some(v),
{
    lemma_hex_text(v as nat);
}

/// The text of a job id: lowercase hexadecimal without leading zeros.
pub fn job_id_text(id: u64) -> (r: String)
    ensures
        r@ == hex_text(id as nat),
{
    let mut out = String::new();
    push_digits(&mut out, id, 16);
    out
}

fn hex_digit_of(c: char) -> (r: Option<u64>)
    ensures
        r matches Some(d) ==> is_hex_digit(c) && d == hex_digit_value(c),
        r is None ==> !is_hex_digit(c),
{
    if '0' <= c && c <= '9' {
        Some((c as u32 - '0' as u32) as u64)
    } else if 'a' <= c && c <= 'f' {
        Some((c as u32 - 'a' as u32 + 10) as u64)
    } else {
        None
    }
}

proof fn lemma_hex_value_prefix(d: Seq<char>, k: int)
    requires
        0 <= k <= d.len(),
    ensures
        hex_value(d.subrange(0, k)) <= hex_value(d),
    decreases d.len(),
{
    if k < d.len() {
        let p = d.drop_last();
        lemma_hex_value_prefix(p, k);
        assert(p.subrange(0, k) =~= d.subrange(0, k));
    } else {
        assert(d.subrange(0, k) =~= d);
    }
}

/// Read a run of lowercase hexadecimal digits that fits in 64 bits.
fn parse_hex(s: &str) -> (r: Option<u64>)
    ensures
        r matches Some(v) ==> s@.len() > 0 && all_hex(s@) && hex_value(s@) == v,
        r is None ==> !(s@.len() > 0 && all_hex(s@) && hex_value(s@) <= u64::MAX),
{
    let c = crate::transfer::chars_of(s);
    let n = c.len();
    if n == 0 {
        return None;
    }
    let mut acc: u64 = 0;
    let mut i: usize = 0;
    while i < n
        invariant
            c@ == s@,
            n == c@.len(),
            i <= n,
            forall|k: int| 0 <= k < i ==> is_hex_digit(#[trigger] c@[k]),
            acc as nat == hex_value(c@.subrange(0, i as int)),
        decreases n - i,
    {
        proof {
            assert(c@.subrange(0, i + 1).drop_last() =~= c@.subrange(0, i as int));
        }
        let dig = match hex_digit_of(c[i]) {
            Some(d) => d,
            None => {
                assert(!is_hex_digit(s@[i as int]));
                return None;
            },
        };
        if acc > (u64::MAX - dig) / 16 {
            proof {
                assert(16 * acc + dig > u64::MAX) by (nonlinear_arith)
                    requires
                        acc > (u64::MAX - dig) / 16,
                        dig <= 15,
                ;
                lemma_hex_value_prefix(s@, i + 1);
            }
            return None;
        }
        assert(acc * 16 + dig <= u64::MAX) by (nonlinear_arith)
            requires
                acc <= (u64::MAX - dig) / 16,
                dig <= 15,
        ;
        acc = acc * 16 + dig;
        i = i + 1;
    }
    proof {
        assert(c@.subrange(0, n as int) =~= s@);
    }
    Some(acc)
}

/// Elapsed time in microseconds, never below a millisecond.
pub open spec fn elapsed_floor(started_us: u64, now_us: u64) -> nat {
    let e = if now_us >= started_us {
        (now_us - started_us) as nat
    } else {
        0
    };
    if e < 1000 {
        1000
    } else {
        e
    }
}

/// Whole bytes per second since the job started, capped at the largest `u64`.
pub open spec fn speed_of(downloaded: u64, started_us: u64, now_us: u64) -> nat {
    let s = (downloaded as nat) * 1_000_000 / elapsed_floor(started_us, now_us);
    if s > u64::MAX {
        u64::MAX as nat
    } else {
        s
    }
}

/// "0 B/s" before any byte arrived, else the formatted rate with "/s".
pub open spec fn speed_text(downloaded: u64, speed: nat) -> Seq<char> {
    if downloaded == 0 {
        "0 B/s"@
    } else {
        size_text(speed) + "/s"@
    }
}

/// What a snapshot of `job` taken at `now_us` reads.
pub open spec fn progress_of(job: Job, now_us: u64, p: ProgressInfo) -> bool {
    &&& p.filename matches Some(f) && f@ == job.filename@
    &&& p.total == job.total
    &&& p.downloaded == job.downloaded
    &&& p.speed_bytes_per_sec == speed_of(job.downloaded, job.started_us, now_us)
    &&& p.speed_human@ == speed_text(job.downloaded, p.speed_bytes_per_sec as nat)
    &&& p.done == job.done
    &&& p.error == job.error
}

/// The ledger after `f` was applied to the job that `s` names, where there is one.
pub open spec fn updated(m: Map<u64, Job>, s: Seq<char>, f: spec_fn(Job) -> Job) -> Map<u64, Job> {
    match job_key(s) {
        Some(v) => if m.contains_key(v) {
            m.insert(v, f(m[v]))
        } else {
            m
        },
        None => m,
    }
}

/// The ledger without the job that `s` names.
pub open spec fn without(m: Map<u64, Job>, s: Seq<char>) -> Map<u64, Job> {
    match job_key(s) {
        Some(v) => m.remove(v),
        None => m,
    }
}

/// The job that `s` names in the ledger, where there is one.
pub open spec fn lookup(m: Map<u64, Job>, s: Seq<char>) -> Option<Job> {
    match job_key(s) {
        Some(v) => if m.contains_key(v) {
            Some(m[v])
        } else {
            None
        },
        None => None,
    }
}

/// No job that stays in the ledger has fewer bytes counted than before.
pub open spec fn keeps_progress(a: Map<u64, Job>, b: Map<u64, Job>) -> bool {
    forall|v: u64|
        a.contains_key(v) && b.contains_key(v) ==> #[trigger] b[v].downloaded >= a[v].downloaded
}

impl DownloadManager {
    /// An empty ledger.
    pub fn new() -> (r: DownloadManager)
        ensures
            r.jobs@ == Map::<u64, Job>::empty(),
    {
        DownloadManager { jobs: HashMap::new() }
    }

    /// The key of the job that `job_id` names, where the ledger holds one.
    fn find(&self, job_id: &str) -> (r: Option<u64>)
        ensures
            r matches Some(v) ==> job_key(job_id@) == Some(v) && self.jobs@.contains_key(v),
            r is None ==> lookup(self.jobs@, job_id@) is None,
    {
        broadcast use vstd::std_specs::hash::group_hash_axioms;

        match parse_hex(job_id) {
            Some(v) => {
                if !self.jobs.contains_key(&v) {
                    return None;
                }
                let text = job_id_text(v);
                if text == String::from_str(job_id) {
                    Some(v)
                } else {
                    None
                }
            },
            None => None,
        }
    }

    /// Enter a new job under `id`, with nothing counted yet; a job already under that
    /// id is replaced. Returns the job id text.
    pub fn register_job(&mut self, id: u64, filename: String, now_us: u64) -> (r: String)
        ensures
            r@ == hex_text(id as nat),
            lookup(final(self).jobs@, r@) == Some(final(self).jobs@[id]),
            final(self).jobs@ == old(self).jobs@.insert(
                id,
                Job { filename, total: 0, downloaded: 0, started_us: now_us, done: false, error: None },
            ),
            !old(self).jobs@.contains_key(id) ==> keeps_progress(old(self).jobs@, final(self).jobs@),
    {
        broadcast use vstd::std_specs::hash::group_hash_axioms;

        let job = Job { filename, total: 0, downloaded: 0, started_us: now_us, done: false, error: None };
        self.jobs.insert(id, job);
        proof {
            job_key_of_id(id);
        }
        job_id_text(id)
    }

    /// Enter a new job under a freshly drawn id and return that id's text.
    pub fn create_job(&mut self, filename: String, now_us: u64) -> (r: String)
        ensures
            lookup(final(self).jobs@, r@) is Some,
            exists|id: u64|
                r@ == hex_text(id as nat) && #[trigger] final(self).jobs@ == old(self).jobs@.insert(
                    id,
                    Job {
                        filename,
                        total: 0,
                        downloaded: 0,
                        started_us: now_us,
                        done: false,
                        error: None,
                    },
                ),
    {
        let id: u64 = rand::random::<u64>();
        self.register_job(id, filename, now_us)
    }

    /// Record the size of the job's resource.
    pub fn set_total(&mut self, job_id: &str, total: u64)
        ensures
            final(self).jobs@ == updated(old(self).jobs@, job_id@, |j: Job| Job { total, ..j }),
            keeps_progress(old(self).jobs@, final(self).jobs@),
    {
        broadcast use vstd::std_specs::hash::group_hash_axioms;

        if let Some(v) = self.find(job_id) {
            let mut job = self.jobs.remove(&v).unwrap();
            job.total = total;
            self.jobs.insert(v, job);
            proof {
                assert(final(self).jobs@ =~= updated(old(self).jobs@, job_id@, |j: Job| Job { total, ..j }));
            }
        }
    }

    /// Count `delta` more bytes for the job, saturating at the largest `u64`.
    pub fn add_downloaded(&mut self, job_id: &str, delta: u64)
        ensures
            final(self).jobs@ == updated(
                old(self).jobs@,
                job_id@,
                |j: Job| Job { downloaded: if j.downloaded + delta > u64::MAX { u64::MAX } else { (j.downloaded + delta) as u64 }, ..j },
            ),
            keeps_progress(old(self).jobs@, final(self).jobs@),
    {
        broadcast use vstd::std_specs::hash::group_hash_axioms;

        if let Some(v) = self.find(job_id) {
            let mut job = self.jobs.remove(&v).unwrap();
            job.downloaded = job.downloaded.saturating_add(delta);
            self.jobs.insert(v, job);
            proof {
                assert(final(self).jobs@ =~= updated(
                    old(self).jobs@,
                    job_id@,
                    |j: Job| Job { downloaded: if j.downloaded + delta > u64::MAX { u64::MAX } else { (j.downloaded + delta) as u64 }, ..j },
                ));
            }
        }
    }

    /// Mark the job finished, with the error that ended it where one did.
    pub fn finish(&mut self, job_id: &str, error: Option<String>)
        ensures
            final(self).jobs@ == updated(old(self).jobs@, job_id@, |j: Job| Job { done: true, error, ..j }),
            keeps_progress(old(self).jobs@, final(self).jobs@),
    {
        broadcast use vstd::std_specs::hash::group_hash_axioms;

        if let Some(v) = self.find(job_id) {
            let mut job = self.jobs.remove(&v).unwrap();
            job.done = true;
            job.error = error;
            self.jobs.insert(v, job);
            proof {
                assert(final(self).jobs@ =~= updated(old(self).jobs@, job_id@, |j: Job| Job { done: true, error, ..j }));
            }
        }
    }

    /// A snapshot of the job at `now_us`, or `JobNotFound` where the ledger holds none.
    pub fn get_progress(&self, job_id: &str, now_us: u64) -> (r: Result<ProgressInfo, PS3UpdateError>)
        ensures
            match lookup(self.jobs@, job_id@) {
                Some(job) => r matches Ok(p) && progress_of(job, now_us, p),
                None => r matches Err(e) && (e matches PS3UpdateError::JobNotFound(m) && m@ == job_id@),
            },
    {
        broadcast use vstd::std_specs::hash::group_hash_axioms;

        let v = match self.find(job_id) {
            Some(v) => v,
            None => return Err(PS3UpdateError::JobNotFound(String::from_str(job_id))),
        };
        let job = self.jobs.get(&v).unwrap();
        let elapsed: u64 = if now_us >= job.started_us {
            now_us - job.started_us
        } else {
            0
        };
        let floor: u64 = if elapsed < 1000 {
            1000
        } else {
            elapsed
        };
        let raw: u128 = (job.downloaded as u128) * 1_000_000 / (floor as u128);
        let speed: u64 = if raw > u64::MAX as u128 {
            u64::MAX
        } else {
            raw as u64
        };
        let speed_human = if job.downloaded == 0 {
            String::from_str("0 B/s")
        } else {
            let mut t = format_size(speed);
            push_str(&mut t, "/s");
            t
        };
        let error = match &job.error {
            Some(e) => Some(e.clone()),
            None => None,
        };
        Ok(ProgressInfo {
            filename: Some(job.filename.clone()),
            total: job.total,
            downloaded: job.downloaded,
            speed_bytes_per_sec: speed,
            speed_human,
            done: job.done,
            error,
        })
    }

    /// Stop tracking the job; an id that names none is left alone.
    pub fn remove_job(&mut self, job_id: &str)
        ensures
            final(self).jobs@ == without(old(self).jobs@, job_id@),
            keeps_progress(old(self).jobs@, final(self).jobs@),
    {
        broadcast use vstd::std_specs::hash::group_hash_axioms;

        if let Some(v) = self.find(job_id) {
            self.jobs.remove(&v);
        } else {
            proof {
                assert(final(self).jobs@ =~= without(old(self).jobs@, job_id@));
            }
        }
    }
}

/// Once a job is removed, looking it up finds nothing, and removing it again
/// changes nothing.
pub proof fn removed_job_is_gone(m: Map<u64, Job>, s: Seq<char>)
    ensures
        lookup(without(m, s), s) is None,
        without(without(m, s), s) == without(m, s),
{
    assert(without(without(m, s), s) =~= without(m, s));
}

/// Across any run of ledger updates that each keep the counts, a job's count of
/// transferred bytes never falls: successive snapshots read non-decreasing values.
pub proof fn progress_never_decreases(a: Map<u64, Job>, b: Map<u64, Job>, c: Map<u64, Job>, v: u64)
    requires
        keeps_progress(a, b),
        keeps_progress(b, c),
        a.contains_key(v),
        b.contains_key(v),
        c.contains_key(v),
    ensures
        c[v].downloaded >= a[v].downloaded,
{
    assert(b[v].downloaded >= a[v].downloaded);
    assert(c[v].downloaded >= b[v].downloaded);
}

} // verus!
