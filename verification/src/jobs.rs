//! Decisions about session-bound shell jobs: which states are live, how a
//! run's end is classified, what a restart does to a job, how archived
//! output is paged without splitting a character, and which jobs a session
//! can reach and list.
use vstd::prelude::*;
use crate::error::Error;
use crate::text::str_eq;
use vstd::utf8::{valid_utf8, decode_utf8, encode_utf8};

verus! {

/// At most this many jobs run at once.
pub open spec fn max_running_jobs() -> int {
    16
}

/// The statuses of a job that still runs or waits.
pub open spec fn spec_active(status: Option<Seq<char>>) -> bool {
    match status {
        Some(s) => s == "running"@ || s == "diagnosing"@ || s == "reviewing"@ || s == "awaiting_approval"@
            || s == "retrying"@,
        None => false,
    }
}

pub open spec fn opt_view(o: Option<&str>) -> Option<Seq<char>> {
    match o {
        Some(s) => Some(s@),
        None => None,
    }
}

/// Whether a job with this status (`None` where it is not a string) is live.
pub fn active(status: Option<&str>) -> (r: bool)
    ensures
        r == spec_active(opt_view(status)),
{
    match status {
        Some(s) => str_eq(s, "running") || str_eq(s, "diagnosing") || str_eq(s, "reviewing") || str_eq(
            s,
            "awaiting_approval",
        ) || str_eq(s, "retrying"),
        None => false,
    }
}

/// Refuses a new job while the limit of live jobs is reached.
pub fn room_for_job(live: usize) -> (r: Result<(), Error>)
    ensures
        live >= max_running_jobs() ==> (r matches Err(e) && e.status == 409 && e.message@
            == "Too many running shell jobs (16)"@),
        live < max_running_jobs() ==> r is Ok,
{
    if live >= 16 {
        return Err(Error::new(409, "Too many running shell jobs (16)"));
    }
    Ok(())
}

/// How a job ended.
#[derive(Clone, Copy, Debug, PartialEq, Eq, Structural)]
pub enum Ending {
    Completed,
    /// Ended by a signal, without a return code.
    Terminated,
    Cancelled,
    TimedOut,
    Failed,
}

impl Ending {
    pub open spec fn spec_name(self) -> Seq<char> {
        match self {
            Ending::Completed => "completed"@,
            Ending::Terminated => "terminated"@,
            Ending::Cancelled => "cancelled"@,
            Ending::TimedOut => "timed_out"@,
            Ending::Failed => "failed"@,
        }
    }

    /// The status recorded for the ending.
    pub fn name(self) -> (s: &'static str)
        ensures
            s@ == self.spec_name(),
    {
        match self {
            Ending::Completed => "completed",
            Ending::Terminated => "terminated",
            Ending::Cancelled => "cancelled",
            Ending::TimedOut => "timed_out",
            Ending::Failed => "failed",
        }
    }
}

/// Classifies a finished run: a run that returned output completed when it
/// has a return code and was terminated otherwise; a failed run was
/// cancelled, timed out (status 408) or failed.
pub fn ending(returned: bool, has_return_code: bool, cancelled: bool, error_status: u16) -> (r: Ending)
    ensures
        returned && has_return_code ==> r == Ending::Completed,
        returned && !has_return_code ==> r == Ending::Terminated,
        !returned && cancelled ==> r == Ending::Cancelled,
        !returned && !cancelled && error_status == 408 ==> r == Ending::TimedOut,
        !returned && !cancelled && error_status != 408 ==> r == Ending::Failed,
{
    if returned {
        if has_return_code {
            Ending::Completed
        } else {
            Ending::Terminated
        }
    } else if cancelled {
        Ending::Cancelled
    } else if error_status == 408 {
        Ending::TimedOut
    } else {
        Ending::Failed
    }
}

/// What reopening the runtime does to a saved job.
#[derive(Clone, Copy, Debug, PartialEq, Eq, Structural)]
pub struct Reopened {
    /// The attempt whose archive holds the streams (`None`: the job's own).
    pub archive_attempt: Option<u64>,
    /// A live job was not resumed: it becomes `interrupted`.
    pub interrupted: bool,
    /// A pending or dispatched continuation becomes `interrupted`.
    pub continuation_interrupted: bool,
}

/// Decides how a job saved before a restart is reopened: processes never
/// resume, so a live job is marked interrupted, and so is a continuation
/// that was still pending or dispatched.
pub fn reopen(status: Option<&str>, continuation: Option<&str>, current_attempt: Option<u64>) -> (r: Reopened)
    ensures
        r.archive_attempt == match current_attempt {
            Some(n) => if n < 3 { Some(n) } else { None },
            None => None,
        },
        r.interrupted == spec_active(opt_view(status)),
        r.continuation_interrupted == match continuation {
            Some(c) => c@ == "pending"@ || c@ == "dispatched"@,
            None => false,
        },
{
    let archive_attempt = match current_attempt {
        Some(n) => if n < 3 {
            Some(n)
        } else {
            None
        },
        None => None,
    };
    let continuation_interrupted = match continuation {
        Some(c) => str_eq(c, "pending") || str_eq(c, "dispatched"),
        None => false,
    };
    Reopened { archive_attempt, interrupted: active(status), continuation_interrupted }
}

/// Which archived stream to read.
#[derive(Clone, Copy, Debug, PartialEq, Eq, Structural)]
pub enum Stream {
    Stdout,
    Stderr,
}

/// A validated request for a page of archived output.
#[derive(Clone, Copy, Debug, PartialEq, Eq, Structural)]
pub struct OutputQuery {
    pub stream: Stream,
    pub offset: u64,
    /// Bytes to read, 4..=16000.
    pub limit: usize,
    pub attempt: Option<u64>,
}

pub open spec fn clamp_limit(limit: Option<u64>) -> int {
    let l = match limit {
        Some(l) => l as int,
        None => 8000,
    };
    if l < 4 {
        4
    } else if l > 16000 {
        16000
    } else {
        l
    }
}

/// The attempt an output request reads: the requested one (present but
/// not an index below 3 is an error), else the job's current one.
pub open spec fn chosen_attempt(attempt: Option<Option<u64>>, current: Option<u64>) -> Result<Option<u64>, ()> {
    match attempt {
        Some(Some(n)) => if n < 3 {
            Ok(Some(n))
        } else {
            Err(())
        },
        Some(None) => Err(()),
        None => Ok(current),
    }
}

pub open spec fn spec_output_query(
    stream: Option<Seq<char>>,
    offset: Option<u64>,
    limit: Option<u64>,
    attempt: Option<Option<u64>>,
    current: Option<u64>,
    attempts: Option<usize>,
) -> Result<OutputQuery, (u16, Seq<char>)> {
    let s = match stream {
        Some(s) => s,
        None => "stdout"@,
    };
    if !(s == "stdout"@ || s == "stderr"@) {
        Err((400u16, "stream must be stdout or stderr"@))
    } else {
        match chosen_attempt(attempt, current) {
            Err(_) => Err((400u16, "Invalid attempt index"@)),
            Ok(a) => if (a matches Some(n) && (attempts is None || n >= attempts->0)) {
                Err((404u16, "Attempt not found"@))
            } else {
                Ok(
                    OutputQuery {
                        stream: if s == "stdout"@ {
                            Stream::Stdout
                        } else {
                            Stream::Stderr
                        },
                        offset: match offset {
                            Some(o) => o,
                            None => 0,
                        },
                        limit: clamp_limit(limit) as usize,
                        attempt: a,
                    },
                )
            },
        }
    }
}

/// Validates a request for archived output. `stream` is `None` where it is
/// absent or not a string; `attempt` is `None` where absent and `Some(None)`
/// where present but not an unsigned integer; `attempts` is how many
/// attempts the job recorded, `None` where it recorded none.
pub fn output_query(
    stream: Option<&str>,
    offset: Option<u64>,
    limit: Option<u64>,
    attempt: Option<Option<u64>>,
    current: Option<u64>,
    attempts: Option<usize>,
) -> (r: Result<OutputQuery, Error>)
    ensures
        match spec_output_query(opt_view(stream), offset, limit, attempt, current, attempts) {
            Ok(q) => r == Ok::<OutputQuery, Error>(q),
            Err((status, message)) => r matches Err(e) && e.status == status && e.message@ == message,
        },
{
    proof {
        reveal_strlit("stdout");
        reveal_strlit("stderr");
    }
    let s = match stream {
        Some(s) => s,
        None => "stdout",
    };
    let out = str_eq(s, "stdout");
    if !out && !str_eq(s, "stderr") {
        return Err(Error::new(400, "stream must be stdout or stderr"));
    }
    let chosen = match attempt {
        Some(Some(n)) => if n < 3 {
            Some(n)
        } else {
            return Err(Error::new(400, "Invalid attempt index"));
        },
        Some(None) => {
            return Err(Error::new(400, "Invalid attempt index"));
        },
        None => current,
    };
    if let Some(n) = chosen {
        let missing = match attempts {
            Some(count) => n >= count as u64,
            None => true,
        };
        if missing {
            return Err(Error::new(404, "Attempt not found"));
        }
    }
    let l = match limit {
        Some(l) => l,
        None => 8000,
    };
    let limit = if l < 4 {
        4
    } else if l > 16000 {
        16000
    } else {
        l as usize
    };
    Ok(
        OutputQuery {
            stream: if out {
                Stream::Stdout
            } else {
                Stream::Stderr
            },
            offset: match offset {
                Some(o) => o,
                None => 0,
            },
            limit,
            attempt: chosen,
        },
    )
}

/// `t` is the start of the UTF-8 encoding of a character, one to three
/// bytes short of its end.
pub open spec fn incomplete_char(t: Seq<u8>) -> bool {
    1 <= t.len() <= 3 && exists|c: char|
        t.len() < (#[trigger] encode_utf8(seq![c])).len() && encode_utf8(seq![c]).take(t.len() as int) == t
}

/// The first `k` bytes are valid UTF-8 and the rest is a character cut
/// short: the input ends in the middle of a character.
pub open spec fn cut_at(b: Seq<u8>, k: int) -> bool {
    0 <= k < b.len() && valid_utf8(b.take(k)) && incomplete_char(b.skip(k))
}

/// `std::str::from_utf8`, asked whether the input is invalid only because
/// it ends inside a character (`error_len` is `None`): then it returns
/// `valid_up_to`, the longest valid prefix, 1 to 3 bytes short of the end
/// and followed by the cut character; for valid input, or input with an
/// unexpected byte, `None`.
#[verifier::external_body]
fn incomplete_tail(bytes: &[u8]) -> (r: Option<usize>)
    ensures
        r is Some <==> exists|k: int| cut_at(bytes@, k),
        r matches Some(k) ==> bytes@.len() - 3 <= k < bytes@.len() && cut_at(bytes@, k as int)
            && forall|j: int| k < j <= bytes@.len() ==> !valid_utf8(#[trigger] bytes@.take(j)),
{
    match std::str::from_utf8(bytes) {
        Ok(_) => None,
        Err(e) => match e.error_len() {
            None => Some(e.valid_up_to()),
            Some(_) => None,
        },
    }
}

/// Drops a character that a page cut in two, so that the next page starts
/// with it; any other invalid byte is kept.
pub fn keep_whole_characters(bytes: Vec<u8>) -> (r: Vec<u8>)
    ensures
        r@.len() <= bytes@.len(),
        r@ == bytes@.take(r@.len() as int),
        r@.len() < bytes@.len() ==> valid_utf8(r@) && bytes@.len() - r@.len() <= 3,
        (exists|k: int| cut_at(bytes@, k)) ==> cut_at(bytes@, r@.len() as int) && forall|j: int|
            r@.len() < j <= bytes@.len() ==> !valid_utf8(#[trigger] bytes@.take(j)),
        !(exists|k: int| cut_at(bytes@, k)) ==> r@ == bytes@,
{
    let mut bytes = bytes;
    let ghost original = bytes@;
    if let Some(k) = incomplete_tail(bytes.as_slice()) {
        bytes.truncate(k);
        proof {
            assert(bytes@ =~= original.take(k as int));
        }
    }
    bytes
}

/// Where a page of archived output ends and whether more follows.
#[derive(Debug)]
pub struct Page {
    pub next_offset: u64,
    pub has_more: bool,
}

/// Rejects an offset beyond the archived stream.
pub fn check_offset(offset: u64, size: u64) -> (r: Result<(), Error>)
    ensures
        offset > size ==> (r matches Err(e) && e.status == 400 && e.message@
            == "offset exceeds archived stream length"@),
        offset <= size ==> r is Ok,
{
    if offset > size {
        return Err(Error::new(400, "offset exceeds archived stream length"));
    }
    Ok(())
}

/// Accounts for a page of `read` bytes at `offset` in a stream of `size`
/// bytes.
pub fn page(offset: u64, read: usize, size: u64) -> (p: Page)
    requires
        offset + read <= size,
    ensures
        p.next_offset == offset + read,
        p.has_more == (offset + read < size),
{
    let next = offset + read as u64;
    Page { next_offset: next, has_more: next < size }
}

/// The text of bytes, with invalid sequences shown as U+FFFD.
pub uninterp spec fn utf8_lossy(bytes: Seq<u8>) -> Seq<char>;

/// `String::from_utf8_lossy`: valid UTF-8 decodes as it is; the rest of
/// its behaviour is named by `utf8_lossy`.
#[verifier::external_body]
pub(crate) fn lossy_text(bytes: &[u8]) -> (s: String)
    ensures
        s@ == utf8_lossy(bytes@),
        valid_utf8(bytes@) ==> s@ == decode_utf8(bytes@),
{
    String::from_utf8_lossy(bytes).into_owned()
}

/// A registered job: its id and the session that started it.
#[derive(Debug)]
pub struct JobRef {
    pub id: String,
    pub session: String,
    /// The creation time as stored, where it is a string.
    pub created_at: Option<String>,
}

/// `k` is the first job registered under `id`.
pub open spec fn job_at(jobs: Seq<JobRef>, id: Seq<char>, k: int) -> bool {
    0 <= k < jobs.len() && jobs[k].id@ == id && forall|j: int| 0 <= j < k ==> jobs[j].id@ != id
}

/// Finds a job for a session: a job is reachable only from the session that
/// started it; any other session, like an unknown id, is answered with 404.
pub fn find_job(jobs: &Vec<JobRef>, session: &str, id: &str) -> (r: Result<usize, Error>)
    ensures
        r is Ok <==> exists|k: int| #[trigger] job_at(jobs@, id@, k) && jobs@[k].session@ == session@,
        r matches Ok(k) ==> job_at(jobs@, id@, k as int) && jobs@[k as int].session@ == session@,
        r matches Err(e) ==> e.status == 404 && e.message@ == "Job not found in this conversation"@,
{
    let mut k: usize = 0;
    while k < jobs.len()
        invariant
            k <= jobs.len(),
            forall|j: int| 0 <= j < k ==> jobs@[j].id@ != id@,
        decreases jobs.len() - k,
    {
        if str_eq(jobs[k].id.as_str(), id) {
            if str_eq(jobs[k].session.as_str(), session) {
                proof {
                    assert(job_at(jobs@, id@, k as int));
                }
                return Ok(k);
            }
            proof {
                assert(job_at(jobs@, id@, k as int));
                assert forall|q: int| #[trigger] job_at(jobs@, id@, q) implies q == k by {
                    if q < k {
                        assert(jobs@[q].id@ != id@);
                    } else if q > k {
                        assert(jobs@[k as int].id@ != id@);
                    }
                }
            }
            return Err(Error::new(404, "Job not found in this conversation"));
        }
        k = k + 1;
    }
    Err(Error::new(404, "Job not found in this conversation"))
}

/// Byte strings in lexicographic order, as `str` compares.
pub open spec fn lex_lt(a: Seq<u8>, b: Seq<u8>) -> bool
    decreases a.len(),
{
    if a.len() == 0 {
        b.len() > 0
    } else if b.len() == 0 {
        false
    } else if a[0] < b[0] {
        true
    } else if a[0] > b[0] {
        false
    } else {
        lex_lt(a.drop_first(), b.drop_first())
    }
}

proof fn lemma_lex_transitive(a: Seq<u8>, b: Seq<u8>, c: Seq<u8>)
    requires
        lex_lt(a, b),
        lex_lt(b, c),
    ensures
        lex_lt(a, c),
    decreases a.len(),
{
    if a.len() > 0 && b.len() > 0 && c.len() > 0 && a[0] == b[0] && b[0] == c[0] {
        lemma_lex_transitive(a.drop_first(), b.drop_first(), c.drop_first());
    }
}

proof fn lemma_lex_total(a: Seq<u8>, b: Seq<u8>)
    requires
        a != b,
    ensures
        lex_lt(a, b) || lex_lt(b, a),
    decreases a.len(),
{
    if a.len() > 0 && b.len() > 0 && a[0] == b[0] {
        if a.drop_first() == b.drop_first() {
            assert(a =~= seq![a[0]] + a.drop_first());
            assert(b =~= seq![b[0]] + b.drop_first());
        }
        lemma_lex_total(a.drop_first(), b.drop_first());
    } else if a.len() == 0 && b.len() == 0 {
        assert(a =~= b);
    }
}

/// The sort key of a job: its creation time's bytes; a job without one
/// sorts first.
pub open spec fn job_key(j: JobRef) -> Option<Seq<u8>> {
    match j.created_at {
        Some(t) => Some(encode_utf8(t@)),
        None => None,
    }
}

pub open spec fn key_lt(a: Option<Seq<u8>>, b: Option<Seq<u8>>) -> bool {
    match (a, b) {
        (None, Some(_)) => true,
        (Some(x), Some(y)) => lex_lt(x, y),
        _ => false,
    }
}

/// Job `i` is listed before job `j`: it was created earlier, or at the same
/// time and registered earlier.
pub open spec fn listed_before(jobs: Seq<JobRef>, i: int, j: int) -> bool {
    key_lt(job_key(jobs[i]), job_key(jobs[j])) || (job_key(jobs[i]) == job_key(jobs[j]) && i < j)
}

proof fn lemma_before_transitive(jobs: Seq<JobRef>, i: int, j: int, k: int)
    requires
        listed_before(jobs, i, j),
        listed_before(jobs, j, k),
    ensures
        listed_before(jobs, i, k),
{
    if let (Some(x), Some(y), Some(z)) = (job_key(jobs[i]), job_key(jobs[j]), job_key(jobs[k])) {
        if lex_lt(x, y) && lex_lt(y, z) {
            lemma_lex_transitive(x, y, z);
        }
    }
}

proof fn lemma_before_total(jobs: Seq<JobRef>, i: int, j: int)
    requires
        i != j,
    ensures
        listed_before(jobs, i, j) || listed_before(jobs, j, i),
{
    if let (Some(x), Some(y)) = (job_key(jobs[i]), job_key(jobs[j])) {
        if x != y {
            lemma_lex_total(x, y);
        }
    }
}

/// Lexicographic comparison of two byte strings.
fn bytes_less(a: &[u8], b: &[u8]) -> (r: bool)
    ensures
        r == lex_lt(a@, b@),
{
    let mut i: usize = 0;
    proof {
        assert(a@.skip(0) =~= a@);
        assert(b@.skip(0) =~= b@);
    }
    while i < a.len() && i < b.len()
        invariant
            i <= a.len(),
            i <= b.len(),
            lex_lt(a@, b@) == lex_lt(a@.skip(i as int), b@.skip(i as int)),
        decreases a.len() - i,
    {
        if a[i] != b[i] {
            proof {
                assert(a@.skip(i as int)[0] == a@[i as int]);
                assert(b@.skip(i as int)[0] == b@[i as int]);
            }
            return a[i] < b[i];
        }
        proof {
            assert(a@.skip(i as int).drop_first() =~= a@.skip(i + 1));
            assert(b@.skip(i as int).drop_first() =~= b@.skip(i + 1));
        }
        i = i + 1;
    }
    proof {
        assert(a@.skip(i as int).len() == a.len() - i);
    }
    i == a.len() && i < b.len()
}

/// Whether job `i` is listed before job `j`.
fn before(jobs: &Vec<JobRef>, i: usize, j: usize) -> (r: bool)
    requires
        i < jobs.len(),
        j < jobs.len(),
    ensures
        r == listed_before(jobs@, i as int, j as int),
{
    let less = match (&jobs[i].created_at, &jobs[j].created_at) {
        (None, Some(_)) => true,
        (Some(x), Some(y)) => bytes_less(x.as_str().as_bytes(), y.as_str().as_bytes()),
        _ => false,
    };
    if less {
        return true;
    }
    let same = match (&jobs[i].created_at, &jobs[j].created_at) {
        (None, None) => true,
        (Some(x), Some(y)) => str_eq(x.as_str(), y.as_str()),
        _ => false,
    };
    proof {
        if let (Some(x), Some(y)) = (jobs@[i as int].created_at, jobs@[j as int].created_at) {
            if x@ == y@ {
                assert(encode_utf8(x@) == encode_utf8(y@));
            } else {
                vstd::utf8::encode_utf8_decode_utf8(x@);
                vstd::utf8::encode_utf8_decode_utf8(y@);
            }
        }
    }
    same && i < j
}

/// The jobs of a session in listing order: oldest first.
pub open spec fn listed_in_order(jobs: Seq<JobRef>, s: Seq<usize>) -> bool {
    forall|a: int, b: int| 0 <= a < b < s.len() ==> listed_before(jobs, s[a] as int, s[b] as int)
}

/// At most this many jobs are listed.
pub open spec fn listed_limit() -> int {
    100
}

/// Lists the jobs of a session, oldest first by creation time (ties in
/// registration order), keeping the newest 100; also returns how many the
/// session has.
pub fn list_jobs(jobs: &Vec<JobRef>, session: &str) -> (r: (Vec<usize>, usize))
    ensures
        r.1 == Set::new(|i: int| 0 <= i < jobs@.len() && jobs@[i].session@ == session@).len(),
        r.0@.len() == if r.1 > listed_limit() { listed_limit() } else { r.1 as int },
        forall|k: int| 0 <= k < r.0@.len() ==> #[trigger] r.0@[k] < jobs@.len() && jobs@[r.0@[k] as int].session@
            == session@,
        listed_in_order(jobs@, r.0@),
        forall|i: int|
            0 <= i < jobs@.len() && jobs@[i].session@ == session@ && !r.0@.contains(i as usize) ==> forall|k: int|
                0 <= k < r.0@.len() ==> listed_before(jobs@, i, #[trigger] r.0@[k] as int),
{
    let mut sorted: Vec<usize> = Vec::new();
    let ghost mut mine: Set<int> = Set::empty();
    let mut j: usize = 0;
    while j < jobs.len()
        invariant
            j <= jobs.len(),
            mine == Set::new(|i: int| 0 <= i < j && jobs@[i].session@ == session@),
            mine.finite(),
            sorted@.len() == mine.len(),
            forall|k: int| 0 <= k < sorted@.len() ==> mine.contains(#[trigger] sorted@[k] as int),
            forall|i: int| mine.contains(i) ==> sorted@.contains(i as usize),
            forall|k: int| 0 <= k < sorted@.len() ==> #[trigger] sorted@[k] < j,
            listed_in_order(jobs@, sorted@),
        decreases jobs.len() - j,
    {
        let ghost old_mine = mine;
        if str_eq(jobs[j].session.as_str(), session) {
            let mut p: usize = 0;
            while p < sorted.len() && before(jobs, sorted[p], j)
                invariant
                    p <= sorted.len(),
                    j < jobs.len(),
                    forall|k: int| 0 <= k < sorted@.len() ==> #[trigger] sorted@[k] < j,
                    forall|k: int| 0 <= k < p ==> listed_before(jobs@, #[trigger] sorted@[k] as int, j as int),
                decreases sorted.len() - p,
            {
                p = p + 1;
            }
            let ghost before_insert = sorted@;
            proof {
                if p < sorted.len() {
                    lemma_before_total(jobs@, sorted@[p as int] as int, j as int);
                    assert forall|k: int| p <= k < before_insert.len() implies listed_before(
                        jobs@,
                        j as int,
                        #[trigger] before_insert[k] as int,
                    ) by {
                        if k > p {
                            lemma_before_transitive(jobs@, j as int, before_insert[p as int] as int, before_insert[k] as int);
                        }
                    }
                }
            }
            sorted.insert(p, j);
            proof {
                mine = old_mine.insert(j as int);
                assert(mine =~= Set::new(|i: int| 0 <= i < j + 1 && jobs@[i].session@ == session@));
                assert(!old_mine.contains(j as int));
                assert forall|a: int, b: int| 0 <= a < b < sorted@.len() implies listed_before(
                    jobs@,
                    sorted@[a] as int,
                    sorted@[b] as int,
                ) by {
                    if b < p {
                    } else if b == p {
                    } else if a < p {
                        assert(sorted@[b] == before_insert[b - 1]);
                        assert(listed_before(jobs@, before_insert[a] as int, j as int));
                        lemma_before_transitive(jobs@, before_insert[a] as int, j as int, before_insert[b - 1] as int);
                    } else if a == p {
                        assert(sorted@[b] == before_insert[b - 1]);
                    } else {
                        assert(sorted@[a] == before_insert[a - 1]);
                        assert(sorted@[b] == before_insert[b - 1]);
                    }
                }
                assert forall|i: int| mine.contains(i) implies sorted@.contains(i as usize) by {
                    if i == j {
                        assert(sorted@[p as int] == j);
                    } else {
                        let k = choose|k: int| 0 <= k < before_insert.len() && before_insert[k] == i as usize;
                        if k < p {
                            assert(sorted@[k] == i as usize);
                        } else {
                            assert(sorted@[k + 1] == i as usize);
                        }
                    }
                }
                assert forall|k: int| 0 <= k < sorted@.len() implies mine.contains(#[trigger] sorted@[k] as int) by {
                    if k < p {
                        assert(sorted@[k] == before_insert[k]);
                    } else if k > p {
                        assert(sorted@[k] == before_insert[k - 1]);
                    }
                }
            }
        } else {
            proof {
                assert(mine =~= Set::new(|i: int| 0 <= i < j + 1 && jobs@[i].session@ == session@));
            }
        }
        j = j + 1;
    }
    proof {
        assert(mine =~= Set::new(|i: int| 0 <= i < jobs@.len() && jobs@[i].session@ == session@));
    }
    let total = sorted.len();
    let drop = if total > 100 { total - 100 } else { 0 };
    let mut kept: Vec<usize> = Vec::new();
    let mut k: usize = drop;
    while k < total
        invariant
            drop <= k <= total,
            total == sorted@.len(),
            kept@ == sorted@.subrange(drop as int, k as int),
        decreases total - k,
    {
        kept.push(sorted[k]);
        proof {
            assert(sorted@.subrange(drop as int, k + 1) =~= sorted@.subrange(drop as int, k as int).push(sorted@[k as int]));
        }
        k = k + 1;
    }
    proof {
        assert forall|i: int|
            0 <= i < jobs@.len() && jobs@[i].session@ == session@ && !kept@.contains(i as usize) implies forall|q: int|
                0 <= q < kept@.len() ==> listed_before(jobs@, i, #[trigger] kept@[q] as int) by {
            assert(mine.contains(i));
            let a = choose|a: int| 0 <= a < sorted@.len() && sorted@[a] == i as usize;
            if a >= drop {
                assert(kept@[a - drop] == i as usize);
            }
            assert forall|q: int| 0 <= q < kept@.len() implies listed_before(jobs@, i, #[trigger] kept@[q] as int) by {
                assert(kept@[q] == sorted@[drop + q]);
            }
        }
    }
    (kept, total)
}

} // verus!
