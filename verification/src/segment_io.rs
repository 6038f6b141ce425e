//! Fetch-phase logic: the retry/backoff decisions for the key resolver and
//! the segment fetcher, scratch-file naming, collection and ordering of the
//! per-segment results, and the ordered concatenation of segment bytes.
//!
//! The I/O shell performs one HTTP attempt at a time and reports its
//! `HttpOutcome`; the step functions here decide whether to accept, retry
//! after a delay, or fail — exactly mirroring the policy: retry on 429 (and,
//! for segments, on 5xx) and on transport errors with exponential backoff,
//! up to `MAX_RETRIES` attempts.

use vstd::multiset::Multiset;
use vstd::prelude::*;
use vstd::seq_lib::group_seq_properties;

use crate::crypto::{decrypt_payload, spec_decrypt_payload};
use crate::hls_parser::{opt_bytes_view, opt_enc_view, EncryptionInfo, KEY_LEN, MAX_RETRIES};
use crate::text::{dec_digits, usize_to_string, zero_pad, zero_pad_str};

verus! {

/// Outcome of one HTTP attempt, as the unverified shell reports it. The
/// shell reads the body only for a success (2xx) status.
#[derive(Debug)]
pub enum HttpOutcome {
    /// Success status; the body was read in full.
    Success(Vec<u8>),
    /// Success status, but reading the body failed (the error text).
    BodyFailed(String),
    /// A non-success status code.
    HttpStatus(u16),
    /// No response: a transport-level connection error (its text).
    Transport(String),
}

/// Failures of the key resolver.
#[derive(Debug, Clone, PartialEq)]
pub enum KeyError {
    /// The key file was not exactly 16 bytes.
    BadLength(usize),
    /// A non-retryable status, or 429 on the last attempt.
    Status(u16),
    /// A transport error on the last attempt.
    Connection(String),
    /// The response body could not be read.
    BodyRead(String),
}

/// What the key resolver does after one attempt.
#[derive(Debug, PartialEq)]
pub enum KeyStep {
    /// Exactly 16 key bytes.
    Done(Vec<u8>),
    /// Sleep this many seconds, then try again.
    RetryAfter(u64),
    /// Terminal failure.
    Fail(KeyError),
}

pub open spec fn spec_pow2(e: int) -> int
    decreases e,
{
    if e <= 0 {
        1
    } else {
        2 * spec_pow2(e - 1)
    }
}

proof fn lemma_pow2_mono(a: int, b: int)
    requires
        0 <= a <= b,
    ensures
        spec_pow2(a) <= spec_pow2(b),
        spec_pow2(a) >= 1,
    decreases b,
{
    if a < b {
        lemma_pow2_mono(a, b - 1);
    } else if a > 0 {
        lemma_pow2_mono(a - 1, a - 1);
    }
}

fn pow2_u64(e: usize) -> (r: u64)
    requires
        e < MAX_RETRIES,
    ensures
        r == spec_pow2(e as int),
{
    let mut r: u64 = 1;
    let mut i: usize = 0;
    while i < e
        invariant
            0 <= i <= e < MAX_RETRIES,
            r == spec_pow2(i as int),
        decreases e - i,
    {
        proof {
            lemma_pow2_mono(i as int, 4);
            reveal_with_fuel(spec_pow2, 6);
            assert(spec_pow2(4) == 16);
        }
        r = r * 2;
        i = i + 1;
    }
    r
}

/// One step of the key download policy: a success body must be exactly 16
/// bytes; 429 is retried with `2^attempt` seconds of backoff while attempts
/// remain; any other non-success status, and a transport error on the last
/// attempt, are terminal. The body is never truncated or padded.
pub fn key_fetch_step(attempt: usize, outcome: HttpOutcome) -> (r: KeyStep)
    requires
        attempt < MAX_RETRIES,
    ensures
        match outcome {
            HttpOutcome::Success(b) => {
                if b@.len() == KEY_LEN {
                    r matches KeyStep::Done(k) && k@ == b@
                } else {
                    r matches KeyStep::Fail(KeyError::BadLength(n)) && n == b@.len()
                }
            },
            HttpOutcome::BodyFailed(t) => r matches KeyStep::Fail(KeyError::BodyRead(m)) && m@
                == t@,
            HttpOutcome::HttpStatus(s) => {
                if s == 429 && attempt < MAX_RETRIES - 1 {
                    r matches KeyStep::RetryAfter(d) && d == spec_pow2(attempt as int)
                } else {
                    r matches KeyStep::Fail(KeyError::Status(c)) && c == s
                }
            },
            HttpOutcome::Transport(t) => {
                if attempt < MAX_RETRIES - 1 {
                    r matches KeyStep::RetryAfter(d) && d == spec_pow2(attempt as int)
                } else {
                    r matches KeyStep::Fail(KeyError::Connection(m)) && m@ == t@
                }
            },
        },
{
    match outcome {
        HttpOutcome::Success(b) => {
            if b.len() == KEY_LEN {
                KeyStep::Done(b)
            } else {
                KeyStep::Fail(KeyError::BadLength(b.len()))
            }
        },
        HttpOutcome::BodyFailed(t) => KeyStep::Fail(KeyError::BodyRead(t)),
        HttpOutcome::HttpStatus(s) => {
            if s == 429 && attempt < MAX_RETRIES - 1 {
                KeyStep::RetryAfter(pow2_u64(attempt))
            } else {
                KeyStep::Fail(KeyError::Status(s))
            }
        },
        HttpOutcome::Transport(t) => {
            if attempt < MAX_RETRIES - 1 {
                KeyStep::RetryAfter(pow2_u64(attempt))
            } else {
                KeyStep::Fail(KeyError::Connection(t))
            }
        },
    }
}

/// Failures of the segment fetch phase.
#[derive(Debug, Clone, PartialEq)]
pub enum SegmentError {
    /// Terminal status for this segment (non-retryable, or retries spent).
    Status { index: usize, status: u16 },
    /// Transport error on the last attempt.
    Connection { index: usize, text: String },
    /// The response body could not be read.
    BodyRead { index: usize, text: String },
    /// AES decryption of the fetched bytes failed.
    Decrypt { index: usize },
    /// The scratch file could not be written.
    Persist { index: usize, text: String },
    /// A worker task failed for a reason outside the HTTP exchange.
    Task { text: String },
    /// Fewer persisted segments than the playlist promised.
    Cardinality { got: usize, expected: usize },
}

/// What the segment fetcher does after one attempt on one segment.
#[derive(Debug, PartialEq)]
pub enum SegmentStep {
    /// The bytes to persist for this segment (already decrypted if a key is
    /// in force).
    Done(Vec<u8>),
    /// Sleep this many seconds, then try again.
    RetryAfter(u64),
    /// Terminal failure: the whole fetch phase aborts.
    Fail(SegmentError),
}

/// Backoff for segment fetches: `max(2^attempt, 3)` seconds.
pub open spec fn spec_segment_backoff(attempt: int) -> int {
    if spec_pow2(attempt) >= 3 {
        spec_pow2(attempt)
    } else {
        3
    }
}

/// One step of the per-segment policy: on success the body is decrypted
/// (explicit IV, else the index-derived one) and handed back for
/// persistence; 429 and 5xx are retried with `max(2^attempt, 3)` seconds of
/// backoff while attempts remain; any other status, a decryption failure,
/// and exhaustion are terminal for the whole phase.
pub fn segment_fetch_step(
    attempt: usize,
    outcome: HttpOutcome,
    key: &Option<Vec<u8>>,
    enc: &Option<EncryptionInfo>,
    index: usize,
) -> (r: SegmentStep)
    requires
        attempt < MAX_RETRIES,
        (key matches Some(k) ==> k@.len() == KEY_LEN),
        (enc matches Some(e) ==> (e.iv_bytes matches Some(v) ==> v@.len() == KEY_LEN)),
    ensures
        match outcome {
            HttpOutcome::Success(b) => {
                match spec_decrypt_payload(b@, opt_bytes_view(*key), opt_enc_view(*enc), index as int) {
                    Some(p) => r matches SegmentStep::Done(d) && d@ == p,
                    None => r matches SegmentStep::Fail(SegmentError::Decrypt { index: i }) && i
                        == index,
                }
            },
            HttpOutcome::BodyFailed(t) => r matches SegmentStep::Fail(SegmentError::BodyRead {
                index: i,
                text: m,
            }) && i == index && m@ == t@,
            HttpOutcome::HttpStatus(s) => {
                if (s == 429 || (500 <= s && s < 600)) && attempt < MAX_RETRIES - 1 {
                    r matches SegmentStep::RetryAfter(d) && d == spec_segment_backoff(
                        attempt as int,
                    )
                } else {
                    r matches SegmentStep::Fail(SegmentError::Status { index: i, status: c }) && i
                        == index && c == s
                }
            },
            HttpOutcome::Transport(t) => {
                if attempt < MAX_RETRIES - 1 {
                    r matches SegmentStep::RetryAfter(d) && d == spec_segment_backoff(
                        attempt as int,
                    )
                } else {
                    r matches SegmentStep::Fail(SegmentError::Connection { index: i, text: m }) && i
                        == index && m@ == t@
                }
            },
        },
{
    match outcome {
        HttpOutcome::Success(b) => {
            match decrypt_payload(b, key, enc, index) {
                Some(p) => SegmentStep::Done(p),
                None => SegmentStep::Fail(SegmentError::Decrypt { index }),
            }
        },
        HttpOutcome::BodyFailed(t) => SegmentStep::Fail(
            SegmentError::BodyRead { index, text: t },
        ),
        HttpOutcome::HttpStatus(s) => {
            if (s == 429 || (500 <= s && s < 600)) && attempt < MAX_RETRIES - 1 {
                let p = pow2_u64(attempt);
                SegmentStep::RetryAfter(if p >= 3 {
                    p
                } else {
                    3
                })
            } else {
                SegmentStep::Fail(SegmentError::Status { index, status: s })
            }
        },
        HttpOutcome::Transport(t) => {
            if attempt < MAX_RETRIES - 1 {
                let p = pow2_u64(attempt);
                SegmentStep::RetryAfter(if p >= 3 {
                    p
                } else {
                    3
                })
            } else {
                SegmentStep::Fail(SegmentError::Connection { index, text: t })
            }
        },
    }
}

/// Scratch file name of a segment: the index zero-padded to eight digits so
/// that lexicographic and numeric order agree.
pub open spec fn spec_temp_segment_name(index: int) -> Seq<char> {
    "temp_segment_"@ + zero_pad(dec_digits(index), 8) + ".ts"@
}

pub fn temp_segment_name(index: usize) -> (r: String)
    ensures
        r@ == spec_temp_segment_name(index as int),
{
    let digits = usize_to_string(index);
    let padded = zero_pad_str(digits.as_str(), 8);
    let mut out = ("temp_segment_").to_owned();
    out.append(padded.as_str());
    out.append(".ts");
    proof {
        assert(out@ =~= spec_temp_segment_name(index as int));
    }
    out
}

/// One persisted segment: where its decrypted bytes landed and its index.
#[derive(Debug, Clone, PartialEq)]
pub struct SegmentFile {
    pub index: usize,
    pub path: String,
}

pub struct SpecSegmentFile {
    pub index: int,
    pub path: Seq<char>,
}

impl View for SegmentFile {
    type V = SpecSegmentFile;

    open spec fn view(&self) -> SpecSegmentFile {
        SpecSegmentFile { index: self.index as int, path: self.path@ }
    }
}

pub open spec fn files_view(v: Seq<SegmentFile>) -> Seq<SpecSegmentFile> {
    v.map_values(|f: SegmentFile| f@)
}

pub open spec fn sorted_by_index(s: Seq<SpecSegmentFile>) -> bool {
    forall|i: int, j: int| 0 <= i < j < s.len() ==> #[trigger] s[i].index <= #[trigger] s[j].index
}

pub open spec fn distinct_indices(s: Seq<SpecSegmentFile>) -> bool {
    forall|i: int, j: int| 0 <= i < j < s.len() ==> #[trigger] s[i].index != #[trigger] s[j].index
}

/// Sort persisted segments into ascending index order, whatever order the
/// fetches completed in.
pub fn sort_segment_files(v: Vec<SegmentFile>) -> (r: Vec<SegmentFile>)
    ensures
        sorted_by_index(files_view(r@)),
        files_view(r@).to_multiset() == files_view(v@).to_multiset(),
{
    broadcast use group_seq_properties;
    broadcast use vstd::multiset::group_multiset_axioms;

    let mut out: Vec<SegmentFile> = Vec::new();
    let mut rest = v;
    proof {
        assert(files_view(out@) =~= Seq::<SpecSegmentFile>::empty());
        files_view(out@).to_multiset_ensures();
        assert(files_view(out@).to_multiset().len() == 0);
        assert(files_view(out@).to_multiset() =~= Multiset::<SpecSegmentFile>::empty());
        assert(files_view(out@).to_multiset().add(files_view(rest@).to_multiset())
            =~= files_view(rest@).to_multiset());
    }
    while rest.len() > 0
        invariant
            sorted_by_index(files_view(out@)),
            files_view(out@).to_multiset().add(files_view(rest@).to_multiset()) == files_view(v@)
                .to_multiset(),
            forall|i: int, j: int|
                0 <= i < files_view(out@).len() && 0 <= j < files_view(rest@).len()
                    ==> #[trigger] files_view(out@)[i].index <= #[trigger] files_view(
                    rest@,
                )[j].index,
        decreases rest@.len(),
    {
        // take out the element with the least index
        let mut min_at: usize = 0;
        let mut k: usize = 1;
        while k < rest.len()
            invariant
                0 <= min_at < rest@.len(),
                min_at < k <= rest@.len() || (k <= rest@.len() && min_at == 0),
                forall|i: int|
                    0 <= i < k ==> files_view(rest@)[min_at as int].index <= #[trigger] files_view(
                        rest@,
                    )[i].index,
            decreases rest@.len() - k,
        {
            if rest[k].index < rest[min_at].index {
                min_at = k;
            }
            k = k + 1;
        }
        let ghost pre_rest = rest@;
        let ghost pre_out = out@;
        let picked = rest.remove(min_at);
        out.push(picked);
        proof {
            assert(files_view(out@) =~= files_view(pre_out).push(picked@));
            assert(files_view(rest@) =~= files_view(pre_rest).remove(min_at as int));
            files_view(pre_rest).to_multiset_ensures();
            files_view(out@).to_multiset_ensures();
            files_view(pre_out).to_multiset_ensures();
            assert(files_view(rest@).to_multiset() =~= files_view(pre_rest).to_multiset().remove(
                picked@,
            ));
            assert(files_view(out@).to_multiset() =~= files_view(pre_out).to_multiset().insert(
                picked@,
            ));
            assert(files_view(out@).to_multiset().add(files_view(rest@).to_multiset())
                =~= files_view(pre_out).to_multiset().add(files_view(pre_rest).to_multiset()));
            assert forall|j: int| 0 <= j < files_view(rest@).len() implies picked@.index
                <= #[trigger] files_view(rest@)[j].index by {
                if j < min_at {
                    assert(files_view(rest@)[j] == files_view(pre_rest)[j]);
                } else {
                    assert(files_view(rest@)[j] == files_view(pre_rest)[j + 1]);
                }
            }
        }
    }
    proof {
        assert(files_view(rest@) =~= Seq::<SpecSegmentFile>::empty());
        files_view(rest@).to_multiset_ensures();
        assert(files_view(rest@).to_multiset() =~= Multiset::<SpecSegmentFile>::empty());
        assert(files_view(out@).to_multiset().add(Multiset::<SpecSegmentFile>::empty())
            =~= files_view(out@).to_multiset());
    }
    out
}

pub enum SpecSegmentError {
    Status { index: int, status: u16 },
    Connection { index: int, text: Seq<char> },
    BodyRead { index: int, text: Seq<char> },
    Decrypt { index: int },
    Persist { index: int, text: Seq<char> },
    Task { text: Seq<char> },
    Cardinality { got: int, expected: int },
}

impl View for SegmentError {
    type V = SpecSegmentError;

    open spec fn view(&self) -> SpecSegmentError {
        match self {
            SegmentError::Status { index, status } => SpecSegmentError::Status {
                index: *index as int,
                status: *status,
            },
            SegmentError::Connection { index, text } => SpecSegmentError::Connection {
                index: *index as int,
                text: text@,
            },
            SegmentError::BodyRead { index, text } => SpecSegmentError::BodyRead {
                index: *index as int,
                text: text@,
            },
            SegmentError::Decrypt { index } => SpecSegmentError::Decrypt { index: *index as int },
            SegmentError::Persist { index, text } => SpecSegmentError::Persist {
                index: *index as int,
                text: text@,
            },
            SegmentError::Task { text } => SpecSegmentError::Task { text: text@ },
            SegmentError::Cardinality { got, expected } => SpecSegmentError::Cardinality {
                got: *got as int,
                expected: *expected as int,
            },
        }
    }
}

pub open spec fn result_view(r: Result<SegmentFile, SegmentError>) -> Result<
    SpecSegmentFile,
    SpecSegmentError,
> {
    match r {
        Ok(f) => Ok(f@),
        Err(e) => Err(e@),
    }
}

pub open spec fn results_view(v: Seq<Result<SegmentFile, SegmentError>>) -> Seq<
    Result<SpecSegmentFile, SpecSegmentError>,
> {
    v.map_values(|r: Result<SegmentFile, SegmentError>| result_view(r))
}

/// The first error among the per-segment results, in completion order.
pub open spec fn spec_first_err(rs: Seq<Result<SpecSegmentFile, SpecSegmentError>>) -> Option<
    SpecSegmentError,
> decreases rs.len() {
    if rs.len() == 0 {
        None
    } else {
        match rs[0] {
            Err(e) => Some(e),
            Ok(_) => spec_first_err(rs.drop_first()),
        }
    }
}

/// The successfully persisted files, in completion order.
pub open spec fn spec_oks(rs: Seq<Result<SpecSegmentFile, SpecSegmentError>>) -> Seq<
    SpecSegmentFile,
> decreases rs.len() {
    if rs.len() == 0 {
        Seq::empty()
    } else {
        let p = spec_oks(rs.drop_last());
        match rs.last() {
            Ok(f) => p.push(f),
            Err(_) => p,
        }
    }
}

proof fn lemma_first_err_skip(rs: Seq<Result<SpecSegmentFile, SpecSegmentError>>, i: int)
    requires
        0 <= i <= rs.len(),
        forall|j: int| 0 <= j < i ==> rs[j] is Ok,
    ensures
        spec_first_err(rs) == spec_first_err(rs.skip(i)),
    decreases i,
{
    if i > 0 {
        assert(rs.drop_first() =~= rs.skip(1));
        assert(rs.skip(1).skip(i - 1) =~= rs.skip(i));
        lemma_first_err_skip(rs.skip(1), i - 1);
    } else {
        assert(rs.skip(0) =~= rs);
    }
}

/// Close out the fetch phase: the first per-segment error aborts it; a
/// count that does not match the playlist is a cardinality failure even
/// when every individual fetch succeeded; otherwise the files are handed
/// back sorted into ascending index order.
pub fn collect_results(results: Vec<Result<SegmentFile, SegmentError>>, total: usize) -> (r:
    Result<Vec<SegmentFile>, SegmentError>)
    ensures
        match spec_first_err(results_view(results@)) {
            Some(e) => r matches Err(er) && er@ == e,
            None => {
                if spec_oks(results_view(results@)).len() != total {
                    (r matches Err(SegmentError::Cardinality { got, expected }) && got as int
                        == spec_oks(results_view(results@)).len() && expected == total)
                } else {
                    (r matches Ok(files) && sorted_by_index(files_view(files@))) && (r matches Ok(
                        files,
                    ) && files_view(files@).to_multiset() == spec_oks(
                        results_view(results@),
                    ).to_multiset())
                }
            },
        },
{
    let ghost whole = results_view(results@);
    let n: usize = results.len();
    let mut files: Vec<SegmentFile> = Vec::new();
    let mut i: usize = 0;
    proof {
        assert(whole.take(0) =~= Seq::<Result<SpecSegmentFile, SpecSegmentError>>::empty());
        assert(files_view(files@) =~= spec_oks(whole.take(0)));
    }
    let mut remaining = results;
    while i < n
        invariant
            0 <= i <= n,
            n == whole.len(),
            whole == results_view(results@),
            remaining@.len() == n - i,
            results_view(remaining@) == whole.skip(i as int),
            forall|j: int| 0 <= j < i ==> whole[j] is Ok,
            files_view(files@) == spec_oks(whole.take(i as int)),
        decreases n - i,
    {
        proof {
            assert(whole.skip(i as int)[0] == whole[i as int]);
            assert(result_view(remaining@[0]) == results_view(remaining@)[0]);
            assert(whole.take(i + 1).drop_last() =~= whole.take(i as int));
            assert(whole.take(i + 1).last() == whole[i as int]);
        }
        let ghost pre_remaining = remaining@;
        let item = remaining.remove(0);
        proof {
            assert(remaining@ =~= pre_remaining.drop_first());
            assert(results_view(remaining@) =~= results_view(pre_remaining).drop_first());
            assert(results_view(remaining@) =~= whole.skip(i + 1));
        }
        match item {
            Ok(f) => {
                let ghost pre = files_view(files@);
                files.push(f);
                proof {
                    assert(files_view(files@) =~= pre.push(f@));
                }
            },
            Err(e) => {
                proof {
                    lemma_first_err_skip(whole, i as int);
                    assert(whole.skip(i as int)[0] == whole[i as int]);
                }
                return Err(e);
            },
        }
        i = i + 1;
    }
    proof {
        lemma_first_err_skip(whole, n as int);
        assert(whole.skip(n as int) =~= Seq::<Result<SpecSegmentFile, SpecSegmentError>>::empty());
        assert(whole.take(n as int) =~= whole);
    }
    if files.len() != total {
        return Err(SegmentError::Cardinality { got: files.len(), expected: total });
    }
    Ok(sort_segment_files(files))
}

/// The assembled stream: the segment byte runs laid end to end, in list
/// order, with no transformation.
pub open spec fn spec_concat(parts: Seq<Seq<u8>>) -> Seq<u8>
    decreases parts.len(),
{
    if parts.len() == 0 {
        Seq::empty()
    } else {
        spec_concat(parts.drop_last()) + parts.last()
    }
}

/// Concatenate segment byte runs in list order.
pub fn concatenate_segments(parts: &Vec<Vec<u8>>) -> (out: Vec<u8>)
    ensures
        out@ == spec_concat(parts@.map_values(|p: Vec<u8>| p@)),
{
    let ghost pv = parts@.map_values(|p: Vec<u8>| p@);
    let n: usize = parts.len();
    let mut out: Vec<u8> = Vec::new();
    let mut i: usize = 0;
    proof {
        assert(pv.take(0) =~= Seq::<Seq<u8>>::empty());
        assert(out@ =~= spec_concat(pv.take(0)));
    }
    while i < n
        invariant
            0 <= i <= n,
            n == parts@.len(),
            pv == parts@.map_values(|p: Vec<u8>| p@),
            out@ == spec_concat(pv.take(i as int)),
        decreases n - i,
    {
        let m: usize = parts[i].len();
        let mut j: usize = 0;
        proof {
            assert(pv[i as int] == parts@[i as int]@);
        }
        while j < m
            invariant
                0 <= j <= m,
                0 <= i < n,
                n == parts@.len(),
                m == parts@[i as int]@.len(),
                pv == parts@.map_values(|p: Vec<u8>| p@),
                pv[i as int] == parts@[i as int]@,
                out@ == spec_concat(pv.take(i as int)) + pv[i as int].take(j as int),
            decreases m - j,
        {
            out.push(parts[i][j]);
            proof {
                let ghost row = pv[i as int];
                assert(row.take(j as int).push(row[j as int]) =~= row.take(j + 1));
                assert(out@ =~= spec_concat(pv.take(i as int)) + pv[i as int].take(j + 1));
            }
            j = j + 1;
        }
        proof {
            assert(pv[i as int].take(m as int) =~= pv[i as int]);
            assert(pv.take(i + 1).drop_last() =~= pv.take(i as int));
            assert(pv.take(i + 1).last() == pv[i as int]);
            assert(out@ == spec_concat(pv.take(i + 1)));
        }
        i = i + 1;
    }
    proof {
        assert(pv.take(n as int) =~= pv);
    }
    out
}

proof fn lemma_distinct_transfers(a: Seq<SpecSegmentFile>, b: Seq<SpecSegmentFile>)
    requires
        a.to_multiset() == b.to_multiset(),
        distinct_indices(a),
    ensures
        distinct_indices(b),
{
    broadcast use vstd::multiset::group_multiset_axioms;
    broadcast use vstd::seq_lib::group_to_multiset_ensures;

    assert(a.no_duplicates()) by {
        assert forall|i: int, j: int| 0 <= i < a.len() && 0 <= j < a.len() && i != j implies a[i]
            != a[j] by {
            if i < j {
                assert(a[i].index != a[j].index);
            } else {
                assert(a[j].index != a[i].index);
            }
        }
    }
    a.lemma_multiset_has_no_duplicates();
    assert forall|i: int, j: int| 0 <= i < j < b.len() implies #[trigger] b[i].index
        != #[trigger] b[j].index by {
        if b[i].index == b[j].index {
            if b[i] == b[j] {
                // the record would occur twice, which the distinct side forbids
                assert(b.remove(i).to_multiset() =~= b.to_multiset().remove(b[i]));
                assert(b.remove(i)[j - 1] == b[j]);
                assert(b.remove(i).contains(b[j]));
                assert(b.remove(i).to_multiset().count(b[j]) > 0);
                assert(b.to_multiset().count(b[i]) >= 2);
                assert(a.to_multiset().contains(b[i]));
                assert(a.to_multiset().count(b[i]) == 1);
            } else {
                // two different records with one index, both present on the
                // distinct side
                assert(b.contains(b[i]) && b.contains(b[j]));
                assert(a.to_multiset().contains(b[i]));
                assert(a.to_multiset().contains(b[j]));
                assert(a.contains(b[i]));
                assert(a.contains(b[j]));
                let p = choose|p: int| 0 <= p < a.len() && a[p] == b[i];
                let q = choose|q: int| 0 <= q < a.len() && a[q] == b[j];
                assert(p != q);
                if p < q {
                    assert(a[p].index != a[q].index);
                } else {
                    assert(a[q].index != a[p].index);
                }
            }
        }
    }
}

proof fn lemma_sorted_distinct_unique(x: Seq<SpecSegmentFile>, y: Seq<SpecSegmentFile>)
    requires
        sorted_by_index(x),
        sorted_by_index(y),
        distinct_indices(x),
        distinct_indices(y),
        x.to_multiset() == y.to_multiset(),
    ensures
        x =~= y,
    decreases x.len(),
{
    broadcast use vstd::multiset::group_multiset_axioms;
    broadcast use vstd::seq_lib::group_to_multiset_ensures;

    if x.len() == 0 || y.len() == 0 {
        assert(x.to_multiset().len() == x.len());
        assert(y.to_multiset().len() == y.len());
        assert(x.len() == y.len());
        assert(x =~= y);
    } else {
        assert(x.to_multiset().contains(x[0]));
        assert(y.to_multiset().contains(y[0]));
        assert(x.contains(y[0]));
        assert(y.contains(x[0]));
        let i = choose|i: int| 0 <= i < x.len() && x[i] == y[0];
        let j = choose|j: int| 0 <= j < y.len() && y[j] == x[0];
        if i > 0 && j > 0 {
            assert(x[0].index <= x[i].index && x[0].index != x[i].index);
            assert(y[0].index <= y[j].index && y[0].index != y[j].index);
            assert(x[0].index < y[0].index && y[0].index < x[0].index);
        }
        assert(x[0] == y[0]);
        assert(x.drop_first() =~= x.remove(0));
        assert(y.drop_first() =~= y.remove(0));
        assert(x.remove(0).to_multiset() =~= x.to_multiset().remove(x[0]));
        assert(y.remove(0).to_multiset() =~= y.to_multiset().remove(y[0]));
        assert(sorted_by_index(x.drop_first()) && distinct_indices(x.drop_first())) by {
            assert(forall|k: int|
                0 <= k < x.drop_first().len() ==> x.drop_first()[k] == x[k + 1]);
        }
        assert(sorted_by_index(y.drop_first()) && distinct_indices(y.drop_first())) by {
            assert(forall|k: int|
                0 <= k < y.drop_first().len() ==> y.drop_first()[k] == y[k + 1]);
        }
        lemma_sorted_distinct_unique(x.drop_first(), y.drop_first());
        assert(x.drop_first() =~= y.drop_first());
        assert(x =~= seq![x[0]] + x.drop_first());
        assert(y =~= seq![y[0]] + y.drop_first());
        assert(x =~= y);
    }
}

/// One failed segment fails the whole fetch phase: whenever any result is
/// an error, `collect_results` reports an error, so the orchestrator never
/// orders assembly and no assembled output is produced.
pub proof fn lemma_any_failure_fails_phase(
    rs: Seq<Result<SpecSegmentFile, SpecSegmentError>>,
    i: int,
)
    requires
        0 <= i < rs.len(),
        rs[i] is Err,
    ensures
        spec_first_err(rs) is Some,
    decreases rs.len(),
{
    if rs[0] is Ok {
        assert(rs.drop_first()[i - 1] == rs[i]);
        lemma_any_failure_fails_phase(rs.drop_first(), i - 1);
    }
}

/// Segments may complete their fetches in any order: two completion orders
/// that persist the same files (with one file per index) sort to the very
/// same ascending sequence, so the assembled byte stream does not depend on
/// completion order.
pub proof fn lemma_assembly_order_independent(
    a: Seq<SpecSegmentFile>,
    b: Seq<SpecSegmentFile>,
    sa: Seq<SpecSegmentFile>,
    sb: Seq<SpecSegmentFile>,
)
    requires
        a.to_multiset() == b.to_multiset(),
        distinct_indices(a),
        sorted_by_index(sa),
        sa.to_multiset() == a.to_multiset(),
        sorted_by_index(sb),
        sb.to_multiset() == b.to_multiset(),
    ensures
        sa == sb,
{
    lemma_distinct_transfers(a, sa);
    lemma_distinct_transfers(a, sb);
    lemma_sorted_distinct_unique(sa, sb);
}

/// The fraction the progress reporter emits, in permille, computed as
/// `completed / total` scaled and capped at 990 to leave headroom for
/// assembly and remux.
pub fn progress_permille(completed: usize, total: usize) -> (r: u32)
    requires
        0 < total,
        completed <= total,
    ensures
        r as int == (completed as int * 990) / (total as int),
        r <= 990,
{
    let c: u128 = completed as u128;
    let t: u128 = total as u128;
    let p: u128 = (c * 990) / t;
    proof {
        assert((c as int * 990) / (t as int) <= 990) by (nonlinear_arith)
            requires
                0 < t as int,
                c as int <= t as int,
        ;
    }
    p as u32
}

/// The progress log line; the reporter sends it only when it differs from
/// the last line sent.
pub open spec fn spec_progress_message(completed: int, total: int) -> Seq<char> {
    "Segment progress: "@ + dec_digits(completed) + "/"@ + dec_digits(total)
}

pub fn progress_message(completed: usize, total: usize) -> (r: String)
    ensures
        r@ == spec_progress_message(completed as int, total as int),
{
    let mut out = ("Segment progress: ").to_owned();
    out.append(usize_to_string(completed).as_str());
    out.append("/");
    out.append(usize_to_string(total).as_str());
    proof {
        assert(out@ =~= spec_progress_message(completed as int, total as int));
    }
    out
}

/// The deduplication rule of the progress reporter: a log line goes out
/// exactly when its text differs from the last one sent.
pub fn should_emit_log(last: &str, msg: &str) -> (r: bool)
    ensures
        r == (last@ != msg@),
{
    !crate::text::str_eq(last, msg)
}

} // verus!
