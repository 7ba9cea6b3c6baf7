//! The decisions around the one HTTP call this crate makes (`POST {base_url}/embeddings` against an
//! OpenAI-compatible endpoint): the request URL and `Authorization` value, the retry policy with its
//! exponential backoff, and the alignment of the returned vectors with the inputs they belong to.
//! Sending the request, sleeping between attempts and parsing the JSON are left to the caller, which
//! hands each outcome to [`RetryLoop::step`] and each parsed reply to [`align_response`].

use vstd::prelude::*;

use core::time::Duration;

use crate::text::{decimal, u64_to_decimal};

verus! {

broadcast use vstd::seq_lib::group_seq_properties;

/// Longest non-2xx response body kept in an error message.
pub const MAX_ERROR_BODY_CHARS: usize = 512;

/// The `Duration` that `Duration::from_millis(millis)` yields.
pub uninterp spec fn duration_from_millis(millis: u64) -> Duration;

/// `Duration::from_millis`: a duration of `millis` milliseconds. Claimed: the result is the value
/// named [`duration_from_millis`] for `millis`, the same for the same argument.
pub assume_specification[ core::time::Duration::from_millis ](millis: u64) -> (d: Duration)
    ensures
        d == duration_from_millis(millis),
;

/// `s` with every trailing `/` removed.
pub open spec fn trim_end_slashes(s: Seq<char>) -> Seq<char>
    decreases s.len(),
{
    if s.len() > 0 && s.last() == '/' {
        trim_end_slashes(s.drop_last())
    } else {
        s
    }
}

/// The request URL for a base URL: `{base_url}/embeddings`, trailing slashes of the base trimmed.
pub open spec fn embeddings_url_spec(base_url: Seq<char>) -> Seq<char> {
    trim_end_slashes(base_url) + "/embeddings"@
}

/// `{base_url}/embeddings`, with any trailing `/` of `base_url` trimmed first.
pub fn embeddings_url(base_url: &str) -> (u: String)
    ensures
        u@ == embeddings_url_spec(base_url@),
{
    let mut n = base_url.unicode_len();
    assert(base_url@.take(n as int) =~= base_url@);
    while n > 0 && base_url.get_char(n - 1) == '/'
        invariant
            n <= base_url@.len(),
            trim_end_slashes(base_url@) == trim_end_slashes(base_url@.take(n as int)),
        decreases n,
    {
        assert(base_url@.take(n as int).drop_last() =~= base_url@.take(n - 1));
        n = n - 1;
    }
    let mut u = String::from_str(base_url.substring_char(0, n));
    u.append("/embeddings");
    u
}

/// The `Authorization` header value for an API key.
pub open spec fn bearer_spec(key: Seq<char>) -> Seq<char> {
    "Bearer "@ + key
}

/// `Bearer {key}`.
pub fn bearer(key: &str) -> (v: String)
    ensures
        v@ == bearer_spec(key@),
{
    let mut v = String::from_str("Bearer ");
    v.append(key);
    v
}

/// The wait before retry number `attempt` (0-based), in milliseconds: `500 * 2^attempt`, the
/// exponent capped at 32 (so the value always fits).
pub open spec fn backoff_millis_spec(attempt: u32) -> nat {
    500 * vstd::arithmetic::power2::pow2(if attempt < 32 { attempt as nat } else { 32 })
}

/// `500ms * 2^attempt` in milliseconds, the exponent capped at 32: never overflows, never panics,
/// however large an operator sets `max_retries`.
pub fn backoff_millis(attempt: u32) -> (ms: u64)
    ensures
        ms as nat == backoff_millis_spec(attempt),
{
    let cap: u32 = if attempt < 32 { attempt } else { 32 };
    let mut p: u64 = 1;
    let mut i: u32 = 0;
    proof {
        vstd::arithmetic::power2::lemma2_to64();
    }
    while i < cap
        invariant
            i <= cap <= 32,
            p as nat == vstd::arithmetic::power2::pow2(i as nat),
            p <= 0x1_0000_0000,
        decreases cap - i,
    {
        proof {
            vstd::arithmetic::power2::lemma_pow2_unfold((i + 1) as nat);
            vstd::arithmetic::power2::lemma_pow2_strictly_increases(i as nat, 32);
            vstd::arithmetic::power2::lemma2_to64();
        }
        p = p * 2;
        i = i + 1;
    }
    500 * p
}

/// Each retry waits twice as long as the one before, up to the 33rd, after which the wait stays
/// at its cap.
pub proof fn lemma_backoff_doubles(attempt: u32)
    requires
        attempt < u32::MAX,
    ensures
        attempt < 32 ==> backoff_millis_spec((attempt + 1) as u32) == 2 * backoff_millis_spec(attempt),
        attempt >= 32 ==> backoff_millis_spec((attempt + 1) as u32) == backoff_millis_spec(attempt),
{
    if attempt < 32 {
        vstd::arithmetic::power2::lemma_pow2_unfold((attempt + 1) as nat);
    }
}

/// `Duration` of [`backoff_millis`].
pub fn backoff(attempt: u32) -> (d: Duration)
    ensures
        exists|ms: u64| ms as nat == backoff_millis_spec(attempt) && d == duration_from_millis(ms),
{
    let ms = backoff_millis(attempt);
    Duration::from_millis(ms)
}

/// `s` cut to at most `max_chars` chars.
pub open spec fn truncate_chars_spec(s: Seq<char>, max_chars: nat) -> Seq<char> {
    if s.len() <= max_chars {
        s
    } else {
        s.take(max_chars as int)
    }
}

/// Truncate `s` to at most `max_chars` chars, on a char boundary.
pub fn truncate_chars(s: &str, max_chars: usize) -> (r: String)
    ensures
        r@ == truncate_chars_spec(s@, max_chars as nat),
{
    let n = s.unicode_len();
    if n <= max_chars {
        assert(s@.subrange(0, n as int) =~= s@);
        String::from_str(s.substring_char(0, n))
    } else {
        String::from_str(s.substring_char(0, max_chars))
    }
}

/// How one attempt at the request ended.
#[derive(Clone, Copy, Debug, PartialEq, Eq, Structural)]
pub enum Outcome {
    /// The server answered with this HTTP status.
    Status(u16),
    /// The request did not complete (connection refused, timeout, ...).
    Transport,
}

/// What to do after an attempt.
#[derive(Clone, Copy, Debug, PartialEq, Eq, Structural)]
pub enum Step {
    /// A 2xx answer: read and align its body.
    Accept,
    /// Sleep for the backoff of this retry number (0-based), then send the request again.
    Retry(u32),
    /// Give up: report the status (with the response body) or the transport error.
    Fail,
}

/// A 2xx status.
pub open spec fn is_success(status: u16) -> bool {
    200 <= status <= 299
}

/// A status worth retrying: 429 or any 5xx.
pub open spec fn is_retryable(status: u16) -> bool {
    status == 429 || (500 <= status <= 599)
}

/// The step after attempt number `attempt` (0-based) ended in `outcome`, with `max_retries`
/// retries allowed in all: success is accepted; 429, 5xx and transport errors are retried while
/// retries are left; anything else (another 4xx, say) fails at once.
pub open spec fn step_spec(outcome: Outcome, attempt: u32, max_retries: u32) -> Step {
    match outcome {
        Outcome::Status(s) => if is_success(s) {
            Step::Accept
        } else if is_retryable(s) && attempt < max_retries {
            Step::Retry(attempt)
        } else {
            Step::Fail
        },
        Outcome::Transport => if attempt < max_retries {
            Step::Retry(attempt)
        } else {
            Step::Fail
        },
    }
}

/// The retry policy: a 2xx answer is accepted; every 5xx answer and every 429 is retried while
/// retries are left, the retry numbered by the attempts retried so far; a transport error is
/// retried the same way; any other status, and any failure once the retries are used up, fails.
pub proof fn lemma_retry_policy(status: u16, attempt: u32, max_retries: u32)
    ensures
        200 <= status <= 299 ==> step_spec(Outcome::Status(status), attempt, max_retries) == Step::Accept,
        (500 <= status <= 599 || status == 429) && attempt < max_retries ==> step_spec(
            Outcome::Status(status),
            attempt,
            max_retries,
        ) == Step::Retry(attempt),
        attempt < max_retries ==> step_spec(Outcome::Transport, attempt, max_retries) == Step::Retry(attempt),
        !(200 <= status <= 299) && (attempt >= max_retries || !(500 <= status <= 599 || status == 429))
            ==> step_spec(Outcome::Status(status), attempt, max_retries) == Step::Fail,
        attempt >= max_retries ==> step_spec(Outcome::Transport, attempt, max_retries) == Step::Fail,
{
}

/// Every 5xx answer is retried while retries are left: a loop allowing `max_retries` retries
/// answers `Retry(0)`, `Retry(1)`, ... to consecutive 5xx answers, so it sends `max_retries + 1`
/// requests before it fails.
pub proof fn lemma_server_errors_use_every_retry(statuses: Seq<u16>, max_retries: u32)
    requires
        forall|k: int| 0 <= k < statuses.len() ==> 500 <= #[trigger] statuses[k] <= 599,
        statuses.len() == max_retries + 1,
    ensures
        forall|k: int|
            0 <= k < max_retries ==> step_spec(Outcome::Status(#[trigger] statuses[k]), k as u32, max_retries)
                == Step::Retry(k as u32),
        step_spec(Outcome::Status(statuses[max_retries as int]), max_retries, max_retries) == Step::Fail,
{
    assert forall|k: int| 0 <= k < max_retries implies step_spec(
        Outcome::Status(#[trigger] statuses[k]),
        k as u32,
        max_retries,
    ) == Step::Retry(k as u32) by {
        lemma_retry_policy(statuses[k], k as u32, max_retries);
    }
    lemma_retry_policy(statuses[max_retries as int], max_retries, max_retries);
}

/// The retry state of one batch request: how many attempts were retried so far, against the
/// configured maximum.
pub struct RetryLoop {
    pub attempt: u32,
    pub max_retries: u32,
}

impl RetryLoop {
    /// A fresh loop: nothing retried yet.
    pub fn new(max_retries: u32) -> (l: RetryLoop)
        ensures
            l.attempt == 0,
            l.max_retries == max_retries,
    {
        RetryLoop { attempt: 0, max_retries }
    }

    /// Decide what follows `outcome`; a retry counts itself.
    pub fn step(&mut self, outcome: Outcome) -> (s: Step)
        requires
            old(self).attempt <= old(self).max_retries,
        ensures
            s == step_spec(outcome, old(self).attempt, old(self).max_retries),
            final(self).max_retries == old(self).max_retries,
            final(self).attempt == if s is Retry {
                old(self).attempt + 1
            } else {
                old(self).attempt as int
            },
            final(self).attempt <= final(self).max_retries,
    {
        let s = match outcome {
            Outcome::Status(status) => {
                if 200 <= status && status <= 299 {
                    Step::Accept
                } else if (status == 429 || (500 <= status && status <= 599)) && self.attempt
                    < self.max_retries {
                    Step::Retry(self.attempt)
                } else {
                    Step::Fail
                }
            },
            Outcome::Transport => {
                if self.attempt < self.max_retries {
                    Step::Retry(self.attempt)
                } else {
                    Step::Fail
                }
            },
        };
        if let Step::Retry(_) = s {
            self.attempt = self.attempt + 1;
        }
        s
    }
}

/// What one successful request brought back: each returned vector with the input index the server
/// gave it, in the order the server listed them, and how many retries the request took.
pub struct BatchReply<V> {
    pub data: Vec<(usize, V)>,
    pub retries: usize,
}

/// Why a reply cannot be aligned with its inputs.
#[derive(Clone, Copy, Debug, PartialEq, Eq, Structural)]
pub enum AlignError {
    /// The server returned `returned` vectors for `expected` inputs.
    CountMismatch { returned: usize, expected: usize },
    /// The indices are not a permutation of `0..expected`.
    NotPermutation { expected: usize },
}

/// The indices of `data` are exactly `0..n`, each once.
pub open spec fn indices_permute<V>(data: Seq<(usize, V)>, n: nat) -> bool {
    &&& data.len() == n
    &&& forall|k: int| 0 <= k < n ==> (#[trigger] data[k]).0 < n
    &&& forall|k: int, m: int| 0 <= k < m < n ==> (#[trigger] data[k]).0 != (#[trigger] data[m]).0
}

/// What [`align_response`] refuses a reply with: a count mismatch when the reply does not hold
/// `expected` vectors, else a non-permutation when its indices are not `0..expected` each once,
/// else nothing.
pub open spec fn align_refusal<V>(data: Seq<(usize, V)>, expected: nat) -> Option<AlignError> {
    if data.len() != expected {
        Some(AlignError::CountMismatch { returned: data.len() as usize, expected: expected as usize })
    } else if !indices_permute(data, expected) {
        Some(AlignError::NotPermutation { expected: expected as usize })
    } else {
        None
    }
}

/// The text of an alignment error.
pub open spec fn align_error_text(e: AlignError) -> Seq<char> {
    match e {
        AlignError::CountMismatch { returned, expected } => "embeddings endpoint returned "@ + decimal(
            returned as nat,
        ) + " vectors for "@ + decimal(expected as nat)
            + " inputs — refusing to align a short response against the wrong chunks"@,
        AlignError::NotPermutation { expected } =>
            "embeddings endpoint returned indices that are not a permutation of 0.."@ + decimal(
            expected as nat,
        ) + " — refusing to align vectors against the wrong chunks"@,
    }
}

impl AlignError {
    /// The error's message.
    pub fn message(&self) -> (m: String)
        ensures
            m@ == align_error_text(*self),
    {
        match self {
            AlignError::CountMismatch { returned, expected } => {
                let mut m = String::from_str("embeddings endpoint returned ");
                m.append(u64_to_decimal(*returned as u64).as_str());
                m.append(" vectors for ");
                m.append(u64_to_decimal(*expected as u64).as_str());
                m.append(" inputs — refusing to align a short response against the wrong chunks");
                m
            },
            AlignError::NotPermutation { expected } => {
                let mut m = String::from_str(
                    "embeddings endpoint returned indices that are not a permutation of 0..",
                );
                m.append(u64_to_decimal(*expected as u64).as_str());
                m.append(" — refusing to align vectors against the wrong chunks");
                m
            },
        }
    }
}

/// `n` distinct indices below `n` cover every index below `n`.
pub proof fn lemma_indices_cover(idx: Seq<int>, n: int)
    requires
        idx.len() == n,
        forall|k: int| 0 <= k < n ==> 0 <= #[trigger] idx[k] < n,
        idx.no_duplicates(),
    ensures
        forall|i: int| 0 <= i < n ==> idx.contains(i),
{
    idx.unique_seq_to_set();
    vstd::set_lib::lemma_int_range(0, n);
    let s = idx.to_set();
    let r = vstd::set_lib::set_int_range(0, n);
    assert(s.subset_of(r));
    vstd::seq_lib::seq_to_set_is_finite(idx);
    vstd::set_lib::lemma_subset_equality(s, r);
    assert forall|i: int| 0 <= i < n implies idx.contains(i) by {
        assert(r.contains(i));
        assert(s.contains(i));
    }
}

/// Put each returned vector at the position of the input it belongs to. The server's `index`, not
/// the order of the list, decides that; a reply with the wrong number of vectors, or whose indices
/// are not a permutation of `0..expected` (a repeated or out-of-range index), is refused rather than
/// attached to the wrong inputs.
pub fn align_response<V>(data: Vec<(usize, V)>, expected: usize) -> (r: Result<Vec<V>, AlignError>)
    ensures
        match r {
            Ok(v) => indices_permute(data@, expected as nat) && v@.len() == expected && forall|k: int|
                0 <= k < expected ==> v@[(#[trigger] data@[k]).0 as int] == data@[k].1,
            Err(AlignError::CountMismatch { returned, expected: e }) => data@.len() != expected
                && returned == data@.len() && e == expected,
            Err(AlignError::NotPermutation { expected: e }) => data@.len() == expected
                && !indices_permute(data@, expected as nat) && e == expected,
        },
{
    if data.len() != expected {
        return Err(AlignError::CountMismatch { returned: data.len(), expected });
    }
    let ghost d = data@;
    let ghost n = expected as int;
    let mut slots: Vec<Option<V>> = Vec::new();
    let mut i: usize = 0;
    while i < expected
        invariant
            i <= expected,
            slots@.len() == i,
            forall|j: int| 0 <= j < i ==> slots@[j] is None,
        decreases expected - i,
    {
        slots.push(None);
        i = i + 1;
    }
    let mut rest = data;
    assert(d.take(n) =~= d);
    while rest.len() > 0
        invariant
            d == data@,
            d.len() == n,
            rest@.len() <= n,
            n == expected,
            slots@.len() == n,
            rest@ == d.take(rest@.len() as int),
            forall|k: int| rest@.len() <= k < n ==> (#[trigger] d[k]).0 < n,
            forall|k: int| rest@.len() <= k < n ==> slots@[(#[trigger] d[k]).0 as int] == Some(d[k].1),
            forall|k: int, m: int| rest@.len() <= k < m < n ==> (#[trigger] d[k]).0 != (#[trigger] d[m]).0,
            forall|j: int| 0 <= j < n && (#[trigger] slots@[j]) is Some ==> exists|k: int|
                rest@.len() <= k < n && (#[trigger] d[k]).0 == j,
        decreases rest.len(),
    {
        let ghost at = rest@.len() - 1;
        let ghost before = rest@;
        assert(before[at] == d[at]);
        let (idx, v) = rest.pop().unwrap();
        assert(before.last() == (idx, v));
        assert(rest@ =~= d.take(at));
        if idx >= expected {
            proof {
                if indices_permute(d, n as nat) {
                    assert(d[at].0 < n);
                }
            }
            return Err(AlignError::NotPermutation { expected });
        }
        if slots[idx].is_some() {
            proof {
                let k = choose|k: int| rest@.len() < k < n && (#[trigger] d[k]).0 == idx as int;
                assert(d[at].0 == d[k].0);
                if indices_permute(d, n as nat) {
                    assert(d[at].0 != d[k].0);
                }
            }
            return Err(AlignError::NotPermutation { expected });
        }
        slots.set(idx, Some(v));
        proof {
            assert forall|j: int| 0 <= j < n && (#[trigger] slots@[j]) is Some implies exists|k: int|
                at <= k < n && (#[trigger] d[k]).0 == j by {
                if j != idx as int {
                    let k = choose|k: int| at < k < n && (#[trigger] d[k]).0 == j;
                    assert(d[k].0 == j);
                } else {
                    assert(d[at].0 == j);
                }
            }
        }
    }
    proof {
        let idxs = d.map_values(|p: (usize, V)| p.0 as int);
        assert forall|k: int, m: int| 0 <= k < idxs.len() && 0 <= m < idxs.len() && k != m implies idxs[k]
            != idxs[m] by {
            if k < m {
                assert(d[k].0 != d[m].0);
            } else {
                assert(d[m].0 != d[k].0);
            }
        }
        assert forall|k: int| 0 <= k < n implies 0 <= #[trigger] idxs[k] < n by {
            assert(d[k].0 < n);
        }
        lemma_indices_cover(idxs, n);
        assert forall|j: int| 0 <= j < n implies (#[trigger] slots@[j]) is Some by {
            assert(idxs.contains(j));
            let k = choose|k: int| 0 <= k < idxs.len() && idxs[k] == j;
            assert(d[k].0 == j);
            assert(slots@[d[k].0 as int] == Some(d[k].1));
        }
    }
    let ghost filled = slots@;
    let mut rev: Vec<V> = Vec::new();
    while slots.len() > 0
        invariant
            d == data@,
            slots@.len() + rev@.len() == n,
            filled.len() == n,
            slots@ == filled.take(slots@.len() as int),
            forall|j: int| 0 <= j < n ==> (#[trigger] filled[j]) is Some,
            forall|t: int| 0 <= t < rev@.len() ==> Some(#[trigger] rev@[t]) == filled[n - 1 - t],
        decreases slots.len(),
    {
        let ghost at = slots@.len() - 1;
        let s = slots.pop().unwrap();
        assert(s == filled[at]);
        assert(slots@ =~= filled.take(at));
        match s {
            Some(v) => {
                rev.push(v);
            },
            None => {
                return Err(AlignError::NotPermutation { expected });
            },
        }
    }
    let mut out: Vec<V> = Vec::new();
    while rev.len() > 0
        invariant
            d == data@,
            rev@.len() + out@.len() == n,
            filled.len() == n,
            forall|t: int| 0 <= t < rev@.len() ==> Some(#[trigger] rev@[t]) == filled[n - 1 - t],
            forall|j: int| 0 <= j < out@.len() ==> Some(#[trigger] out@[j]) == filled[j],
        decreases rev.len(),
    {
        let ghost at = rev@.len() - 1;
        let v = rev.pop().unwrap();
        assert(Some(v) == filled[n - 1 - at]);
        out.push(v);
    }
    proof {
        assert forall|k: int| 0 <= k < expected implies out@[(#[trigger] d[k]).0 as int] == d[k].1 by {
            assert(filled[d[k].0 as int] == Some(d[k].1));
            assert(Some(out@[d[k].0 as int]) == filled[d[k].0 as int]);
        }
    }
    Ok(out)
}

} // verus!
