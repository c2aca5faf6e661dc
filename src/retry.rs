//! Bounded retry with exponential backoff for requests to the remote service.

use vstd::prelude::*;

verus! {

/// Attempts per request: one initial attempt and five retries.
pub const MAX_ATTEMPTS: u32 = 6;
/// Backoff before the first retry.
pub const BASE_DELAY_MS: u64 = 1000;
/// Upper bound of the exponential backoff.
pub const MAX_DELAY_MS: u64 = 30000;
/// Random jitter added to each wait lies below this bound.
pub const JITTER_BOUND_MS: u64 = 1000;
/// HTTP status "Too Many Requests".
pub const TOO_MANY_REQUESTS: u16 = 429;

/// How one attempt ended.
pub enum Attempt {
    /// The request did not get a response (connection error, timeout).
    TransportError,
    /// A response, with its `Retry-After` header when it had one.
    Response { status: u16, retry_after: Option<String> },
}

/// What to do after an attempt.
#[derive(Clone, Copy, Debug, PartialEq, Eq, Structural)]
pub enum RetryAction {
    /// Hand the response to the caller.
    Deliver,
    /// Hand the transport error to the caller.
    GiveUp,
    /// Sleep this many milliseconds, then attempt again.
    Wait(u64),
}

/// A server error or a rate limit: worth another attempt.
pub open spec fn retryable_status(status: u16) -> bool {
    (500 <= status <= 599) || status == TOO_MANY_REQUESTS
}

/// Whether an attempt calls for another one.
pub open spec fn attempt_failed(a: &Attempt) -> bool {
    match a {
        Attempt::TransportError => true,
        Attempt::Response { status, .. } => retryable_status(*status),
    }
}

/// An ASCII decimal digit.
pub open spec fn is_digit(c: char) -> bool {
    '0' <= c <= '9'
}

/// The number that a string of decimal digits denotes.
pub open spec fn digits_value(s: Seq<char>) -> nat
    decreases s.len(),
{
    if s.len() == 0 {
        0
    } else {
        10 * digits_value(s.drop_last()) + ((s.last() as u32) - ('0' as u32)) as nat
    }
}

/// The text after an optional leading `+`.
pub open spec fn strip_plus(s: Seq<char>) -> Seq<char> {
    if s.len() > 0 && s[0] == '+' {
        s.drop_first()
    } else {
        s
    }
}

/// One or more decimal digits denoting a value that fits in 64 bits.
pub open spec fn parse_digits(d: Seq<char>) -> Option<u64> {
    if d.len() > 0 && (forall|i: int| 0 <= i < d.len() ==> is_digit(#[trigger] d[i]))
        && digits_value(d) <= u64::MAX {
        Some(digits_value(d) as u64)
    } else {
        None
    }
}

/// What `u64::from_str` accepts: an optional `+`, then one or more
/// decimal digits denoting a value that fits in 64 bits.
pub open spec fn parse_u64_spec(s: Seq<char>) -> Option<u64> {
    parse_digits(strip_plus(s))
}

/// `n * 1000`, or `u64::MAX` where that does not fit.
pub open spec fn seconds_to_ms(n: u64) -> u64 {
    if n <= u64::MAX / 1000 {
        (n * 1000) as u64
    } else {
        u64::MAX
    }
}

/// `a + b`, or `u64::MAX` where that does not fit.
pub open spec fn add_sat(a: u64, b: u64) -> u64 {
    if a + b <= u64::MAX {
        (a + b) as u64
    } else {
        u64::MAX
    }
}

proof fn lemma_digits_grow(s: Seq<char>, i: int)
    requires
        0 <= i <= s.len(),
        forall|k: int| 0 <= k < s.len() ==> is_digit(#[trigger] s[k]),
    ensures
        digits_value(s.take(i)) <= digits_value(s),
    decreases s.len() - i,
{
    if i < s.len() {
        lemma_digits_grow(s, i + 1);
        let t = s.take(i + 1);
        assert(t.drop_last() =~= s.take(i));
    } else {
        assert(s.take(i) =~= s);
    }
}

/// Parses a non-negative decimal integer as `u64::from_str` does.
pub fn parse_u64(s: &str) -> (r: Option<u64>)
    ensures
        r == parse_u64_spec(s@),
{
    let n = s.unicode_len();
    let mut start: usize = 0;
    if n > 0 && s.get_char(0) == '+' {
        start = 1;
    }
    let d = s.substring_char(start, n);
    let ghost dv = d@;
    proof {
        if n > 0 && s@[0] == '+' {
            assert(dv =~= s@.drop_first());
        } else {
            assert(dv =~= s@);
        }
    }
    let m = d.unicode_len();
    if m == 0 {
        return None;
    }
    let mut acc: u64 = 0;
    let mut i: usize = 0;
    proof {
        assert(dv.take(0) =~= Seq::<char>::empty());
    }
    while i < m
        invariant
            m == dv.len(),
            dv == d@,
            dv == strip_plus(s@),
            i <= m,
            forall|k: int| 0 <= k < i ==> is_digit(#[trigger] dv[k]),
            acc as nat == digits_value(dv.take(i as int)),
        decreases m - i,
    {
        let c = d.get_char(i);
        proof {
            let t = dv.take(i as int + 1);
            assert(t.drop_last() =~= dv.take(i as int));
            assert(t.last() == c);
        }
        if c < '0' || c > '9' {
            proof {
                assert(!is_digit(dv[i as int]));
                assert(!(forall|k: int| 0 <= k < dv.len() ==> is_digit(#[trigger] dv[k])));
                assert(parse_digits(dv) is None);
            }
            return None;
        }
        let digit = (c as u32 - '0' as u32) as u64;
        if acc > (u64::MAX - digit) / 10 {
            proof {
                assert(acc * 10 + digit > u64::MAX) by (nonlinear_arith)
                    requires acc > (u64::MAX - digit) / 10, digit <= 9;
                let t = dv.take(i as int + 1);
                assert(digits_value(t) == 10 * digits_value(dv.take(i as int)) + digit);
                if forall|k: int| 0 <= k < dv.len() ==> is_digit(#[trigger] dv[k]) {
                    lemma_digits_grow(dv, i as int + 1);
                    assert(digits_value(dv) > u64::MAX);
                }
                assert(!(forall|k: int| 0 <= k < dv.len() ==> is_digit(#[trigger] dv[k])) || digits_value(dv) > u64::MAX);
                assert(parse_digits(dv) is None);
            }
            return None;
        }
        proof {
            assert(acc * 10 + digit <= u64::MAX) by (nonlinear_arith)
                requires acc <= (u64::MAX - digit) / 10, digit <= 9;
        }
        proof {
            let t = dv.take(i as int + 1);
            assert(digits_value(t) == 10 * digits_value(dv.take(i as int)) + digit);
        }
        acc = acc * 10 + digit;
        i = i + 1;
    }
    proof {
        assert(dv.take(m as int) =~= dv);
    }
    Some(acc)
}

/// The wait that a `Retry-After` header asks for, when it is a whole
/// number of seconds.
pub fn retry_after_ms(header: &Option<String>) -> (r: Option<u64>)
    ensures
        r == match header {
            Some(h) => match parse_u64_spec(h@) {
                Some(secs) => Some(seconds_to_ms(secs)),
                None => None,
            },
            None => None::<u64>,
        },
{
    match header {
        Some(h) => match parse_u64(h.as_str()) {
            Some(secs) => {
                if secs <= u64::MAX / 1000 {
                    Some(secs * 1000)
                } else {
                    Some(u64::MAX)
                }
            },
            None => None,
        },
        None => None,
    }
}

/// Where a request stands: attempts made so far and the current backoff.
#[derive(Clone, Copy, Debug)]
pub struct RetryState {
    pub attempts: u32,
    pub delay_ms: u64,
}

/// The wait before the next attempt: a rate limit's `Retry-After` where it
/// gives whole seconds, else the backoff; jitter comes on top.
pub open spec fn wait_spec(state: RetryState, a: &Attempt, jitter_ms: u64) -> u64 {
    let base = match a {
        Attempt::Response { status, retry_after: Some(h) } => if *status == TOO_MANY_REQUESTS {
            match parse_u64_spec(h@) {
                Some(secs) => seconds_to_ms(secs),
                None => state.delay_ms,
            }
        } else {
            state.delay_ms
        },
        _ => state.delay_ms,
    };
    add_sat(base, jitter_ms)
}

impl RetryState {
    pub open spec fn wf(&self) -> bool {
        &&& self.attempts < MAX_ATTEMPTS
        &&& BASE_DELAY_MS <= self.delay_ms <= MAX_DELAY_MS
    }

    /// A request before its first attempt.
    pub fn new() -> (r: RetryState)
        ensures
            r.wf(),
            r.attempts == 0,
            r.delay_ms == BASE_DELAY_MS,
    {
        RetryState { attempts: 0, delay_ms: BASE_DELAY_MS }
    }

    /// Decides what follows an attempt, given the jitter drawn for it.
    /// A response that is no failure is delivered; after the sixth
    /// attempt the last response is delivered, or the transport error
    /// given up; otherwise the caller waits and tries again, and the
    /// backoff doubles up to its cap.
    pub fn decide(&self, a: &Attempt, jitter_ms: u64) -> (r: (RetryAction, RetryState))
        requires
            self.wf(),
            jitter_ms < JITTER_BOUND_MS,
        ensures
            r.1.attempts == self.attempts + 1,
            (r.0 is Wait) == !stops_after(self.attempts as nat, a),
            !attempt_failed(a) ==> r.0 == RetryAction::Deliver,
            attempt_failed(a) && self.attempts + 1 >= MAX_ATTEMPTS ==> r.0 == if a is TransportError {
                RetryAction::GiveUp
            } else {
                RetryAction::Deliver
            },
            attempt_failed(a) && self.attempts + 1 < MAX_ATTEMPTS ==> {
                &&& r.0 == RetryAction::Wait(wait_spec(*self, a, jitter_ms))
                &&& r.1.wf()
                &&& r.1.delay_ms == if 2 * self.delay_ms <= MAX_DELAY_MS { 2 * self.delay_ms } else { MAX_DELAY_MS as int }
            },
    {
        let attempts = self.attempts + 1;
        let doubled = if self.delay_ms <= MAX_DELAY_MS / 2 { self.delay_ms * 2 } else { MAX_DELAY_MS };
        let next = RetryState { attempts, delay_ms: doubled };
        let failed = match a {
            Attempt::TransportError => true,
            Attempt::Response { status, .. } => (500 <= *status && *status <= 599) || *status == TOO_MANY_REQUESTS,
        };
        if !failed {
            return (RetryAction::Deliver, next);
        }
        if attempts >= MAX_ATTEMPTS {
            return match a {
                Attempt::TransportError => (RetryAction::GiveUp, next),
                _ => (RetryAction::Deliver, next),
            };
        }
        let base = match a {
            Attempt::Response { status, retry_after } => {
                if *status == TOO_MANY_REQUESTS {
                    match retry_after_ms(retry_after) {
                        Some(ms) => ms,
                        None => self.delay_ms,
                    }
                } else {
                    self.delay_ms
                }
            },
            Attempt::TransportError => self.delay_ms,
        };
        let wait = if base <= u64::MAX - jitter_ms { base + jitter_ms } else { u64::MAX };
        (RetryAction::Wait(wait), next)
    }

    /// Decides what follows an attempt, drawing fresh jitter.
    pub fn next_action(&self, a: &Attempt) -> (r: (RetryAction, RetryState))
        requires
            self.wf(),
        ensures
            r.1.attempts == self.attempts + 1,
            (r.0 is Wait) == !stops_after(self.attempts as nat, a),
            !attempt_failed(a) ==> r.0 == RetryAction::Deliver,
            attempt_failed(a) && self.attempts + 1 >= MAX_ATTEMPTS ==> r.0 == if a is TransportError {
                RetryAction::GiveUp
            } else {
                RetryAction::Deliver
            },
            attempt_failed(a) && self.attempts + 1 < MAX_ATTEMPTS ==> r.1.wf() && exists|j: u64| j < JITTER_BOUND_MS
                && r.0 == RetryAction::Wait(wait_spec(*self, a, j)),
    {
        let j = random_jitter_ms();
        self.decide(a, j)
    }
}

/// Relies on fastrand::u64: a random number in `0..JITTER_BOUND_MS`.
#[verifier::external_body]
fn random_jitter_ms() -> (r: u64)
    ensures
        r < JITTER_BOUND_MS,
{
    fastrand::u64(..JITTER_BOUND_MS)
}

/// A rate-limited response whose `Retry-After` gives whole seconds is
/// retried no sooner than that, while attempts remain.
pub proof fn lemma_retry_after_respected(state: RetryState, h: String, jitter_ms: u64)
    requires
        state.wf(),
        state.attempts + 1 < MAX_ATTEMPTS,
        parse_u64_spec(h@) is Some,
    ensures
        wait_spec(state, &Attempt::Response { status: TOO_MANY_REQUESTS, retry_after: Some(h) }, jitter_ms)
            >= seconds_to_ms(parse_u64_spec(h@)->0),
        seconds_to_ms(parse_u64_spec(h@)->0) >= 1000 * parse_u64_spec(h@)->0 || seconds_to_ms(parse_u64_spec(h@)->0) == u64::MAX,
{
}

/// After `attempts` earlier attempts, attempt `a` ends the request: it is
/// no failure, or no attempt remains.
pub open spec fn stops_after(attempts: nat, a: &Attempt) -> bool {
    !attempt_failed(a) || attempts + 1 >= MAX_ATTEMPTS
}

/// Which of a sequence of attempt outcomes reaches the caller, starting
/// from outcome `i` with `attempts` attempts already made.
pub open spec fn handed_back(attempts: nat, outcomes: Seq<Attempt>, i: int) -> Option<int>
    decreases outcomes.len() - i,
{
    if i < 0 || i >= outcomes.len() {
        None
    } else if stops_after(attempts, &outcomes[i]) {
        Some(i)
    } else {
        handed_back(attempts + 1, outcomes, i + 1)
    }
}

proof fn lemma_handed_back_from(outcomes: Seq<Attempt>, k: int, i: int)
    requires
        0 <= i <= k < outcomes.len(),
        k < MAX_ATTEMPTS,
        forall|j: int| 0 <= j < k ==> attempt_failed(#[trigger] &outcomes[j]),
        !attempt_failed(&outcomes[k]),
    ensures
        handed_back(i as nat, outcomes, i) == Some(k),
    decreases k - i,
{
    if i < k {
        assert(attempt_failed(&outcomes[i]));
        lemma_handed_back_from(outcomes, k, i + 1);
    }
}

/// Failures are retried while attempts remain, and the first outcome that
/// is no failure is the one handed back: after `k < 6` failed attempts
/// (server errors, rate limits, transport errors), a success is delivered.
pub proof fn lemma_first_success_delivered(outcomes: Seq<Attempt>, k: int)
    requires
        0 <= k < outcomes.len(),
        k < MAX_ATTEMPTS,
        forall|j: int| 0 <= j < k ==> attempt_failed(#[trigger] &outcomes[j]),
        !attempt_failed(&outcomes[k]),
    ensures
        handed_back(0, outcomes, 0) == Some(k),
{
    lemma_handed_back_from(outcomes, k, 0);
}

} // verus!
