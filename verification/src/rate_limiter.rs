//! The rate limiter: the quota that the server reports in the headers of its answers,
//! and the decision, before each request, whether it may go out at once.
//!
//! Time is a count of nanoseconds since the limiter was made. The caller reads the
//! clock and hands the count in; the limiter answers with the pause to make.

use reqwest::header::{HeaderMap, HeaderValue};
use vstd::prelude::*;

verus! {

/// The header that carries how many requests are left in the current window.
pub const HEADER_RATELIMIT_REMAINING: &'static str = "x-ratelimit-remaining";

/// The header that carries in how many seconds the window resets.
pub const HEADER_RATELIMIT_RESET: &'static str = "x-ratelimit-reset";

/// Nanoseconds in one second.
pub const NANOS_PER_SECOND: u64 = 1_000_000_000;

/// The header map of the `http` crate, as `reqwest` hands it out. It is carried
/// through as it is; what it holds is read through `header_values`.
#[verifier::external_type_specification]
#[verifier::external_body]
#[verifier::reject_recursive_types(T)]
pub struct ExHeaderMap<T>(HeaderMap<T>);

/// The header value of the `http` crate, the item type of a header map.
#[verifier::external_type_specification]
#[verifier::external_body]
pub struct ExHeaderValue(HeaderValue);

/// What a header map holds, as a lookup by name sees it: each name for which
/// `HeaderMap::get` finds a value, in whatever letter case the name is written, with
/// the bytes of that value, which is the first one stored under the name.
pub uninterp spec fn header_values(headers: HeaderMap) -> Map<Seq<char>, Seq<u8>>;

/// The entry of `values` under `name`, if there is one.
pub open spec fn value_at(values: Map<Seq<char>, Seq<u8>>, name: Seq<char>) -> Option<Seq<u8>> {
    if values.contains_key(name) {
        Some(values[name])
    } else {
        None
    }
}

/// A byte that `HeaderValue::to_str` lets through: printable ASCII or a tab.
pub open spec fn is_visible_ascii(b: u8) -> bool {
    (32 <= b && b < 127) || b == 9
}

/// Every byte of `value` is visible ASCII, so the value reads as text.
pub open spec fn is_text(value: Seq<u8>) -> bool {
    forall|i: int| 0 <= i < value.len() ==> is_visible_ascii(#[trigger] value[i])
}

/// The byte writes a decimal digit.
pub open spec fn is_digit(b: u8) -> bool {
    48 <= b && b <= 57
}

/// Every byte of `s` writes a decimal digit.
pub open spec fn all_digits(s: Seq<u8>) -> bool {
    forall|i: int| 0 <= i < s.len() ==> is_digit(#[trigger] s[i])
}

/// The number that the decimal digits `s` write.
pub open spec fn digits_value(s: Seq<u8>) -> nat
    decreases s.len(),
{
    if s.len() == 0 {
        0
    } else {
        digits_value(s.drop_last()) * 10 + (s.last() - 48) as nat
    }
}

/// `s` without one leading plus sign.
pub open spec fn unsigned_part(s: Seq<u8>) -> Seq<u8> {
    if s.len() > 0 && s[0] == 43 {
        s.skip(1)
    } else {
        s
    }
}

/// The value of `s` read as an unsigned decimal no larger than `max`: an optional plus
/// sign, then one digit or more. Anything else is no number.
pub open spec fn parse_decimal(s: Seq<u8>, max: nat) -> Option<nat> {
    let digits = unsigned_part(s);
    if digits.len() > 0 && all_digits(digits) && digits_value(digits) <= max {
        Some(digits_value(digits))
    } else {
        None
    }
}

/// Where the first full stop of `s` stands, or the length of `s` if it has none.
pub open spec fn first_stop(s: Seq<u8>) -> int
    decreases s.len(),
{
    if s.len() == 0 || s[0] == 46 {
        0
    } else {
        1 + first_stop(s.skip(1))
    }
}

/// What stands before the first full stop of `s`.
pub open spec fn integer_part(s: Seq<u8>) -> Seq<u8> {
    s.take(first_stop(s))
}

/// The quota that a remaining-requests header announces: the integer portion of a
/// textual value, where that is a number that fits 32 bits.
pub open spec fn quota_of(value: Option<Seq<u8>>) -> Option<nat> {
    match value {
        Some(bytes) => if is_text(bytes) {
            parse_decimal(integer_part(bytes), u32::MAX as nat)
        } else {
            None
        },
        None => None,
    }
}

/// The delay in seconds that a reset header announces: a textual value that is a
/// number that fits 64 bits.
pub open spec fn delay_of(value: Option<Seq<u8>>) -> Option<nat> {
    match value {
        Some(bytes) => if is_text(bytes) {
            parse_decimal(bytes, u64::MAX as nat)
        } else {
            None
        },
        None => None,
    }
}

/// The quota for the current window. Time is counted in nanoseconds since the limiter
/// was made.
#[derive(Debug, Clone, Copy, PartialEq, Eq, Structural)]
pub struct RateLimitState {
    /// The amount of requests remaining for this portion of time.
    pub remaining: u32,
    /// When the amount of requests we can make resets.
    pub reset_time: u128,
}

/// The state after a response whose two rate-limit headers are `remaining` and `reset`
/// arrived at `now`: each field follows its header where that parses, and keeps its
/// value where it does not.
pub open spec fn updated(
    state: RateLimitState,
    remaining: Option<Seq<u8>>,
    reset: Option<Seq<u8>>,
    now: u64,
) -> RateLimitState {
    RateLimitState {
        remaining: match quota_of(remaining) {
            Some(n) => n as u32,
            None => state.remaining,
        },
        reset_time: match delay_of(reset) {
            Some(secs) => (now + secs * NANOS_PER_SECOND) as u128,
            None => state.reset_time,
        },
    }
}

/// An answer without the two headers leaves the state as it is.
pub proof fn lemma_updated_without_headers(state: RateLimitState, now: u64)
    ensures
        updated(state, None, None, now) == state,
{
}

/// A request may go out at once: quota is left and the window has not reset yet.
pub open spec fn may_proceed(state: RateLimitState, now: u64) -> bool {
    state.remaining > 0 && state.reset_time > now
}

/// How long a caller at `now` has to pause before the window resets.
pub open spec fn pause_until_reset(state: RateLimitState, now: u64) -> nat {
    if state.reset_time > now {
        (state.reset_time - now) as nat
    } else {
        0
    }
}

/// The quota after a caller has asked at `now` to send a request: one request less
/// where the request may go out at once, and as before where it may not.
pub open spec fn waited(state: RateLimitState, now: u64) -> RateLimitState {
    if may_proceed(state, now) {
        RateLimitState { remaining: (state.remaining - 1) as u32, ..state }
    } else {
        state
    }
}

/// How long a caller that asks at `now` to send a request has to pause first: not at
/// all where the request may go out at once, and else until the window resets.
pub open spec fn pause_of(state: RateLimitState, now: u64) -> nat {
    if may_proceed(state, now) {
        0
    } else {
        pause_until_reset(state, now)
    }
}

/// Waiting never takes from a quota that is spent, and once the quota is spent and
/// the window resets later, the pause is exactly the time until the reset.
pub proof fn lemma_wait_respects_quota(state: RateLimitState, now: u64)
    ensures
        waited(state, now).remaining <= state.remaining,
        waited(state, now).reset_time == state.reset_time,
        state.remaining == 0 ==> waited(state, now) == state,
        state.remaining == 0 && state.reset_time > now ==> pause_of(state, now)
            == state.reset_time - now,
        state.reset_time <= now ==> pause_of(state, now) == 0,
{
}

impl Default for RateLimitState {
    /// One request is allowed, and the window resets at the moment the state is made.
    fn default() -> (state: Self)
        ensures
            state.remaining == 1,
            state.reset_time == 0,
    {
        Self { remaining: 1, reset_time: 0 }
    }
}

/// The first digits of a numeral write no more than the whole numeral.
proof fn lemma_digits_value_prefix(s: Seq<u8>, k: int)
    requires
        0 <= k <= s.len(),
        all_digits(s),
    ensures
        digits_value(s.take(k)) <= digits_value(s),
    decreases s.len() - k,
{
    if k == s.len() {
        assert(s.take(k) =~= s);
    } else {
        lemma_digits_value_prefix(s, k + 1);
        assert(s.take(k + 1).drop_last() =~= s.take(k));
        assert(is_digit(s[k]));
    }
}

/// Reads `bytes` from `start` to `end` as an unsigned decimal.
fn parse_u64(bytes: &Vec<u8>, start: usize, end: usize) -> (number: Option<u64>)
    requires
        start <= end <= bytes.len(),
    ensures
        match number {
            Some(n) => parse_decimal(bytes@.subrange(start as int, end as int), u64::MAX as nat)
                == Some(n as nat),
            None => parse_decimal(bytes@.subrange(start as int, end as int), u64::MAX as nat)
                is None,
        },
{
    let ghost s = bytes@.subrange(start as int, end as int);
    let from: usize = if start < end && bytes[start] == 43 {
        start + 1
    } else {
        start
    };
    let ghost digits = bytes@.subrange(from as int, end as int);
    assert(digits =~= unsigned_part(s));
    if from == end {
        return None;
    }
    let mut value: u64 = 0;
    let mut i: usize = from;
    while i < end
        invariant
            from <= i <= end <= bytes.len(),
            start <= end,
            digits == bytes@.subrange(from as int, end as int),
            digits == unsigned_part(bytes@.subrange(start as int, end as int)),
            digits.len() > 0,
            all_digits(digits.take(i - from)),
            value == digits_value(digits.take(i - from)),
        decreases end - i,
    {
        let b = bytes[i];
        if b < 48 || b > 57 {
            assert(!is_digit(digits[i - from]));
            return None;
        }
        let d: u64 = (b - 48) as u64;
        assert(digits.take(i - from + 1).drop_last() =~= digits.take(i - from));
        assert(digits.take(i - from + 1).last() == b);
        assert forall|j: int| 0 <= j < i - from + 1 implies is_digit(
            #[trigger] digits.take(i - from + 1)[j],
        ) by {
            if j < i - from {
                assert(digits.take(i - from + 1)[j] == digits.take(i - from)[j]);
            }
        }
        if value > (u64::MAX - d) / 10 {
            proof {
                assert(digits_value(digits.take(i - from + 1)) == value * 10 + d);
                if all_digits(digits) {
                    lemma_digits_value_prefix(digits, i - from + 1);
                }
            }
            return None;
        }
        value = value * 10 + d;
        i += 1;
    }
    assert(digits.take(end - from) =~= digits);
    Some(value)
}

/// Whether `bytes` reads as text.
fn is_text_value(bytes: &Vec<u8>) -> (ok: bool)
    ensures
        ok == is_text(bytes@),
{
    let mut i: usize = 0;
    while i < bytes.len()
        invariant
            i <= bytes.len(),
            forall|j: int| 0 <= j < i ==> is_visible_ascii(#[trigger] bytes@[j]),
        decreases bytes.len() - i,
    {
        let b = bytes[i];
        if !((32 <= b && b < 127) || b == 9) {
            return false;
        }
        i += 1;
    }
    true
}

/// The first full stop stands at `k` where no byte before `k` is one and the byte at
/// `k`, if there is one, is.
proof fn lemma_first_stop(s: Seq<u8>, k: int)
    requires
        0 <= k <= s.len(),
        forall|j: int| 0 <= j < k ==> s[j] != 46,
        k == s.len() || s[k] == 46,
    ensures
        first_stop(s) == k,
    decreases s.len(),
{
    if k > 0 {
        lemma_first_stop(s.skip(1), k - 1);
    }
}

/// The quota that the bytes of a remaining-requests header announce.
pub fn parse_quota(value: &Option<Vec<u8>>) -> (quota: Option<u32>)
    ensures
        match quota {
            Some(n) => quota_of(value.deep_view()) == Some(n as nat),
            None => quota_of(value.deep_view()) is None,
        },
{
    match value {
        None => None,
        Some(bytes) => {
            assert(bytes.deep_view() =~= bytes@);
            if !is_text_value(bytes) {
                return None;
            }
            let mut stop: usize = 0;
            while stop < bytes.len() && bytes[stop] != 46
                invariant
                    stop <= bytes.len(),
                    forall|j: int| 0 <= j < stop ==> bytes@[j] != 46,
                decreases bytes.len() - stop,
            {
                stop += 1;
            }
            proof {
                lemma_first_stop(bytes@, stop as int);
            }
            assert(bytes@.subrange(0, stop as int) =~= integer_part(bytes@));
            match parse_u64(bytes, 0, stop) {
                Some(n) => if n <= u32::MAX as u64 {
                    Some(n as u32)
                } else {
                    None
                },
                None => None,
            }
        },
    }
}

/// The delay in seconds that the bytes of a reset header announce.
pub fn parse_delay(value: &Option<Vec<u8>>) -> (delay: Option<u64>)
    ensures
        match delay {
            Some(secs) => delay_of(value.deep_view()) == Some(secs as nat),
            None => delay_of(value.deep_view()) is None,
        },
{
    match value {
        None => None,
        Some(bytes) => {
            assert(bytes.deep_view() =~= bytes@);
            if !is_text_value(bytes) {
                return None;
            }
            assert(bytes@.subrange(0, bytes@.len() as int) =~= bytes@);
            parse_u64(bytes, 0, bytes.len())
        },
    }
}

/// Looks `name` up with `HeaderMap::get` and copies the bytes of the value it finds,
/// as `HeaderValue::as_bytes` gives them. The contract says that this is the entry of
/// `header_values` under `name`, and that nothing is found where there is no entry.
#[verifier::external_body]
fn header_bytes(headers: &HeaderMap, name: &str) -> (value: Option<Vec<u8>>)
    ensures
        value.deep_view() == value_at(header_values(*headers), name@),
{
    headers.get(name).map(|v| v.as_bytes().to_vec())
}

/// Gates outbound requests by the quota that the server reports. A limiter holds its
/// quota itself: callers that are to share one quota share the limiter.
#[derive(Debug)]
pub struct RateLimiter {
    pub state: RateLimitState,
}

impl RateLimiter {
    /// A limiter that lets the first request go out at once, whenever it comes.
    pub fn new() -> (limiter: Self)
        ensures
            limiter.state.remaining == 1,
            limiter.state.reset_time == 0,
    {
        Self { state: RateLimitState::default() }
    }

    /// Decides at `now` whether the next request may go out at once. If quota is left
    /// and the window has not reset, one request is taken from the quota and the pause
    /// is zero. Otherwise the quota stays as it is and the caller has to pause until the
    /// window resets; the pause is never negative.
    pub fn wait(&mut self, now: u64) -> (pause: u128)
        ensures
            final(self).state == waited(old(self).state, now),
            pause == pause_of(old(self).state, now),
    {
        if self.state.remaining > 0 && self.state.reset_time > now as u128 {
            self.state.remaining = self.state.remaining - 1;
            return 0;
        }
        if self.state.reset_time > now as u128 {
            self.state.reset_time - now as u128
        } else {
            0
        }
    }

    /// Takes over what the two rate-limit header values of a response that arrived at
    /// `now` announce. `None` stands for a header that the response did not carry.
    pub fn apply(&mut self, remaining: &Option<Vec<u8>>, reset: &Option<Vec<u8>>, now: u64)
        ensures
            final(self).state == updated(
                old(self).state,
                remaining.deep_view(),
                reset.deep_view(),
                now,
            ),
    {
        if let Some(quota) = parse_quota(remaining) {
            self.state.remaining = quota;
        }
        if let Some(secs) = parse_delay(reset) {
            self.state.reset_time = now as u128 + secs as u128 * NANOS_PER_SECOND as u128;
        }
    }

    /// Reads the two rate-limit headers of a response that arrived at `now` and takes
    /// over what they announce.
    pub fn update(&mut self, headers: &HeaderMap, now: u64)
        ensures
            final(self).state == updated(
                old(self).state,
                value_at(header_values(*headers), HEADER_RATELIMIT_REMAINING@),
                value_at(header_values(*headers), HEADER_RATELIMIT_RESET@),
                now,
            ),
    {
        let remaining = header_bytes(headers, HEADER_RATELIMIT_REMAINING);
        let reset = header_bytes(headers, HEADER_RATELIMIT_RESET);
        self.apply(&remaining, &reset, now);
    }
}

} // verus!
