use reqwest::header::{HeaderMap, HeaderValue};
use rspd::rate_limiter::{
    parse_delay, parse_quota, RateLimitState, RateLimiter, HEADER_RATELIMIT_REMAINING,
    HEADER_RATELIMIT_RESET, NANOS_PER_SECOND,
};

fn bytes(text: &str) -> Option<Vec<u8>> {
    Some(text.as_bytes().to_vec())
}

fn headers(remaining: Option<&'static str>, reset: Option<&'static str>) -> HeaderMap {
    let mut map = HeaderMap::new();
    if let Some(value) = remaining {
        map.insert(HEADER_RATELIMIT_REMAINING, HeaderValue::from_static(value));
    }
    if let Some(value) = reset {
        map.insert(HEADER_RATELIMIT_RESET, HeaderValue::from_static(value));
    }
    map
}

#[test]
fn new_limiter_allows_the_first_call_at_once() {
    let mut limiter = RateLimiter::new();
    assert_eq!(limiter.state, RateLimitState { remaining: 1, reset_time: 0 });
    assert_eq!(limiter.state, RateLimitState::default());
    assert_eq!(limiter.wait(0), 0);
    assert_eq!(limiter.wait(5), 0);
    assert_eq!(limiter.state.remaining, 1);
}

#[test]
fn wait_takes_one_from_the_quota_while_the_window_is_open() {
    let mut limiter = RateLimiter { state: RateLimitState { remaining: 2, reset_time: 1_000 } };
    assert_eq!(limiter.wait(10), 0);
    assert_eq!(limiter.state, RateLimitState { remaining: 1, reset_time: 1_000 });
    assert_eq!(limiter.wait(20), 0);
    assert_eq!(limiter.state, RateLimitState { remaining: 0, reset_time: 1_000 });
}

#[test]
fn wait_pauses_until_reset_when_the_quota_is_spent() {
    let mut limiter = RateLimiter { state: RateLimitState { remaining: 0, reset_time: 1_000 } };
    assert_eq!(limiter.wait(400), 600);
    assert_eq!(limiter.state, RateLimitState { remaining: 0, reset_time: 1_000 });
}

#[test]
fn wait_never_pauses_for_a_negative_time() {
    let mut limiter = RateLimiter { state: RateLimitState { remaining: 0, reset_time: 1_000 } };
    assert_eq!(limiter.wait(1_000), 0);
    assert_eq!(limiter.wait(5_000), 0);
    assert_eq!(limiter.state.remaining, 0);
}

#[test]
fn wait_leaves_the_quota_alone_once_the_window_has_reset() {
    let mut limiter = RateLimiter { state: RateLimitState { remaining: 7, reset_time: 1_000 } };
    assert_eq!(limiter.wait(1_000), 0);
    assert_eq!(limiter.state.remaining, 7);
}

#[test]
fn update_reads_both_headers() {
    let mut limiter = RateLimiter::new();
    let now: u64 = 5 * NANOS_PER_SECOND;
    limiter.update(&headers(Some("97.0"), Some("30")), now);
    assert_eq!(limiter.state.remaining, 97);
    assert_eq!(limiter.state.reset_time, 35 * NANOS_PER_SECOND as u128);
}

#[test]
fn update_without_headers_changes_nothing() {
    let mut limiter = RateLimiter { state: RateLimitState { remaining: 12, reset_time: 77 } };
    limiter.update(&HeaderMap::new(), 1_000_000);
    assert_eq!(limiter.state, RateLimitState { remaining: 12, reset_time: 77 });
}

#[test]
fn update_keeps_a_field_whose_header_does_not_parse() {
    let mut limiter = RateLimiter { state: RateLimitState { remaining: 12, reset_time: 77 } };
    limiter.update(&headers(Some("many"), Some("2")), 10);
    assert_eq!(limiter.state.remaining, 12);
    assert_eq!(limiter.state.reset_time, 10 + 2 * NANOS_PER_SECOND as u128);
    limiter.update(&headers(Some("3"), Some("2.5")), 20);
    assert_eq!(limiter.state.remaining, 3);
    assert_eq!(limiter.state.reset_time, 10 + 2 * NANOS_PER_SECOND as u128);
}

#[test]
fn update_finds_headers_whatever_their_case() {
    let mut map = HeaderMap::new();
    map.insert("X-Ratelimit-Remaining", HeaderValue::from_static("41"));
    let mut limiter = RateLimiter::new();
    limiter.update(&map, 0);
    assert_eq!(limiter.state.remaining, 41);
}

#[test]
fn update_takes_the_first_of_several_values() {
    let mut map = HeaderMap::new();
    map.append(HEADER_RATELIMIT_REMAINING, HeaderValue::from_static("8"));
    map.append(HEADER_RATELIMIT_REMAINING, HeaderValue::from_static("9"));
    let mut limiter = RateLimiter::new();
    limiter.update(&map, 0);
    assert_eq!(limiter.state.remaining, 8);
}

#[test]
fn update_skips_a_value_that_is_no_text() {
    let mut map = HeaderMap::new();
    map.insert(HEADER_RATELIMIT_REMAINING, HeaderValue::from_bytes(b"97.\x80").unwrap());
    let mut limiter = RateLimiter::new();
    limiter.update(&map, 0);
    assert_eq!(limiter.state.remaining, 1);
}

#[test]
fn update_with_the_largest_delay_does_not_overflow() {
    let mut limiter = RateLimiter::new();
    limiter.update(&headers(Some("0"), Some("18446744073709551615")), u64::MAX);
    assert_eq!(
        limiter.state.reset_time,
        u64::MAX as u128 + u64::MAX as u128 * 1_000_000_000
    );
    assert_eq!(limiter.wait(u64::MAX), u64::MAX as u128 * 1_000_000_000);
}

#[test]
fn apply_agrees_with_update() {
    let mut limiter = RateLimiter::new();
    limiter.apply(&bytes("97.0"), &bytes("30"), 1);
    assert_eq!(limiter.state, RateLimitState { remaining: 97, reset_time: 30_000_000_001 });
    limiter.apply(&None, &None, 2);
    assert_eq!(limiter.state, RateLimitState { remaining: 97, reset_time: 30_000_000_001 });
}

#[test]
fn quota_is_the_integer_portion() {
    assert_eq!(parse_quota(&bytes("97.0")), Some(97));
    assert_eq!(parse_quota(&bytes("97")), Some(97));
    assert_eq!(parse_quota(&bytes("97.9.1")), Some(97));
    assert_eq!(parse_quota(&bytes("97.")), Some(97));
    assert_eq!(parse_quota(&bytes("0097.5")), Some(97));
    assert_eq!(parse_quota(&bytes("+97.5")), Some(97));
    assert_eq!(parse_quota(&bytes("0")), Some(0));
    assert_eq!(parse_quota(&bytes("4294967295.0")), Some(u32::MAX));
}

#[test]
fn quota_rejects_what_is_no_number() {
    assert_eq!(parse_quota(&None), None);
    assert_eq!(parse_quota(&bytes("")), None);
    assert_eq!(parse_quota(&bytes(".5")), None);
    assert_eq!(parse_quota(&bytes("+")), None);
    assert_eq!(parse_quota(&bytes("-3")), None);
    assert_eq!(parse_quota(&bytes("++3")), None);
    assert_eq!(parse_quota(&bytes(" 3")), None);
    assert_eq!(parse_quota(&bytes("3 ")), None);
    assert_eq!(parse_quota(&bytes("12a")), None);
    assert_eq!(parse_quota(&bytes("4294967296")), None);
    assert_eq!(parse_quota(&bytes("99999999999999999999999")), None);
    assert_eq!(parse_quota(&Some(vec![53, 46, 200])), None);
}

#[test]
fn quota_agrees_with_the_standard_parser() {
    let samples = [
        "97.0", "97", "", ".", "+", "+0", "-0", "007", "1e3", "4294967295", "4294967296",
        "12.34.56", "+12.x", "0x10", "٣", "1_000",
    ];
    for text in samples {
        let expected = text.split('.').next().unwrap_or("").parse::<u32>().ok();
        assert_eq!(parse_quota(&bytes(text)), expected, "{:?}", text);
    }
}

#[test]
fn delay_is_a_whole_number_of_seconds() {
    assert_eq!(parse_delay(&bytes("30")), Some(30));
    assert_eq!(parse_delay(&bytes("+30")), Some(30));
    assert_eq!(parse_delay(&bytes("18446744073709551615")), Some(u64::MAX));
    assert_eq!(parse_delay(&bytes("18446744073709551616")), None);
    assert_eq!(parse_delay(&bytes("30.0")), None);
    assert_eq!(parse_delay(&bytes("")), None);
    assert_eq!(parse_delay(&None), None);
}

#[test]
fn delay_agrees_with_the_standard_parser() {
    let samples = ["30", "", "+", "+1", "-1", "3.5", "18446744073709551615", "18446744073709551616", "00", "1 "];
    for text in samples {
        assert_eq!(parse_delay(&bytes(text)), text.parse::<u64>().ok(), "{:?}", text);
    }
}
