use rs_port_forward::decimal::parse_decimal_i64;
use rs_port_forward::stats::{
    parse_time, query_failure, stats_window, text_time_or_error, unix_time_or_error, StatsQuery,
    STATUS_BAD_REQUEST, STATUS_INTERNAL_ERROR, STATUS_UNAVAILABLE,
};

fn query(start: &str, end: &str) -> StatsQuery {
    StatsQuery { start: start.to_string(), end: end.to_string() }
}

#[test]
fn unix_seconds_are_taken_as_they_are() {
    assert_eq!(parse_time("1700000000"), Ok(1_700_000_000));
    assert_eq!(parse_time("0"), Ok(0));
    assert_eq!(parse_time("-1"), Ok(-1));
    assert_eq!(parse_time("+42"), Ok(42));
    assert_eq!(parse_time("0001431648000"), Ok(1_431_648_000));
}

#[test]
fn rfc3339_is_read_in_whole_seconds() {
    assert_eq!(parse_time("2023-11-14T22:13:20Z"), Ok(1_700_000_000));
    assert_eq!(parse_time("2023-11-14T22:13:20+00:00"), Ok(1_700_000_000));
    assert_eq!(parse_time("2023-11-15T00:13:20+02:00"), Ok(1_700_000_000));
    assert_eq!(parse_time("2023-11-14 22:13:20Z"), Ok(1_700_000_000));
    assert_eq!(parse_time("2023-11-14T22:13:20.750Z"), Ok(1_700_000_000));
    assert_eq!(parse_time("1970-01-01T00:00:00Z"), Ok(0));
    assert_eq!(parse_time("1969-12-31T23:59:59Z"), Ok(-1));
    assert_eq!(parse_time("2015-05-15T00:00:00Z"), Ok(1_431_648_000));
}

#[test]
fn unix_seconds_beyond_the_calendar_are_refused() {
    let refused = Err("invalid unix timestamp".to_string());
    assert_eq!(parse_time("9223372036854775807"), refused);
    assert_eq!(parse_time("-9223372036854775808"), refused);
    assert_eq!(parse_time("8210266876800"), refused);
    assert_eq!(parse_time("8210266876799"), Ok(8_210_266_876_799));
}

#[test]
fn other_text_is_refused_as_a_bad_format() {
    let refused = Err("invalid time format, use RFC3339 or unix seconds".to_string());
    for text in [
        "",
        "yesterday",
        "2023-11-14",
        "2023-11-14T22:13:20",
        "12:00",
        " 1700000000",
        "1700000000 ",
        "1_700_000_000",
        "1.5",
        "0x10",
        "+",
        "-",
        "--1",
        "9223372036854775808",
        "-9223372036854775809",
        "99999999999999999999999999999999999999999",
        "１２３",
    ] {
        assert_eq!(parse_time(text), refused, "for {:?}", text);
    }
}

#[test]
fn what_follows_the_calendar() {
    assert_eq!(unix_time_or_error(Some(5)), Ok(5));
    assert_eq!(unix_time_or_error(Some(i64::MIN)), Ok(i64::MIN));
    assert_eq!(unix_time_or_error(None), Err("invalid unix timestamp".to_string()));
    assert_eq!(text_time_or_error(Some(-5)), Ok(-5));
    assert_eq!(
        text_time_or_error(None),
        Err("invalid time format, use RFC3339 or unix seconds".to_string())
    );
}

#[test]
fn decimal_integers_are_read_as_std_reads_them() {
    for text in [
        "0",
        "-0",
        "+0",
        "7",
        "-7",
        "+7",
        "007",
        "-007",
        "1700000000",
        "9223372036854775807",
        "9223372036854775808",
        "-9223372036854775808",
        "-9223372036854775809",
        "+9223372036854775807",
        "00000000000000000000000000009223372036854775807",
        "92233720368547758070",
        "18446744073709551616",
        "340282366920938463463374607431768211456",
        "-340282366920938463463374607431768211456",
        "",
        "+",
        "-",
        "+-1",
        "-+1",
        "++1",
        "1-",
        "1+1",
        " 1",
        "1 ",
        "1\n",
        "\t1",
        "1_000",
        "1,000",
        "1.0",
        "1e3",
        "0x1f",
        "a",
        "12a",
        "a12",
        "٣",
        "１",
        "−1",
        "1\u{0}",
        "/",
        ":",
        "1/",
        "1:",
    ] {
        assert_eq!(parse_decimal_i64(text), text.parse::<i64>().ok(), "for {:?}", text);
    }
}

#[test]
fn decimal_integers_near_the_limits() {
    assert_eq!(parse_decimal_i64("9223372036854775807"), Some(i64::MAX));
    assert_eq!(parse_decimal_i64("-9223372036854775808"), Some(i64::MIN));
    assert_eq!(parse_decimal_i64("9223372036854775808"), None);
    assert_eq!(parse_decimal_i64("-9223372036854775809"), None);
    assert_eq!(parse_decimal_i64("-1"), Some(-1));
    assert_eq!(parse_decimal_i64("+15"), Some(15));
}

#[test]
fn request_with_two_good_times_gets_its_window() {
    let window = stats_window(&query("1700000000", "2023-11-14T23:13:20Z"), true);
    assert_eq!(window.ok(), Some((1_700_000_000, 1_700_003_600)));
    let window = stats_window(&query("20", "10"), true);
    assert_eq!(window.ok(), Some((20, 10)));
}

#[test]
fn request_with_a_bad_time_is_a_bad_request() {
    let failure = stats_window(&query("soon", "1700000000"), true).unwrap_err();
    assert_eq!(failure.status, 400);
    assert_eq!(failure.status, STATUS_BAD_REQUEST);
    assert_eq!(failure.message, "invalid time format, use RFC3339 or unix seconds");

    let failure = stats_window(&query("1700000000", "9223372036854775807"), true).unwrap_err();
    assert_eq!(failure.status, 400);
    assert_eq!(failure.message, "invalid unix timestamp");

    let failure = stats_window(&query("9223372036854775807", "later"), true).unwrap_err();
    assert_eq!(failure.status, 400);
    assert_eq!(failure.message, "invalid unix timestamp");
}

#[test]
fn bad_time_is_reported_before_the_missing_store() {
    let failure = stats_window(&query("1", "x"), false).unwrap_err();
    assert_eq!(failure.status, 400);
}

#[test]
fn request_without_a_store_is_unavailable() {
    let failure = stats_window(&query("1", "2"), false).unwrap_err();
    assert_eq!(failure.status, 503);
    assert_eq!(failure.status, STATUS_UNAVAILABLE);
    assert_eq!(failure.message, "database is not configured");
}

#[test]
fn failed_query_is_an_internal_error() {
    let failure = query_failure("disk I/O error".to_string());
    assert_eq!(failure.status, 500);
    assert_eq!(failure.status, STATUS_INTERNAL_ERROR);
    assert_eq!(failure.message, "disk I/O error");
}
