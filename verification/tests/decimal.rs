use rs_port_forward::decimal::{parse_decimal_i64, push_decimal};

fn decimal(n: u64) -> String {
    let mut text = String::new();
    push_decimal(&mut text, n);
    text
}

#[test]
fn numbers_are_written_without_leading_zeros() {
    assert_eq!(decimal(0), "0");
    assert_eq!(decimal(7), "7");
    assert_eq!(decimal(9), "9");
    assert_eq!(decimal(10), "10");
    assert_eq!(decimal(99), "99");
    assert_eq!(decimal(100), "100");
    assert_eq!(decimal(1234567890), "1234567890");
    assert_eq!(decimal(65535), "65535");
    assert_eq!(decimal(u64::MAX), "18446744073709551615");
}

#[test]
fn numbers_are_written_as_std_writes_them() {
    let mut n: u64 = 1;
    for _ in 0..64 {
        assert_eq!(decimal(n), n.to_string());
        assert_eq!(decimal(n - 1), (n - 1).to_string());
        n = n.wrapping_mul(2);
    }
}

#[test]
fn number_is_written_behind_the_text() {
    let mut text = "port ".to_string();
    push_decimal(&mut text, 8080);
    assert_eq!(text, "port 8080");
    push_decimal(&mut text, 0);
    assert_eq!(text, "port 80800");
}

#[test]
fn written_numbers_are_read_back() {
    for n in [0u64, 1, 9, 10, 11, 12345, i64::MAX as u64] {
        assert_eq!(parse_decimal_i64(&decimal(n)), Some(n as i64));
    }
    assert_eq!(parse_decimal_i64(&decimal(i64::MAX as u64 + 1)), None);
}
