use absh::measurement::parse_measurement;
use absh::measurement::parse_u64;

#[test]
fn parses_unsigned_decimals() {
    assert_eq!(parse_u64("123"), Some(123));
    assert_eq!(parse_u64("+7"), Some(7));
    assert_eq!(parse_u64("0"), Some(0));
    assert_eq!(parse_u64("18446744073709551615"), Some(u64::MAX));
}

#[test]
fn rejects_malformed_numbers() {
    assert_eq!(parse_u64(""), None);
    assert_eq!(parse_u64("+"), None);
    assert_eq!(parse_u64("12a"), None);
    assert_eq!(parse_u64("-1"), None);
    assert_eq!(parse_u64(" 1"), None);
    assert_eq!(parse_u64("18446744073709551616"), None);
}

#[test]
fn measurement_output_is_trimmed() {
    assert_eq!(parse_measurement("  42\n"), Some(42));
    assert_eq!(parse_measurement("\t1048576 \n"), Some(1048576));
    assert_eq!(parse_measurement("4 2"), None);
    assert_eq!(parse_measurement("\n"), None);
}
