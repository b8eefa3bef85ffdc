use zenbook_fanctl::decimal::{digit_of, parse_number};
use zenbook_fanctl::temperature::{
    get_thermal_zone_temp, parse_millidegrees, ReadError, MILLIDEGREES_PER_DEGREE,
};

#[test]
fn millidegrees_are_floored_to_degrees() {
    assert_eq!(parse_millidegrees("45231"), Ok(45));
    assert_eq!(parse_millidegrees("0"), Ok(0));
    assert_eq!(parse_millidegrees("999"), Ok(0));
    assert_eq!(parse_millidegrees("1000"), Ok(1));
    assert_eq!(parse_millidegrees("89999"), Ok(89));
    assert_eq!(parse_millidegrees("90000"), Ok(90));
}

#[test]
fn millidegrees_with_white_space_around() {
    assert_eq!(parse_millidegrees("45231\n"), Ok(45));
    assert_eq!(parse_millidegrees("  61000\r\n"), Ok(61));
}

#[test]
fn millidegrees_with_a_plus_sign_or_leading_zeros() {
    assert_eq!(parse_millidegrees("+5000"), Ok(5));
    assert_eq!(parse_millidegrees("0005000"), Ok(5));
    assert_eq!(parse_millidegrees("00000000000000000000000000090000"), Ok(90));
}

#[test]
fn millidegrees_at_the_limit_of_64_bits() {
    assert_eq!(parse_millidegrees("18446744073709551615"), Ok(18446744073709551));
    assert_eq!(parse_millidegrees("18446744073709551616"), Err(ReadError::Parse));
    assert_eq!(parse_millidegrees("99999999999999999999"), Err(ReadError::Parse));
    assert_eq!(parse_millidegrees("184467440737095516150"), Err(ReadError::Parse));
}

#[test]
fn text_that_is_no_number_is_a_parse_error() {
    for text in ["", " ", "\n", "abc", "-1", "-0", "+", "-", "++1", "1 2", "12a", "a12", "1.5", "4_5", "０", "٣"] {
        assert_eq!(parse_millidegrees(text), Err(ReadError::Parse), "{:?}", text);
    }
}

#[test]
fn a_failed_read_is_an_io_error() {
    assert_eq!(get_thermal_zone_temp(None), Err(ReadError::Io));
}

#[test]
fn thermal_zone_temp_of_attribute_text() {
    assert_eq!(get_thermal_zone_temp(Some("45231\n")), Ok(45));
    assert_eq!(get_thermal_zone_temp(Some("95000\n")), Ok(95));
    assert_eq!(get_thermal_zone_temp(Some("hot\n")), Err(ReadError::Parse));
}

#[test]
fn every_number_reads_back_from_its_digits() {
    for m in [0u64, 1, 9, 10, 999, 1000, 1001, 45231, 89999, 90000, 123456789, u64::MAX - 1, u64::MAX] {
        assert_eq!(parse_millidegrees(&m.to_string()), Ok(m / 1000));
        assert_eq!(parse_millidegrees(&format!("{}\n", m)), Ok(m / 1000));
        assert_eq!(parse_number(&m.to_string()), Some(m));
    }
}

#[test]
fn parse_number_agrees_with_std() {
    for text in [
        "", "0", "7", "+7", "-7", "+", "-", "007", "+007", "18446744073709551615",
        "18446744073709551616", "+18446744073709551615", " 1", "1 ", "1\n", "1e3", "0x10", "١٢",
        "12345678901234567890123", "+-1", "1+", "9223372036854775808",
    ] {
        assert_eq!(parse_number(text), text.parse::<u64>().ok(), "{:?}", text);
    }
}

#[test]
fn digit_of_knows_the_ten_digits() {
    assert_eq!(digit_of('0'), Some(0));
    assert_eq!(digit_of('5'), Some(5));
    assert_eq!(digit_of('9'), Some(9));
    assert_eq!(digit_of('/'), None);
    assert_eq!(digit_of(':'), None);
    assert_eq!(digit_of('a'), None);
    assert_eq!(digit_of('٣'), None);
}

#[test]
fn a_degree_is_a_thousand_millidegrees() {
    assert_eq!(MILLIDEGREES_PER_DEGREE, 1000);
}
