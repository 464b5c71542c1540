use knot_control::knot_time_parse;

#[test]
fn knot_time() {
    assert_eq!(knot_time_parse("0"), Some(0));
    assert_eq!(knot_time_parse("+23h57m29s"), Some(86249));
    assert_eq!(knot_time_parse("+6D23h37m28s"), Some(603448));
    assert_eq!(knot_time_parse("+68Y1M5D2h51m34s"), Some(2147482294));
}

#[test]
fn each_unit_has_its_seconds() {
    assert_eq!(knot_time_parse("+1Y"), Some(31536000));
    assert_eq!(knot_time_parse("+1M"), Some(2592000));
    assert_eq!(knot_time_parse("+1D"), Some(86400));
    assert_eq!(knot_time_parse("+1h"), Some(3600));
    assert_eq!(knot_time_parse("+1m"), Some(60));
    assert_eq!(knot_time_parse("+1s"), Some(1));
    assert_eq!(knot_time_parse("+2Y"), Some(63072000));
    assert_eq!(knot_time_parse("+0s"), Some(0));
}

#[test]
fn order_of_units_does_not_matter() {
    assert_eq!(knot_time_parse("+29s57m23h"), Some(86249));
    assert_eq!(knot_time_parse("+57m29s23h"), Some(86249));
    assert_eq!(knot_time_parse("+34s51m2h5D1M68Y"), Some(2147482294));
}

#[test]
fn repeated_units_accumulate() {
    assert_eq!(knot_time_parse("+1h1h"), Some(7200));
    assert_eq!(knot_time_parse("+30s30s1m"), Some(120));
    assert_eq!(knot_time_parse("+1D1D1D"), Some(259200));
}

#[test]
fn leading_zeros_are_digits() {
    assert_eq!(knot_time_parse("+007s"), Some(7));
    assert_eq!(knot_time_parse("+00h01m"), Some(60));
}

#[test]
fn state_words_have_no_value() {
    assert_eq!(knot_time_parse("running"), None);
    assert_eq!(knot_time_parse("not scheduled"), None);
    assert_eq!(knot_time_parse("frozen"), None);
    assert_eq!(knot_time_parse("pending"), None);
}

#[test]
fn a_text_without_the_sign_has_no_value() {
    assert_eq!(knot_time_parse(""), None);
    assert_eq!(knot_time_parse("23h57m29s"), None);
    assert_eq!(knot_time_parse("5"), None);
    assert_eq!(knot_time_parse("00"), None);
    assert_eq!(knot_time_parse("-5s"), None);
    assert_eq!(knot_time_parse(" +5s"), None);
    assert_eq!(knot_time_parse("s"), None);
}

#[test]
fn a_text_that_matches_in_part_has_no_value() {
    assert_eq!(knot_time_parse("+"), None);
    assert_eq!(knot_time_parse("+5"), None);
    assert_eq!(knot_time_parse("+h"), None);
    assert_eq!(knot_time_parse("+5x"), None);
    assert_eq!(knot_time_parse("+5S"), None);
    assert_eq!(knot_time_parse("+5s "), None);
    assert_eq!(knot_time_parse("+5s3"), None);
    assert_eq!(knot_time_parse("+5ms"), None);
    assert_eq!(knot_time_parse("+5s+5s"), None);
    assert_eq!(knot_time_parse("+5 s"), None);
    assert_eq!(knot_time_parse("+1h!"), None);
    assert_eq!(knot_time_parse("++1h"), None);
}

#[test]
fn a_text_outside_ascii_has_no_value() {
    assert_eq!(knot_time_parse("+5\u{455}"), None);
    assert_eq!(knot_time_parse("+\u{663}s"), None);
    assert_eq!(knot_time_parse("\u{ff0b}5s"), None);
}

#[test]
fn a_sum_beyond_64_bits_has_no_value() {
    assert_eq!(knot_time_parse("+18446744073709551615s"), Some(u64::MAX));
    assert_eq!(knot_time_parse("+18446744073709551616s"), None);
    assert_eq!(knot_time_parse("+18446744073709551615s1s"), None);
    assert_eq!(knot_time_parse("+18446744073709551614s1s"), Some(u64::MAX));
    assert_eq!(knot_time_parse("+584942417355Y"), Some(584942417355 * 31536000));
    assert_eq!(knot_time_parse("+584942417356Y"), None);
    assert_eq!(knot_time_parse("+99999999999999999999999999s"), None);
    assert_eq!(knot_time_parse("+99999999999999999999999999x"), None);
}
