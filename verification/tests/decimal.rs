use mktdt::decimal::Decimal;

#[test]
fn parse_empty_is_zero() {
    let d = Decimal::parse("");
    assert_eq!(d.mantissa(), 0);
    assert_eq!(d.scale(), 0);
    assert_eq!(d.to_i64(), 0);
}

#[test]
fn parse_letters_is_zero() {
    let d = Decimal::parse("abc");
    assert_eq!(d.mantissa(), 0);
    assert_eq!(d.scale(), 0);
}

#[test]
fn parse_negative_fraction() {
    let d = Decimal::parse("-12.50");
    assert_eq!(d.mantissa(), -1250);
    assert_eq!(d.scale(), 2);
}

#[test]
fn parse_integer_has_scale_zero() {
    let d = Decimal::parse("12345");
    assert_eq!(d.mantissa(), 12345);
    assert_eq!(d.scale(), 0);
    assert_eq!(d.to_i64(), 12345 * 256);
}

#[test]
fn parse_trailing_dot_has_scale_zero() {
    let d = Decimal::parse("7.");
    assert_eq!(d.mantissa(), 7);
    assert_eq!(d.scale(), 0);
}

#[test]
fn pack_puts_scale_in_low_byte() {
    let d = Decimal::parse("-12.50");
    let packed = d.to_i64();
    assert_eq!(packed, -319_998);
    assert_eq!(packed & 0xff, 2);
    assert_eq!(packed >> 8, -1250);
}

#[test]
fn pack_of_positive_decimal() {
    let d = Decimal::parse("2000.5");
    assert_eq!(d.mantissa(), 20005);
    assert_eq!(d.scale(), 1);
    assert_eq!(d.to_i64(), 20005 * 256 + 1);
}

#[test]
fn second_dot_does_not_restart_the_scale() {
    let d = Decimal::parse("1.2.3");
    assert_eq!(d.mantissa(), 123);
    assert_eq!(d.scale(), 2);
}

#[test]
fn minus_anywhere_negates_once() {
    assert_eq!(Decimal::parse("12-3").mantissa(), -123);
    assert_eq!(Decimal::parse("--5").mantissa(), -5);
    assert_eq!(Decimal::parse("5-").mantissa(), -5);
}

#[test]
fn other_bytes_are_skipped() {
    let d = Decimal::parse(" 1,234.5x6 ");
    assert_eq!(d.mantissa(), 1_234_56);
    assert_eq!(d.scale(), 2);
}

#[test]
fn parse_bytes_agrees_with_parse() {
    let a = Decimal::parse("10.25");
    let b = Decimal::parse_bytes(b"10.25");
    assert_eq!(a, b);
    assert_eq!(b.mantissa(), 1025);
    assert_eq!(b.scale(), 2);
}

#[test]
fn mantissa_wraps_in_64_bits() {
    let d = Decimal::parse("99999999999999999999");
    assert_eq!(d.mantissa(), 7_766_279_631_452_241_919);
    assert_eq!(d.scale(), 0);
}

#[test]
fn scale_saturates() {
    let mut token = String::from("0.");
    for _ in 0..300 {
        token.push('0');
    }
    let d = Decimal::parse(&token);
    assert_eq!(d.mantissa(), 0);
    assert_eq!(d.scale(), 255);
    let mut exact = String::from("1.");
    for _ in 0..254 {
        exact.push('0');
    }
    assert_eq!(Decimal::parse(&exact).scale(), 254);
}

#[test]
fn largest_mantissa_is_exact() {
    let d = Decimal::parse("9223372036854775807");
    assert_eq!(d.mantissa(), i64::MAX);
    let n = Decimal::parse("-9223372036854775807");
    assert_eq!(n.mantissa(), -i64::MAX);
}
