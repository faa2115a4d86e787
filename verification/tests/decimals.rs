use stats_exporter::decimal::Decimal;

fn text_of(literal: &str) -> String {
    Decimal::parse(literal).expect("a decimal literal").to_text()
}

#[test]
fn parse_reads_plain_integers_and_fractions() {
    assert_eq!(text_of("650"), "650");
    assert_eq!(text_of("12.3"), "12.3");
    assert_eq!(text_of("0"), "0");
    assert_eq!(text_of("1.2"), "1.2");
}

#[test]
fn parse_keeps_digits_and_scale() {
    let d = Decimal::parse("12.30").unwrap();
    assert_eq!(d.digits(), vec![1u8, 2, 3, 0]);
    assert_eq!(d.scale(), 2);
    assert!(!d.is_negative());
    let e = Decimal::parse("-7").unwrap();
    assert_eq!(e.digits(), vec![7u8]);
    assert_eq!(e.scale(), 0);
    assert!(e.is_negative());
}

#[test]
fn text_is_canonical() {
    assert_eq!(text_of("0.50"), "0.5");
    assert_eq!(text_of("007"), "7");
    assert_eq!(text_of("30.0"), "30");
    assert_eq!(text_of("000.000"), "0");
    assert_eq!(text_of("0010.0100"), "10.01");
}

#[test]
fn parse_accepts_a_point_at_either_end() {
    assert_eq!(text_of(".5"), "0.5");
    assert_eq!(text_of("5."), "5");
    assert_eq!(text_of("-.25"), "-0.25");
}

#[test]
fn parse_accepts_a_sign() {
    assert_eq!(text_of("-1.5"), "-1.5");
    assert_eq!(text_of("+3"), "3");
    assert_eq!(text_of("-0"), "-0");
}

#[test]
fn parse_rejects_what_is_no_literal() {
    for bad in [
        "", ".", "-", "+", "-.", "1.2.3", "1,000", "1 2", "12a", "a12", "--1", "+-1", "1-", " 1",
        "1 ", "%",
    ] {
        assert!(Decimal::parse(bad).is_none(), "{:?} was accepted", bad);
    }
}

#[test]
fn parse_rejects_exponents_and_special_values() {
    for bad in ["1e5", "1E5", "1.5e-3", "inf", "-inf", "infinity", "NaN", "nan"] {
        assert!(Decimal::parse(bad).is_none(), "{:?} was accepted", bad);
    }
}

#[test]
fn parse_is_exact_for_long_literals() {
    let long = "123456789012345678901234567890.123456789012345678901234567891";
    assert_eq!(text_of(long), long);
}

#[test]
fn times_pow10_moves_the_point() {
    let d = Decimal::parse("1.2345").unwrap().times_pow10(3);
    assert_eq!(d.to_text(), "1234.5");
    assert_eq!(d.scale(), 1);
    let e = Decimal::parse("0.05").unwrap().times_pow10(3);
    assert_eq!(e.to_text(), "50");
    assert_eq!(e.digits(), vec![0u8, 0, 5, 0]);
    assert_eq!(e.scale(), 0);
}

#[test]
fn times_pow10_by_zero_places_changes_nothing() {
    let d = Decimal::parse("-12.5").unwrap().times_pow10(0);
    assert_eq!(d.to_text(), "-12.5");
    assert_eq!(d.scale(), 1);
    assert_eq!(d.digits(), vec![1u8, 2, 5]);
}

#[test]
fn times_pow10_appends_zeros() {
    let d = Decimal::parse("7").unwrap().times_pow10(12);
    assert_eq!(d.to_text(), "7000000000000");
    let e = Decimal::parse("-2.5").unwrap().times_pow10(6);
    assert_eq!(e.to_text(), "-2500000");
}

#[test]
fn zero_is_zero() {
    let z = Decimal::zero();
    assert_eq!(z.to_text(), "0");
    assert_eq!(z.digits(), vec![0u8]);
    assert_eq!(z.scale(), 0);
    assert!(!z.is_negative());
}

#[test]
fn duplicate_is_the_same_number() {
    let d = Decimal::parse("-3.14").unwrap();
    let e = d.duplicate();
    assert_eq!(e.to_text(), "-3.14");
    assert_eq!(e.digits(), d.digits());
    assert_eq!(e.scale(), d.scale());
    assert_eq!(e.is_negative(), d.is_negative());
}

#[test]
fn text_agrees_with_the_float_of_the_same_literal() {
    for literal in ["5.5", "30.0", "0.05", "1200", "3400000", "0", "12.3", "-1.5", "100.25"] {
        let float: f64 = literal.parse().unwrap();
        assert_eq!(text_of(literal), float.to_string(), "for {:?}", literal);
    }
}

#[test]
fn text_reads_back_as_the_same_number() {
    for literal in ["0.50", "007", "-0.0", ".5", "5.", "+12.340", "1000", "0.001"] {
        let text = text_of(literal);
        assert_eq!(text_of(&text), text, "for {:?}", literal);
        let a: f64 = literal.parse().unwrap();
        let b: f64 = text.parse().unwrap();
        assert_eq!(a, b, "for {:?}", literal);
    }
}
