use stats_exporter::error::ApiError;
use stats_exporter::parse::{
    parse_io_str, parse_netio_str, parse_percent, size_from_parts, split_netio, unit_start,
};

fn size(text: &str) -> String {
    parse_io_str(text.to_string()).expect("a size").to_text()
}

fn float_of(text: &str) -> f64 {
    text.parse().unwrap()
}

fn is_leaf_parse_failure(e: &ApiError, expected: &str) -> bool {
    matches!(e, ApiError::Parse { text, origin: None } if text == expected)
}

#[test]
fn size_of_bytes() {
    assert_eq!(size("650B"), "650");
    assert_eq!(float_of(&size("650B")), 650.0);
}

#[test]
fn size_of_megabytes() {
    assert_eq!(size("1.2MB"), "1200000");
    assert_eq!(float_of(&size("1.2MB")), 1_200_000.0);
}

#[test]
fn size_with_one_letter_unit() {
    assert_eq!(size("5B"), "5");
}

#[test]
fn size_without_magnitude_fails() {
    let e = parse_io_str("B".to_string()).unwrap_err();
    assert!(is_leaf_parse_failure(&e, "B"), "{:?}", e);
}

#[test]
fn size_without_unit_fails() {
    let e = parse_io_str("5".to_string()).unwrap_err();
    assert!(is_leaf_parse_failure(&e, "5"), "{:?}", e);
}

#[test]
fn empty_size_fails() {
    let e = parse_io_str(String::new()).unwrap_err();
    assert!(is_leaf_parse_failure(&e, ""), "{:?}", e);
}

#[test]
fn size_with_bad_magnitude_fails() {
    for bad in ["1,5kB", "1.2.3MB", "1 kB", "-B", ".B", "0x10B", "1.5%B"] {
        let e = parse_io_str(bad.to_string()).unwrap_err();
        assert!(is_leaf_parse_failure(&e, bad), "{:?} gave {:?}", bad, e);
    }
}

#[test]
fn size_with_unknown_unit_names_the_unit() {
    match parse_io_str("5XB".to_string()) {
        Err(ApiError::UnrecognizedUnit { unit }) => assert_eq!(unit, "XB"),
        other => panic!("unexpected: {:?}", other),
    }
    match parse_io_str("1.5kb".to_string()) {
        Err(ApiError::UnrecognizedUnit { unit }) => assert_eq!(unit, "kb"),
        other => panic!("unexpected: {:?}", other),
    }
    match parse_io_str("12MiB".to_string()) {
        Err(ApiError::UnrecognizedUnit { unit }) => assert_eq!(unit, "MiB"),
        other => panic!("unexpected: {:?}", other),
    }
}

#[test]
fn unit_is_the_longest_run_of_letters() {
    match parse_io_str("5e3kB".to_string()) {
        Ok(d) => panic!("unexpected: {}", d.to_text()),
        Err(e) => assert!(is_leaf_parse_failure(&e, "5e3kB"), "{:?}", e),
    }
    match parse_io_str("infB".to_string()) {
        Ok(d) => panic!("unexpected: {}", d.to_text()),
        Err(e) => assert!(is_leaf_parse_failure(&e, "infB"), "{:?}", e),
    }
}

#[test]
fn letters_beyond_ascii_belong_to_the_unit() {
    match parse_io_str("5\u{b5}B".to_string()) {
        Err(ApiError::UnrecognizedUnit { unit }) => assert_eq!(unit, "\u{b5}B"),
        other => panic!("unexpected: {:?}", other),
    }
    match parse_io_str("5\u{e9}".to_string()) {
        Err(ApiError::UnrecognizedUnit { unit }) => assert_eq!(unit, "\u{e9}"),
        other => panic!("unexpected: {:?}", other),
    }
}

#[test]
fn negative_size_is_accepted() {
    assert_eq!(size("-1.5kB"), "-1500");
}

#[test]
fn percent_is_not_rescaled() {
    let d = parse_percent("12.3%").unwrap();
    assert_eq!(d.to_text(), "12.3");
    assert_eq!(float_of(&d.to_text()), 12.3);
}

#[test]
fn zero_percent() {
    let d = parse_percent("0%").unwrap();
    assert_eq!(d.to_text(), "0");
    assert_eq!(float_of(&d.to_text()), 0.0);
}

#[test]
fn percent_without_sign_fails() {
    let e = parse_percent("12.3").unwrap_err();
    assert!(is_leaf_parse_failure(&e, "12.3"), "{:?}", e);
}

#[test]
fn percent_removes_exactly_one_sign() {
    let e = parse_percent("12%%").unwrap_err();
    assert!(is_leaf_parse_failure(&e, "12%%"), "{:?}", e);
}

#[test]
fn percent_with_bad_number_fails() {
    for bad in ["%", "", "abc%", "1.2.3%", "12 %", "% 12", "1e2%", "NaN%", "inf%"] {
        let e = parse_percent(bad).unwrap_err();
        assert!(is_leaf_parse_failure(&e, bad), "{:?} gave {:?}", bad, e);
    }
}

#[test]
fn negative_percent_is_accepted() {
    assert_eq!(parse_percent("-4.50%").unwrap().to_text(), "-4.5");
}

#[test]
fn net_io_left_is_outbound_and_right_is_inbound() {
    let (inbound, outbound) = parse_netio_str("650B / 1.5kB").unwrap();
    assert_eq!(inbound.to_text(), "1500");
    assert_eq!(outbound.to_text(), "650");
    assert_eq!(float_of(&inbound.to_text()), 1500.0);
    assert_eq!(float_of(&outbound.to_text()), 650.0);
}

#[test]
fn net_io_without_separator_fails() {
    let e = parse_netio_str("650B").unwrap_err();
    assert!(is_leaf_parse_failure(&e, "650B"), "{:?}", e);
}

#[test]
fn net_io_needs_the_spaces_of_the_separator() {
    for bad in ["650B/1.5kB", "650B /1.5kB", "650B/ 1.5kB", "650B  1.5kB", ""] {
        let e = parse_netio_str(bad).unwrap_err();
        assert!(is_leaf_parse_failure(&e, bad), "{:?} gave {:?}", bad, e);
    }
}

#[test]
fn net_io_with_an_empty_segment_fails() {
    for bad in [" / 1.5kB", "650B / ", " / "] {
        let e = parse_netio_str(bad).unwrap_err();
        assert!(is_leaf_parse_failure(&e, bad), "{:?} gave {:?}", bad, e);
    }
}

#[test]
fn net_io_with_three_segments_fails() {
    let e = parse_netio_str("1B / 2B / 3B").unwrap_err();
    assert!(is_leaf_parse_failure(&e, "1B / 2B / 3B"), "{:?}", e);
}

#[test]
fn net_io_failure_of_a_segment_is_that_segments_failure() {
    match parse_netio_str("650B / 1.5XB") {
        Err(ApiError::UnrecognizedUnit { unit }) => assert_eq!(unit, "XB"),
        other => panic!("unexpected: {:?}", other.map(|(a, b)| (a.to_text(), b.to_text()))),
    }
    let e = parse_netio_str("650 / 1.5kB").unwrap_err();
    assert!(is_leaf_parse_failure(&e, "650"), "{:?}", e);
    let e = parse_netio_str("650B / kB").unwrap_err();
    assert!(is_leaf_parse_failure(&e, "kB"), "{:?}", e);
}

#[test]
fn net_io_reads_the_left_segment_first() {
    match parse_netio_str("1QB / 2ZB") {
        Err(ApiError::UnrecognizedUnit { unit }) => assert_eq!(unit, "QB"),
        other => panic!("unexpected: {:?}", other.map(|(a, b)| (a.to_text(), b.to_text()))),
    }
}

#[test]
fn net_io_splits_at_the_first_separator() {
    let e = parse_netio_str("1B / / 2B").unwrap_err();
    assert!(is_leaf_parse_failure(&e, "/ 2B"), "{:?}", e);
}

#[test]
fn unit_start_is_where_the_letters_at_the_end_start() {
    let chars: Vec<char> = "1.2MB".chars().collect();
    assert_eq!(unit_start(&chars), 3);
    let chars: Vec<char> = "12".chars().collect();
    assert_eq!(unit_start(&chars), 2);
    let chars: Vec<char> = "kB".chars().collect();
    assert_eq!(unit_start(&chars), 0);
    let chars: Vec<char> = "a1b2cd".chars().collect();
    assert_eq!(unit_start(&chars), 4);
    assert_eq!(unit_start(&Vec::new()), 0);
}

#[test]
fn size_from_parts_converts_the_magnitude() {
    let magnitude: Vec<char> = "1.2".chars().collect();
    let d = size_from_parts("1.2MB", &magnitude, "MB".to_string()).unwrap();
    assert_eq!(d.to_text(), "1200000");
}

#[test]
fn size_from_parts_fails_with_the_whole_text() {
    let magnitude: Vec<char> = "5".chars().collect();
    let e = size_from_parts("5", &magnitude, String::new()).unwrap_err();
    assert!(is_leaf_parse_failure(&e, "5"), "{:?}", e);
    let e = size_from_parts("B", &Vec::new(), "B".to_string()).unwrap_err();
    assert!(is_leaf_parse_failure(&e, "B"), "{:?}", e);
    match size_from_parts("5XB", &magnitude, "XB".to_string()) {
        Err(ApiError::UnrecognizedUnit { unit }) => assert_eq!(unit, "XB"),
        other => panic!("unexpected: {:?}", other),
    }
}

#[test]
fn split_netio_gives_the_two_segments() {
    assert_eq!(
        split_netio("650B / 1.5kB"),
        Some(("650B".to_string(), "1.5kB".to_string()))
    );
    assert_eq!(
        split_netio("a / / b"),
        Some(("a".to_string(), "/ b".to_string()))
    );
    for bad in ["", "650B", " / ", "a / ", " / b", "a / b / c", "a /  / b", "a/b"] {
        assert_eq!(split_netio(bad), None, "for {:?}", bad);
    }
}
