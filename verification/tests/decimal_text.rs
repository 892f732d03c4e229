use flappy_rust::decimal::{parse_u32, u32_text};

#[test]
fn text_matches_to_string() {
    let samples: Vec<u32> = vec![0, 1, 9, 10, 11, 99, 100, 101, 12345, 1000000, 4294967294, 4294967295];
    for n in samples {
        assert_eq!(u32_text(n), n.to_string());
    }
}

#[test]
fn text_of_small_numbers() {
    assert_eq!(u32_text(0), "0");
    assert_eq!(u32_text(7), "7");
    assert_eq!(u32_text(42), "42");
    assert_eq!(u32_text(4294967295), "4294967295");
}

#[test]
fn parse_matches_std_parse() {
    let inputs = vec![
        "", "+", "-", "-0", "-1", "+0", "0", "7", "007", "+42", "42", "4294967295", "4294967296",
        "99999999999", " 1", "1 ", "1a", "a1", "++1", "+-1", "\u{0663}", "１", "12\u{00e9}",
    ];
    for s in inputs {
        assert_eq!(parse_u32(s), s.parse::<u32>().ok(), "input {:?}", s);
    }
}

#[test]
fn parse_values() {
    assert_eq!(parse_u32("42"), Some(42));
    assert_eq!(parse_u32("+42"), Some(42));
    assert_eq!(parse_u32("0042"), Some(42));
    assert_eq!(parse_u32("4294967295"), Some(u32::MAX));
    assert_eq!(parse_u32("4294967296"), None);
    assert_eq!(parse_u32(""), None);
    assert_eq!(parse_u32("+"), None);
    assert_eq!(parse_u32("-3"), None);
    assert_eq!(parse_u32("3.5"), None);
}

#[test]
fn parse_reads_back_text() {
    for n in [0u32, 5, 10, 255, 65536, 123456789, u32::MAX] {
        assert_eq!(parse_u32(&u32_text(n)), Some(n));
    }
}
