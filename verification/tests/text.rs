use cratepro::text::{
    chars_of, find_char_from, is_white_space_char, line_bounds, parse_i64_at, range_equals,
    trim_bounds,
};

fn collect(cs: &[char], lo: usize, hi: usize) -> String {
    cs[lo..hi].iter().collect()
}

#[test]
fn white_space_matches_char_is_whitespace() {
    for u in 0u32..=0x10FFFF {
        if let Some(c) = char::from_u32(u) {
            assert_eq!(is_white_space_char(c), c.is_whitespace(), "U+{:04X}", u);
        }
    }
}

fn std_lines(s: &str) -> Vec<String> {
    s.lines().map(|l| l.to_string()).collect()
}

fn our_lines(s: &str) -> Vec<String> {
    let cs = chars_of(s);
    let mut out = Vec::new();
    let mut start = 0;
    while start < cs.len() {
        let (hi, e) = line_bounds(&cs, start);
        out.push(collect(&cs, start, hi));
        start = e + 1;
    }
    out
}

#[test]
fn lines_match_str_lines() {
    for s in ["", "a", "a\n", "a\n\n", "\n", "a\r\nb", "a\rb\n", "a\r", "\r\n", "x\r\r\n", "é\nü"] {
        assert_eq!(our_lines(s), std_lines(s), "input {:?}", s);
    }
}

#[test]
fn trim_matches_str_trim() {
    for s in ["", "  ", " a ", "\u{3000}b\u{2029}", "a b", "\u{200b}c"] {
        let cs = chars_of(s);
        let (a, b) = trim_bounds(&cs, 0, cs.len());
        assert_eq!(collect(&cs, a, b), s.trim());
    }
}

#[test]
fn parse_matches_i64_from_str() {
    for s in [
        "", "0", "-0", "+0", "+", "-", "12", "-12", "+12", "1 2", "0x1", "9223372036854775807",
        "9223372036854775808", "-9223372036854775808", "-9223372036854775809", "00000000000000000000001",
    ] {
        let cs = chars_of(s);
        assert_eq!(parse_i64_at(&cs, 0, cs.len()), s.parse::<i64>().ok(), "input {:?}", s);
    }
}

#[test]
fn find_and_compare() {
    let cs = chars_of("ab:cd:e");
    assert_eq!(find_char_from(&cs, ':', 0), 2);
    assert_eq!(find_char_from(&cs, ':', 3), 5);
    assert_eq!(find_char_from(&cs, ':', 6), 7);
    assert!(range_equals(&cs, 3, 5, &chars_of("cd")));
    assert!(!range_equals(&cs, 3, 5, &chars_of("ce")));
}
