use kondo::fmt::{decimal_chars, pad_left_str, pad_right_str, parse_u32_chars, to_hex_lower};
use kondo::text::{
    chars_of, contains_chars, is_whitespace, join_strings, lines_of, split_chars, string_of,
    trim_str, words_of,
};

fn strings(v: Vec<Vec<char>>) -> Vec<String> {
    v.iter().map(|w| w.iter().collect()).collect()
}

/// Every string of length up to `max` over `alphabet`.
fn all_strings(alphabet: &[char], max: usize) -> Vec<String> {
    let mut out = vec![String::new()];
    let mut frontier = vec![String::new()];
    for _ in 0..max {
        let mut next = Vec::new();
        for s in &frontier {
            for c in alphabet {
                let mut t = s.clone();
                t.push(*c);
                next.push(t);
            }
        }
        out.extend(next.iter().cloned());
        frontier = next;
    }
    out
}

#[test]
fn whitespace_matches_std_for_every_char() {
    for u in 0u32..=0x10FFFF {
        if let Some(c) = char::from_u32(u) {
            assert_eq!(is_whitespace(c), c.is_whitespace(), "char {:#x}", u);
        }
    }
}

#[test]
fn chars_round_trip() {
    let s = "h\u{e9}llo \u{2705} w\u{f6}rld";
    assert_eq!(chars_of(s), s.chars().collect::<Vec<char>>());
    assert_eq!(string_of(&chars_of(s)), s);
}

#[test]
fn lines_match_std() {
    for s in all_strings(&['a', '\n', '\r', ' '], 6) {
        let got = strings(lines_of(&chars_of(&s)));
        let want: Vec<String> = s.lines().map(|l| l.to_string()).collect();
        assert_eq!(got, want, "lines of {:?}", s);
    }
}

#[test]
fn trim_matches_std() {
    for s in all_strings(&['a', ' ', '\t', '\u{3000}', '\n'], 5) {
        assert_eq!(trim_str(&s), s.trim(), "trim of {:?}", s);
    }
}

#[test]
fn words_match_split_whitespace() {
    for s in all_strings(&['a', 'b', ' ', '\u{a0}', '\n'], 6) {
        let got = strings(words_of(&chars_of(&s)));
        let want: Vec<String> = s.split_whitespace().map(|w| w.to_string()).collect();
        assert_eq!(got, want, "words of {:?}", s);
    }
}

#[test]
fn split_matches_std() {
    for s in all_strings(&['a', ',', '-'], 6) {
        let got = strings(split_chars(&chars_of(&s), ','));
        let want: Vec<String> = s.split(',').map(|w| w.to_string()).collect();
        assert_eq!(got, want, "split of {:?}", s);
    }
}

#[test]
fn join_matches_std() {
    let parts = vec!["a".to_string(), "".to_string(), "bc".to_string()];
    assert_eq!(join_strings(&parts, ", "), parts.join(", "));
    assert_eq!(join_strings(&Vec::new(), ", "), "");
    assert_eq!(join_strings(&vec!["x".to_string()], "-"), "x");
}

#[test]
fn contains_matches_std() {
    for s in all_strings(&['a', 'b'], 6) {
        for p in all_strings(&['a', 'b'], 3) {
            assert_eq!(contains_chars(&chars_of(&s), &chars_of(&p)), s.contains(p.as_str()));
        }
    }
}

#[test]
fn parse_u32_matches_std() {
    for s in all_strings(&['+', '-', '0', '1', '9', 'a', ' '], 4) {
        assert_eq!(parse_u32_chars(&chars_of(&s)), s.parse::<u32>().ok(), "parse {:?}", s);
    }
    for s in [
        "4294967295",
        "4294967296",
        "+4294967295",
        "00000000000000000000007",
        "99999999999999999999",
        "12",
    ] {
        assert_eq!(parse_u32_chars(&chars_of(s)), s.parse::<u32>().ok(), "parse {:?}", s);
    }
}

#[test]
fn decimal_matches_std() {
    for n in [0u32, 1, 9, 10, 11, 99, 100, 12345, u32::MAX] {
        assert_eq!(decimal_chars(n).iter().collect::<String>(), n.to_string());
    }
}

#[test]
fn padding_matches_format() {
    for s in ["", "dashify", "rkvr", "0123456789ab", "\u{2705}x", "a very long version"] {
        assert_eq!(pad_right_str(s, 10), format!("{:<10}", s));
        assert_eq!(pad_left_str(s, 12), format!("{:>12}", s));
    }
}

#[test]
fn hex_is_lower_case_two_digits_per_byte() {
    assert_eq!(to_hex_lower(&[0x00, 0x0f, 0xab, 0xff]), "000fabff");
    assert_eq!(to_hex_lower(&[]), "");
}
