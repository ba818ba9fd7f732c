use mini_imp::number::{is_decimal_digit, parse_i32};
use mini_imp::text::{
    chars_of, copy_range, copy_without, find_in, is_whitespace, push_range, split_lines,
    starts_with, string_of, trim_bounds,
};

fn chars(s: &str) -> Vec<char> {
    s.chars().collect()
}

fn text(v: &[char]) -> String {
    v.iter().collect()
}

#[test]
fn white_space_is_what_the_standard_library_takes_for_it() {
    for n in 0u32..=0x10FFFF {
        if let Some(c) = char::from_u32(n) {
            assert_eq!(is_whitespace(c), c.is_whitespace(), "U+{:04X}", n);
        }
    }
}

#[test]
fn digits_are_the_ten_ascii_digits() {
    for n in 0u32..=0x10FFFF {
        if let Some(c) = char::from_u32(n) {
            assert_eq!(is_decimal_digit(c), c.is_ascii_digit(), "U+{:04X}", n);
        }
    }
}

#[test]
fn the_characters_of_a_string() {
    assert_eq!(chars_of(""), Vec::<char>::new());
    assert_eq!(chars_of("a=\u{e9}\u{1F600}"), vec!['a', '=', '\u{e9}', '\u{1F600}']);
}

#[test]
fn finding_a_character() {
    let s = chars("ab=cd=e");
    assert_eq!(find_in(&s, 0, 7, '='), 2);
    assert_eq!(find_in(&s, 3, 7, '='), 5);
    assert_eq!(find_in(&s, 6, 7, '='), 7);
    assert_eq!(find_in(&s, 0, 2, '='), 2);
    assert_eq!(find_in(&s, 4, 4, '='), 4);
}

#[test]
fn trimming_a_range() {
    let s = chars("  ab c \t");
    assert_eq!(trim_bounds(&s, 0, 8), (2, 6));
    assert_eq!(trim_bounds(&s, 3, 5), (3, 4));
    assert_eq!(trim_bounds(&s, 6, 8), (8, 8));
    assert_eq!(trim_bounds(&s, 0, 0), (0, 0));
    for sample in ["", " ", "a", " a", "a ", "\u{a0}x y\u{3000}", "\r\n", " \u{200b} "] {
        let v = chars(sample);
        let (a, b) = trim_bounds(&v, 0, v.len());
        assert_eq!(text(&v[a..b]), sample.trim(), "{:?}", sample);
    }
}

#[test]
fn copying_a_range() {
    let s = chars("hello; world;");
    assert_eq!(copy_range(&s, 1, 4), chars("ell"));
    assert_eq!(copy_range(&s, 3, 3), chars(""));
    assert_eq!(copy_without(&s, 0, 13, ';'), chars("hello world"));
    assert_eq!(copy_without(&s, 5, 6, ';'), chars(""));
    assert_eq!(string_of(&s, 7, 12), "world");
    let mut out = String::from("<");
    push_range(&mut out, &s, 0, 5);
    assert_eq!(out, "<hello");
}

#[test]
fn beginning_with_a_prefix() {
    assert!(starts_with(&chars("x = 1"), &chars("x =")));
    assert!(starts_with(&chars("x ="), &chars("x =")));
    assert!(starts_with(&chars("abc"), &chars("")));
    assert!(!starts_with(&chars("x "), &chars("x =")));
    assert!(!starts_with(&chars("y = 1"), &chars("x =")));
}

#[test]
fn lines_are_trimmed_and_blank_ones_left_out() {
    assert_eq!(split_lines(&chars("")), Vec::<Vec<char>>::new());
    assert_eq!(split_lines(&chars("\n\n")), Vec::<Vec<char>>::new());
    assert_eq!(
        split_lines(&chars(" a \n\n\tb c\r\n \nd")),
        vec![chars("a"), chars("b c"), chars("d")]
    );
    for sample in ["one\ntwo", "one\n", "\none", " x \r\n\r\n y", "a\rb\nc", "\u{2028}a\n\u{85}"] {
        let expected: Vec<Vec<char>> = sample
            .lines()
            .map(|l| l.trim())
            .filter(|l| !l.is_empty())
            .map(|l| l.chars().collect())
            .collect();
        assert_eq!(split_lines(&chars(sample)), expected, "{:?}", sample);
    }
}

#[test]
fn integers_as_the_standard_library_reads_them() {
    assert_eq!(parse_i32(&chars("5")), Some(5));
    assert_eq!(parse_i32(&chars("-120")), Some(-120));
    for sample in ["", "+", "-", "0", "-0", "+0", "12", "+12", "-12", "2147483647", "2147483648",
        "-2147483648", "-2147483649", "4294967296", "00000000000000000000001", "1a", "a1", " 1",
        "1 ", "1_000", "+-1", "9999999999", "-9999999999", "21474836470", "\u{661}"]
    {
        assert_eq!(parse_i32(&chars(sample)), sample.parse::<i32>().ok(), "{:?}", sample);
    }
}
