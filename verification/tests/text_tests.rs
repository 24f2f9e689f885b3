use videovault::text::{
    chars_of, contains_chars, is_whitespace, join_range, push_decimal, same_chars, same_text,
    split_chars, split_lines, split_words, string_of, string_of_range, trim,
};

fn chars(s: &str) -> Vec<char> {
    s.chars().collect()
}

fn strings(rows: Vec<Vec<char>>) -> Vec<String> {
    rows.iter().map(|r| r.iter().collect()).collect()
}

#[test]
fn chars_and_strings_convert_both_ways() {
    assert_eq!(chars_of("héllo"), vec!['h', 'é', 'l', 'l', 'o']);
    assert_eq!(string_of(&chars("héllo")), "héllo");
    assert_eq!(string_of_range(&chars("abcdef"), 2, 4), "cd");
    assert_eq!(string_of_range(&chars("abcdef"), 3, 3), "");
    assert_eq!(chars_of(""), Vec::<char>::new());
}

#[test]
fn text_equality() {
    assert!(same_text("abc", "abc"));
    assert!(!same_text("abc", "abd"));
    assert!(!same_text("abc", "ab"));
    assert!(same_chars(&chars("xy"), &chars("xy")));
    assert!(!same_chars(&chars("xy"), &chars("xz")));
    assert!(!same_chars(&chars("xy"), &chars("xyz")));
}

#[test]
fn whitespace_agrees_with_std_on_every_character() {
    let mut code: u32 = 0;
    while code <= 0x10FFFF {
        if let Some(c) = char::from_u32(code) {
            assert_eq!(is_whitespace(c), c.is_whitespace(), "U+{:04X}", code);
        }
        code += 1;
    }
}

#[test]
fn trim_agrees_with_std() {
    for s in ["", " ", "  a  ", "a", "\t\n a b \r\n", "a  ", "  a", "\u{3000}x\u{a0}", " \u{85} "] {
        assert_eq!(string_of(&trim(&chars(s))), s.trim(), "{:?}", s);
    }
}

#[test]
fn split_keeps_empty_pieces() {
    assert_eq!(strings(split_chars(&chars("a/b//c/"), '/')), vec!["a", "b", "", "c", ""]);
    assert_eq!(strings(split_chars(&chars(""), '/')), vec![""]);
    assert_eq!(strings(split_chars(&chars("/"), '/')), vec!["", ""]);
    assert_eq!(strings(split_chars(&chars("abc"), '/')), vec!["abc"]);
}

#[test]
fn words_agree_with_std() {
    for s in ["", "   ", "a", " a  b\tc ", "-rw-r--r--  1 u g 12 Jan  1 00:00 my file.mp4", "x\u{3000}y"] {
        let expected: Vec<String> = s.split_whitespace().map(|w| w.to_string()).collect();
        let v = chars(s);
        assert_eq!(strings(split_words(&v, 0, v.len())), expected, "{:?}", s);
    }
    let v = chars("ab cd ef");
    assert_eq!(strings(split_words(&v, 1, 7)), vec!["b", "cd", "e"]);
}

#[test]
fn lines_agree_with_std() {
    for s in [
        "",
        "\n",
        "a",
        "a\n",
        "a\nb",
        "a\r\nb\r\n",
        "a\n\nb\n",
        "a\r",
        "a\r\n\r",
        "\r\n",
        "total 8\n-rw 1\ndrw 2\n",
        "x\r\r\ny",
    ] {
        let expected: Vec<String> = s.lines().map(|l| l.to_string()).collect();
        assert_eq!(strings(split_lines(&chars(s))), expected, "{:?}", s);
    }
}

#[test]
fn contains_agrees_with_std() {
    let cases = [
        ("volume serial number is 1234", "serial"),
        ("serial", "serial"),
        ("seria", "serial"),
        ("", "serial"),
        ("abc", ""),
        ("", ""),
        ("sserial", "serial"),
        ("seriaserial", "serial"),
        ("SERIAL", "serial"),
    ];
    for (s, needle) in cases {
        assert_eq!(contains_chars(&chars(s), &chars(needle)), s.contains(needle), "{:?} {:?}", s, needle);
    }
}

#[test]
fn decimal_agrees_with_std() {
    for n in [0u64, 1, 9, 10, 11, 99, 100, 12345, 2049, u64::MAX, u64::MAX - 1, 1000000] {
        let mut out = chars("n=");
        push_decimal(&mut out, n);
        assert_eq!(string_of(&out), format!("n={}", n));
    }
}

#[test]
fn join_puts_the_separator_between() {
    let parts = vec![chars("a"), chars("b c"), chars(""), chars("d")];
    assert_eq!(string_of(&join_range(&parts, 0, 4, '/')), "a/b c//d");
    assert_eq!(string_of(&join_range(&parts, 1, 2, '/')), "b c");
    assert_eq!(string_of(&join_range(&parts, 2, 2, '/')), "");
    assert_eq!(string_of(&join_range(&parts, 0, 2, ' ')), "a b c");
}
