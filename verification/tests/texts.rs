use srisum::text::{chars_of, find, is_whitespace, leading_word, push_decimal, string_of, trimmed};

fn chars(s: &str) -> Vec<char> {
    s.chars().collect()
}

fn decimal(n: u64) -> String {
    let mut s = String::new();
    push_decimal(&mut s, n);
    s
}

#[test]
fn white_space_is_what_std_says() {
    for n in 0..0x11_0000u32 {
        if let Some(c) = char::from_u32(n) {
            assert_eq!(is_whitespace(c), c.is_whitespace(), "U+{:04X}", n);
        }
    }
}

#[test]
fn trimming() {
    assert_eq!(trimmed(&chars("  a b \t\n")), &chars("a b")[..]);
    assert_eq!(trimmed(&chars("a")), &chars("a")[..]);
    assert_eq!(trimmed(&chars("")), &chars("")[..]);
    assert_eq!(trimmed(&chars(" \u{a0}\u{3000} ")), &chars("")[..]);
    assert_eq!(trimmed(&chars("\u{2003}x\u{2003}")), &chars("x")[..]);
    assert_eq!(trimmed(&chars("\u{200b}x")), &chars("\u{200b}x")[..]);
}

#[test]
fn words_and_marks() {
    assert_eq!(leading_word(&chars("abc def")), 3);
    assert_eq!(leading_word(&chars("abc")), 3);
    assert_eq!(leading_word(&chars(" abc")), 0);
    assert_eq!(leading_word(&chars("")), 0);
    assert_eq!(find(&chars("sha1-abc-def"), '-'), 4);
    assert_eq!(find(&chars("sha1"), '-'), 4);
    assert_eq!(find(&chars("-"), '-'), 0);
}

#[test]
fn characters_and_back() {
    assert_eq!(chars_of("h\u{e9}llo"), chars("h\u{e9}llo"));
    assert_eq!(string_of(&chars("h\u{e9}llo \u{1f600}")), "h\u{e9}llo \u{1f600}");
    assert_eq!(string_of(&[]), "");
}

#[test]
fn decimal_numbers() {
    assert_eq!(decimal(0), "0");
    assert_eq!(decimal(7), "7");
    assert_eq!(decimal(10), "10");
    assert_eq!(decimal(1203), "1203");
    assert_eq!(decimal(u64::MAX), "18446744073709551615");
    let mut s = String::from("n=");
    push_decimal(&mut s, 42);
    assert_eq!(s, "n=42");
}
