use tiny_basic::number::{push_decimal, read_u16, read_unsigned};
use tiny_basic::text::{char_at, chars_of, same_text, string_of, whitespace};
use tiny_basic::words::{split_on, split_words, trim};

fn chars(text: &str) -> Vec<char> {
    text.chars().collect()
}

#[test]
fn chars_of_gives_the_characters() {
    assert_eq!(chars_of("aß€"), vec!['a', 'ß', '€']);
    assert_eq!(chars_of(""), Vec::<char>::new());
    assert_eq!(char_at(&chars("abc"), 1), 'b');
    assert_eq!(string_of(&chars("hello"), 1, 3), "el");
    assert!(same_text("abc", "abc"));
    assert!(!same_text("abc", "abd"));
    assert!(!same_text("abc", "ab"));
}

#[test]
fn whitespace_is_what_the_standard_library_calls_whitespace() {
    let mut code: u32 = 0;
    while code <= 0x10ffff {
        if let Some(c) = char::from_u32(code) {
            assert_eq!(whitespace(c), c.is_whitespace(), "U+{:04X}", code);
        }
        code += 1;
    }
}

#[test]
fn words_are_split_as_the_standard_library_splits_them() {
    for text in ["", " ", "a", " a ", "10 PRINT  5", "\t a\u{a0}b\u{3000}c\r\n", "x\u{2028}y z"] {
        let expected: Vec<String> = text.split_whitespace().map(|w| w.to_string()).collect();
        assert_eq!(split_words(&chars(text)), expected, "{:?}", text);
    }
}

#[test]
fn trim_is_what_the_standard_library_trims() {
    for text in ["", " ", "a", "  a b \t", "\u{a0}x\u{2003}", "\n\n", "a\r\n"] {
        let trimmed: String = trim(&chars(text)).into_iter().collect();
        assert_eq!(trimmed, text.trim(), "{:?}", text);
    }
}

#[test]
fn pieces_are_split_as_the_standard_library_splits_them() {
    let cases = [
        ("a -> b -> c", " -> "),
        ("a -> b", " -> "),
        ("", " -> "),
        (" -> ", " -> "),
        ("a ->  -> b", " -> "),
        ("aaa", "aa"),
        ("aaaa", "aa"),
        ("abc", "c"),
    ];
    for (text, sep) in cases {
        let expected: Vec<String> = text.split(sep).map(|p| p.to_string()).collect();
        assert_eq!(split_on(&chars(text), &chars(sep)), expected, "{:?}", text);
    }
}

#[test]
fn numbers_are_read_as_the_standard_library_reads_them() {
    let texts = [
        "", "0", "7", "007", "+7", "+", "-7", "-0", "65535", "65536", "065535", "255", "256",
        "99999999999999999999", "1_000", " 1", "1 ", "١٢", "0x10", "++1", "+-1",
    ];
    for text in texts {
        assert_eq!(read_u16(&chars(text)), text.parse::<u16>().ok(), "{:?}", text);
        let byte = read_unsigned(&chars(text), 0, 255).map(|n| n as u8);
        assert_eq!(byte, text.parse::<u8>().ok(), "{:?}", text);
    }
    assert_eq!(read_unsigned(&chars("ab12"), 2, 100), Some(12));
    assert_eq!(read_unsigned(&chars("ab12"), 4, 100), None);
    assert_eq!(read_unsigned(&chars("101"), 0, 100), None);
}

#[test]
fn numbers_are_written_in_base_ten() {
    for n in [0u32, 1, 9, 10, 99, 100, 65535, 4294967295] {
        let mut text = String::from("n=");
        push_decimal(&mut text, n);
        assert_eq!(text, format!("n={}", n));
    }
}
