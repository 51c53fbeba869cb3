use lox_frontend::chars::{alphabetic, alphanumeric, digit, identifier_part, identifier_start};
use lox_frontend::number::{number_of, number_string, numeral};
use lox_frontend::text::{collect, push_decimal, spells, to_chars};

fn chars(text: &str) -> Vec<char> {
    text.chars().collect()
}

#[test]
fn decimal_numerals() {
    for text in ["0", "7", "123", "3.14", "0.5", "007.100", "1.0"] {
        assert!(numeral(&chars(text)), "{}", text);
    }
}

#[test]
fn text_that_is_no_decimal_numeral() {
    for text in ["", ".", "1.", ".5", "1.2.3", "1e5", "-1", "+1", "1 ", " 1", "a", "1a", "1.a", "\u{663}"] {
        assert!(!numeral(&chars(text)), "{}", text);
    }
}

#[test]
fn number_string_strips_zeros() {
    assert_eq!(number_string(&chars("1")), "1.0");
    assert_eq!(number_string(&chars("1.0")), "1.0");
    assert_eq!(number_string(&chars("1.50")), "1.5");
    assert_eq!(number_string(&chars("01.5")), "1.5");
    assert_eq!(number_string(&chars("000")), "0.0");
    assert_eq!(number_string(&chars("0.000")), "0.0");
    assert_eq!(number_string(&chars("100.001")), "100.001");
    assert_eq!(number_string(&chars("00100.00100")), "100.001");
    assert_eq!(number_string(&chars("0.5")), "0.5");
    assert_eq!(number_string(&chars("10")), "10.0");
}

#[test]
fn number_string_on_other_text() {
    assert_eq!(number_string(&chars("")), "0.0");
    assert_eq!(number_string(&chars(".")), "0.0");
    assert_eq!(number_string(&chars(".5")), "0.5");
    assert_eq!(number_string(&chars("5.")), "5.0");
}

#[test]
fn number_of_reads_numerals_and_nothing_else() {
    assert_eq!(number_of(&"12.50".to_string()), "12.5");
    assert_eq!(number_of(&"12".to_string()), "12.0");
    assert_eq!(number_of(&"twelve".to_string()), "0.0");
    assert_eq!(number_of(&"".to_string()), "0.0");
    assert_eq!(number_of(&"5.".to_string()), "0.0");
}

#[test]
fn ascii_classes() {
    for c in '0'..='9' {
        assert!(digit(c) && alphanumeric(c) && identifier_part(c));
        assert!(!alphabetic(c) && !identifier_start(c));
    }
    for c in ('a'..='z').chain('A'..='Z') {
        assert!(alphabetic(c) && alphanumeric(c) && identifier_start(c) && identifier_part(c));
        assert!(!digit(c));
    }
    assert!(identifier_start('_') && identifier_part('_'));
    assert!(!alphabetic('_') && !alphanumeric('_') && !digit('_'));
    for c in [' ', '@', '[', '`', '{', '/', ':', '\u{7f}', '\0'] {
        assert!(!digit(c) && !alphabetic(c) && !alphanumeric(c));
        assert!(!identifier_start(c) && !identifier_part(c));
    }
}

#[test]
fn classes_agree_with_the_standard_library() {
    for code in 0..=0x10ffffu32 {
        if let Some(c) = char::from_u32(code) {
            assert_eq!(alphabetic(c), c.is_alphabetic(), "{:?}", c);
            assert_eq!(alphanumeric(c), c.is_alphanumeric(), "{:?}", c);
            assert_eq!(digit(c), c.is_ascii_digit(), "{:?}", c);
        }
    }
}

#[test]
fn classes_beyond_ascii() {
    assert!(alphabetic('\u{e9}'));
    assert!(alphabetic('\u{4eac}'));
    assert!(!alphabetic('\u{663}'));
    assert!(alphanumeric('\u{663}'));
    assert!(alphanumeric('\u{bd}'));
    assert!(!alphanumeric('\u{20ac}'));
    assert!(!alphabetic('\u{1f49d}'));
    assert!(!digit('\u{663}'));
}

#[test]
fn to_chars_keeps_every_character() {
    assert_eq!(to_chars(""), chars(""));
    assert_eq!(to_chars("a\u{e9}\u{1f49d} z"), vec!['a', '\u{e9}', '\u{1f49d}', ' ', 'z']);
}

#[test]
fn collect_takes_a_range() {
    let all = chars("hello");
    assert_eq!(collect(&all, 0, 5), "hello");
    assert_eq!(collect(&all, 1, 3), "el");
    assert_eq!(collect(&all, 2, 2), "");
    assert_eq!(collect(&all, 5, 5), "");
}

#[test]
fn spells_compares_a_range_with_a_word() {
    let all = chars("band and");
    assert!(spells(&all, 1, 4, "and"));
    assert!(spells(&all, 5, 8, "and"));
    assert!(spells(&all, 0, 4, "band"));
    assert!(!spells(&all, 0, 3, "and"));
    assert!(!spells(&all, 1, 4, "an"));
    assert!(!spells(&all, 1, 3, "and"));
    assert!(spells(&all, 3, 3, ""));
}

#[test]
fn push_decimal_writes_the_numeral() {
    let cases: [(usize, &str); 8] = [
        (0, "0"),
        (7, "7"),
        (9, "9"),
        (10, "10"),
        (11, "11"),
        (99, "99"),
        (100, "100"),
        (1234567890, "1234567890"),
    ];
    for (n, expected) in cases {
        let mut out = String::from("n=");
        push_decimal(&mut out, n);
        assert_eq!(out, format!("n={}", expected));
    }
    let mut out = String::new();
    push_decimal(&mut out, usize::MAX);
    assert_eq!(out, usize::MAX.to_string());
}
