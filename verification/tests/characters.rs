use wae::literal::is_number_literal;
use wae::text::{chars_of, is_digit, is_separator, is_space, trim_bounds, trimmed};
use wae::{Expr, Id, Number, ParseError};

#[test]
fn spaces_are_the_white_space_characters() {
    let mut count = 0;
    for code in 0..=0x10FFFFu32 {
        if let Some(c) = char::from_u32(code) {
            assert_eq!(is_space(c), c.is_whitespace(), "U+{:04X}", code);
            if is_space(c) {
                count += 1;
            }
        }
    }
    assert_eq!(count, 25);
}

#[test]
fn separators_are_the_ascii_white_space_characters() {
    for code in 0..=0x10FFFFu32 {
        if let Some(c) = char::from_u32(code) {
            assert_eq!(is_separator(c), c.is_ascii_whitespace(), "U+{:04X}", code);
        }
    }
    assert!(!is_separator('\u{b}'));
}

#[test]
fn digits_are_the_ascii_digits() {
    for code in 0..=0x10FFFFu32 {
        if let Some(c) = char::from_u32(code) {
            assert_eq!(is_digit(c), c.is_ascii_digit(), "U+{:04X}", code);
        }
    }
}

#[test]
fn letters_are_neither_spaces_nor_digits_nor_parentheses() {
    for code in 0..=0x10FFFFu32 {
        if let Some(c) = char::from_u32(code) {
            if c.is_alphabetic() {
                assert!(!is_space(c) && !is_digit(c) && c != '(' && c != ')', "U+{:04X}", code);
            }
        }
    }
    assert!('w'.is_alphabetic() && 'Z'.is_alphabetic() && 'é'.is_alphabetic());
    assert!(!'_'.is_alphabetic() && !'7'.is_alphabetic() && !'['.is_alphabetic());
}

#[test]
fn trimming_cuts_spaces_from_both_ends() {
    let samples = [
        "",
        " ",
        "a",
        " a",
        "a ",
        "  a b  ",
        "\t\n(+ 1 2)\r\n",
        "\u{a0}x\u{3000}",
        "\u{2028}\u{2029}",
        " é ",
        "\u{200b}a\u{200b}",
        "a\u{1680}",
        "\u{feff}a",
    ];
    for text in samples {
        assert_eq!(trimmed(text), text.trim(), "{:?}", text);
        let chars = chars_of(text);
        assert_eq!(chars, text.chars().collect::<Vec<char>>());
        let (lo, hi) = trim_bounds(&chars);
        assert_eq!(chars[lo..hi].iter().collect::<String>(), text.trim());
    }
}

fn literal(text: &str) -> bool {
    is_number_literal(&text.chars().collect())
}

#[test]
fn number_literals_are_recognized() {
    for text in [
        "0", "253354", "3.25", "1.", ".5", "+.5", "-1.", "1e5", "1E5", "1e+5", "1e-5", "1.e5",
        ".5e5", "1.5e10", "-0", "+7", "007", "inf", "INF", "Inf", "-inf", "+infinity", "INFINITY",
        "iNfInItY", "nan", "NaN", "-NAN", "+nan", "1e0000", "0.0000001", "123456789012345678901234567890",
    ] {
        assert!(literal(text), "{}", text);
        assert!(text.parse::<f32>().is_ok(), "{}", text);
    }
}

#[test]
fn other_texts_are_no_number_literals() {
    for text in [
        "", "+", "-", ".", "+.", "e", "e5", ".e5", "1e", "1e+", "1e-", "1e5.", "1e5e5", "1..", "1.2.3",
        "--1", "+-1", "1+", "1-1", " 1", "1 ", "1_0", "0x1", "1f", "in", "infi", "infinit",
        "infinityy", "na", "nana", "n", "i", "1inf", "inf1", "١", "１", "1e１", "1,5",
    ] {
        assert!(!literal(text), "{}", text);
        assert!(text.parse::<f32>().is_err(), "{}", text);
    }
}

fn texts(alphabet: &[char], length: usize) -> Vec<String> {
    let mut all = vec![String::new()];
    let mut last = vec![String::new()];
    for _ in 0..length {
        let mut next = Vec::new();
        for text in &last {
            for c in alphabet {
                let mut longer = text.clone();
                longer.push(*c);
                next.push(longer);
            }
        }
        all.extend(next.iter().cloned());
        last = next;
    }
    all
}

#[test]
fn number_literals_are_what_reads_as_a_float() {
    let alphabet = ['0', '7', '.', 'e', 'E', '+', '-', 'n', 'a', 'i', 'f', ' '];
    for text in texts(&alphabet, 5) {
        assert_eq!(literal(&text), text.parse::<f32>().is_ok(), "{:?}", text);
    }
    let words = ['i', 'I', 'n', 'N', 'f', 'F', 'a', 'A', 't', 'y', 'Y', '-'];
    for text in texts(&words, 4) {
        assert_eq!(literal(&text), text.parse::<f32>().is_ok(), "{:?}", text);
    }
    for prefix in ["", "+", "-", "1"] {
        for word in ["infinity", "INFINITY", "Infinity", "infinitY", "infinit", "infinityy", "inf inity"] {
            let text = format!("{}{}", prefix, word);
            assert_eq!(literal(&text), text.parse::<f32>().is_ok(), "{:?}", text);
        }
    }
}

#[test]
fn number_is_read_as_written() {
    for text in ["253354", "3.25", "1.", "1e5", "007", "1.5E-3", "-2", ".5", "inf", "NaN"] {
        let expected = Expr::Number(Box::new(Number { val: text.to_string() }));
        assert_eq!(Number::parse(text.to_string()), Ok(expected));
    }
    for text in ["", " 1", "1 ", "x", "1x", "--1"] {
        assert_eq!(Number::parse(text.to_string()), Err(ParseError::MalformedNumber));
    }
}

#[test]
fn digit_leading_literals_parse_to_their_value() {
    for (text, value) in [
        ("253354", 253354.0f32),
        ("3.25", 3.25),
        ("1.", 1.0),
        ("1e3", 1000.0),
        ("1.5E-3", 0.0015),
        ("007", 7.0),
        ("0.1", 0.1),
        ("16777217", 16777216.0),
    ] {
        let tree = Expr::parse(format!("  {} ", text)).unwrap();
        assert_eq!(tree, Expr::Number(Box::new(Number { val: text.to_string() })));
        let resolved = tree.replace();
        assert_eq!(resolved, Expr::Number(Box::new(Number { val: text.to_string() })));
        match resolved {
            Expr::Number(n) => assert_eq!(n.val.parse::<f32>(), Ok(value)),
            _ => unreachable!(),
        }
    }
}

#[test]
fn identifier_is_trimmed() {
    assert_eq!(Id::parse("  abc\n".to_string()), Ok(Id { val: "abc".to_string() }));
    assert_eq!(Id::parse("a b".to_string()), Err(ParseError::NotAlphabetic));
}
