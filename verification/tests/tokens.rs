use wae::{parse_paren_expr, split_tokens, strip_ends, ParseError};

fn split(text: &str) -> Vec<String> {
    split_tokens(text.to_string())
}

#[test]
fn atoms_are_split_at_separators() {
    assert_eq!(split("+ 1 2"), vec!["+", "1", "2"]);
    assert_eq!(split("a"), vec!["a"]);
    assert_eq!(split("  a   b\tc\nd\re\u{c}f "), vec!["a", "b", "c", "d", "e", "f"]);
}

#[test]
fn empty_text_has_no_tokens() {
    assert_eq!(split(""), Vec::<String>::new());
    assert_eq!(split("   "), Vec::<String>::new());
}

#[test]
fn parenthesized_groups_are_taken_whole() {
    assert_eq!(split("+ (* 1 2) (- 3  4)"), vec!["+", "(* 1 2)", "(- 3  4)"]);
    assert_eq!(
        split("with ([x (+ 1 2)]) (+ x (* x x))"),
        vec!["with", "([x (+ 1 2)])", "(+ x (* x x))"]
    );
    assert_eq!(split("((a b) (c d))"), vec!["((a b) (c d))"]);
}

#[test]
fn group_and_atom_without_separator_are_one_token() {
    assert_eq!(split("a(b c)d e"), vec!["a(b c)d", "e"]);
    assert_eq!(split("(a)(b)"), vec!["(a)(b)"]);
}

#[test]
fn brackets_do_not_group() {
    assert_eq!(split("[x 1]"), vec!["[x", "1]"]);
}

#[test]
fn unbalanced_text_has_no_tokens() {
    assert_eq!(split("+ 1 (2"), Vec::<String>::new());
    assert_eq!(split("(a b"), Vec::<String>::new());
    assert_eq!(split("a)"), Vec::<String>::new());
    assert_eq!(split("a b)"), Vec::<String>::new());
    assert_eq!(split("(("), Vec::<String>::new());
}

#[test]
fn separator_after_surplus_closing_parenthesis_fails() {
    assert_eq!(split("a) b ("), Vec::<String>::new());
    assert_eq!(split(") ("), Vec::<String>::new());
}

#[test]
fn surplus_closing_parenthesis_made_up_later_is_one_token() {
    assert_eq!(split(")("), vec![")("]);
    assert_eq!(split(")( x"), vec![")( x"]);
    assert_eq!(split("a)(b c"), vec!["a)(b c"]);
}

#[test]
fn only_ascii_separators_split() {
    assert_eq!(split("a\u{a0}b"), vec!["a\u{a0}b"]);
    assert_eq!(split("a\u{b}b"), vec!["a\u{b}b"]);
    assert_eq!(split("\u{2003}a b\u{85}"), vec!["a", "b"]);
}

#[test]
fn ends_are_stripped() {
    assert_eq!(strip_ends("(+ 1 2)".to_string(), '(', ')'), Some("+ 1 2".to_string()));
    assert_eq!(strip_ends("[x 1]".to_string(), '[', ']'), Some("x 1".to_string()));
    assert_eq!(strip_ends("()".to_string(), '(', ')'), Some("".to_string()));
    assert_eq!(strip_ends("((a))".to_string(), '(', ')'), Some("(a)".to_string()));
    assert_eq!(strip_ends("(é)".to_string(), '(', ')'), Some("é".to_string()));
    assert_eq!(strip_ends("||".to_string(), '|', '|'), Some("".to_string()));
}

#[test]
fn missing_ends_are_not_stripped() {
    assert_eq!(strip_ends("(+ 1 2".to_string(), '(', ')'), None);
    assert_eq!(strip_ends("+ 1 2)".to_string(), '(', ')'), None);
    assert_eq!(strip_ends("".to_string(), '(', ')'), None);
    assert_eq!(strip_ends("(".to_string(), '(', ')'), None);
    assert_eq!(strip_ends(")".to_string(), '(', ')'), None);
    assert_eq!(strip_ends("|".to_string(), '|', '|'), None);
    assert_eq!(strip_ends(" (a)".to_string(), '(', ')'), None);
    assert_eq!(strip_ends("[a)".to_string(), '(', ')'), None);
}

#[test]
fn parenthesized_text_is_read_without_trimming() {
    assert!(parse_paren_expr("(+ 1 2)".to_string()).is_ok());
    assert_eq!(parse_paren_expr(" (+ 1 2)".to_string()), Err(ParseError::MissingParens));
    assert_eq!(parse_paren_expr("+ 1 2".to_string()), Err(ParseError::MissingParens));
    assert_eq!(parse_paren_expr("()".to_string()), Err(ParseError::EmptyGroup));
    assert_eq!(parse_paren_expr("(\u{2003})".to_string()), Err(ParseError::EmptyGroup));
    assert_eq!(parse_paren_expr("(+ 1 2))".to_string()), Err(ParseError::MissingParens));
}
