use wae::{parse, Binary, Binding, ErrorKind, Expr, Id, Number, Operator, ParseError, With};

fn fails(text: &str) -> ParseError {
    Expr::parse(text.to_string()).unwrap_err()
}

fn check(text: &str, error: ParseError, kind: ErrorKind, message: &str) {
    let found = fails(text);
    assert_eq!(found, error);
    assert_eq!(found.kind(), kind);
    assert_eq!(found.message(), message);
    assert_eq!(parse(text.to_string()), Err(message.to_string()));
}

#[test]
fn empty_text_is_rejected() {
    check("", ParseError::EmptyInput, ErrorKind::EmptyInput, "expected a non-empty input");
}

#[test]
fn blank_text_is_rejected_with_the_text() {
    check(
        " \t ",
        ParseError::BlankInput(" \t ".to_string()),
        ErrorKind::EmptyInput,
        "unable to parse expression:  \t ",
    );
}

#[test]
fn malformed_numbers_are_rejected() {
    for text in ["1vtct", "1e", "1e+", "1.2.3", "1_000", "0x10", "1f32", "2-", "7,5", "1 2"] {
        check(text, ParseError::MalformedNumber, ErrorKind::MalformedNumber, "expected a Number");
    }
}

#[test]
fn operations_need_exactly_two_operands() {
    for text in ["(+ 1 2 3)", "(+ 1)", "(+)", "(* 1 2 3 4)", "(/ (+ 1 2))"] {
        check(
            text,
            ParseError::BinaryArity,
            ErrorKind::Arity,
            "expected an operator type and two inputs for binary expression",
        );
    }
}

#[test]
fn unknown_operator_is_rejected_with_the_token() {
    let found = Operator::parse("%".to_string()).unwrap_err();
    assert_eq!(found, ParseError::UnknownOperator("%".to_string()));
    assert_eq!(found.kind(), ErrorKind::UnknownForm);
    assert_eq!(found.message(), "unexpected operator: %");
    assert_eq!(
        Operator::parse("++".to_string()),
        Err(ParseError::UnknownOperator("++".to_string()))
    );
    assert_eq!(
        Operator::parse("".to_string()),
        Err(ParseError::UnknownOperator("".to_string()))
    );
}

#[test]
fn operators_are_read() {
    assert_eq!(Operator::parse("+".to_string()), Ok(Operator::Add));
    assert_eq!(Operator::parse("-".to_string()), Ok(Operator::Sub));
    assert_eq!(Operator::parse("*".to_string()), Ok(Operator::Mul));
    assert_eq!(Operator::parse("/".to_string()), Ok(Operator::Div));
}

#[test]
fn binding_forms_need_binding_and_body() {
    for text in ["(with ([x 1]))", "(with)", "(with ([x 1]) x x)"] {
        check(
            text,
            ParseError::WithArity,
            ErrorKind::Arity,
            "expected 'with' symbol, binding, and input for With expression",
        );
    }
}

#[test]
fn binding_form_without_keyword_is_rejected() {
    let tokens = vec!["let".to_string(), "([x 1])".to_string(), "x".to_string()];
    let found = With::parse(tokens).unwrap_err();
    assert_eq!(found, ParseError::MissingKeyword);
    assert_eq!(found.kind(), ErrorKind::UnknownForm);
    assert_eq!(found.message(), "expected 'with'");
}

#[test]
fn binding_needs_parentheses() {
    for text in ["(with [x] x)", "(with x x)", "(with 1 x)", "(with [(x 1)] x)"] {
        check(
            text,
            ParseError::BindingParens,
            ErrorKind::Delimiter,
            "expected With binding to be wrapped in parentheses",
        );
    }
}

#[test]
fn binding_needs_brackets() {
    for text in ["(with (x 1) x)", "(with () x)", "(with ((x 1)) x)", "(with ([x 1) x)"] {
        check(
            text,
            ParseError::BindingBrackets,
            ErrorKind::Delimiter,
            "expected With binding to be wrapped in brackets",
        );
    }
}

#[test]
fn binding_needs_content() {
    check(
        "(with ([]) x)",
        ParseError::EmptyBinding,
        ErrorKind::EmptyInput,
        "expected a binding expression for With clause",
    );
}

#[test]
fn binding_needs_name_and_expression() {
    for text in ["(with ([x]) x)", "(with ([x 1 2]) x)", "(with ([ ]) x)", "(with ([)( 1]) x)", "(with ([\u{a0} 1]) 2)"] {
        check(
            text,
            ParseError::BindingArity,
            ErrorKind::Arity,
            "expected an identifier and bound expression for With clause",
        );
    }
}

#[test]
fn keyword_is_no_identifier() {
    let found = Id::parse("with".to_string()).unwrap_err();
    assert_eq!(found, ParseError::ReservedWord);
    assert_eq!(found.kind(), ErrorKind::InvalidIdentifier);
    assert_eq!(found.message(), "identifier cannot be 'with'");
    assert_eq!(Id::parse("  with ".to_string()), Err(ParseError::ReservedWord));
    check(
        "with",
        ParseError::ReservedWord,
        ErrorKind::InvalidIdentifier,
        "identifier cannot be 'with'",
    );
    check(
        "(+ with 1)",
        ParseError::ReservedWord,
        ErrorKind::InvalidIdentifier,
        "identifier cannot be 'with'",
    );
}

#[test]
fn keyword_cannot_be_bound() {
    check(
        "(with ([with 1]) 2)",
        ParseError::ReservedWord,
        ErrorKind::InvalidIdentifier,
        "identifier cannot be 'with'",
    );
    assert_eq!(Binding::parse("([with 1])".to_string()), Err(ParseError::ReservedWord));
}

#[test]
fn words_close_to_the_keyword_are_identifiers() {
    for name in ["With", "WITH", "wit", "withx", "w"] {
        assert_eq!(
            Id::parse(name.to_string()),
            Ok(Id { val: name.to_string() })
        );
    }
}

#[test]
fn identifiers_hold_letters_only() {
    for text in ["ab1", "a-b", "x_y", "a(b", "a)", "x]"] {
        check(
            text,
            ParseError::NotAlphabetic,
            ErrorKind::InvalidIdentifier,
            "expected an alphabetic identifier",
        );
    }
    assert_eq!(Id::parse("1ab".to_string()), Err(ParseError::NotAlphabetic));
    assert_eq!(
        fails("(with ([x1 1]) 2)"),
        ParseError::NotAlphabetic
    );
    assert_eq!(
        fails("(with ([7 1]) 2)"),
        ParseError::NotAlphabetic
    );
}

#[test]
fn identifiers_hold_letters_of_any_script() {
    assert_eq!(parse("größe".to_string()), Ok(Expr::Id(Box::new(Id { val: "größe".to_string() }))));
    assert_eq!(
        Id::parse(" 京 ".to_string()),
        Ok(Id { val: "京".to_string() })
    );
}

#[test]
fn identifier_needs_a_letter() {
    assert_eq!(Id::parse("".to_string()), Err(ParseError::EmptyInput));
    assert_eq!(Id::parse("  ".to_string()), Err(ParseError::EmptyInput));
    assert_eq!(Id::parse("\u{a0}".to_string()), Err(ParseError::EmptyInput));
}

#[test]
fn opening_parenthesis_needs_its_closing_one() {
    for text in ["(+ 1 2", "(", "(+ 1 (2 3", "((", "(+ 1 2]", "(+ 1 2) 3", "(+ 1 (+ 2 3)"] {
        check(
            text,
            ParseError::MissingParens,
            ErrorKind::Delimiter,
            "expected opening and closing parentheses",
        );
    }
}

#[test]
fn parentheses_need_content() {
    for text in ["()", "(  )", "( \t\n )"] {
        check(
            text,
            ParseError::EmptyGroup,
            ErrorKind::EmptyInput,
            "expected an expression within the parentheses",
        );
    }
}

#[test]
fn unbalanced_content_of_parentheses_is_rejected() {
    for text in ["(+ 1 (2)", "(+ 1 2))", "(+ 1) 2)", "(+ 1 (2 3)", "(()", "(a) b)", "(+ (1 2)"] {
        check(
            text,
            ParseError::MissingParens,
            ErrorKind::Delimiter,
            "expected opening and closing parentheses",
        );
    }
}

#[test]
fn unbalanced_content_of_a_binding_is_rejected() {
    for text in ["([x )])", "([x (1])", "([) x (])", " ( [x 1)] ) "] {
        assert_eq!(Binding::parse(text.to_string()), Err(ParseError::MissingParens), "{}", text);
    }
}

#[test]
fn unknown_form_is_rejected_with_its_first_token() {
    check(
        "(foo 1 2)",
        ParseError::UnknownForm("foo".to_string()),
        ErrorKind::UnknownForm,
        "unexpected parenthesized expression: foo",
    );
    check(
        "(1 2)",
        ParseError::UnknownForm("1".to_string()),
        ErrorKind::UnknownForm,
        "unexpected parenthesized expression: 1",
    );
    check(
        "((+ 1 2))",
        ParseError::UnknownForm("(+ 1 2)".to_string()),
        ErrorKind::UnknownForm,
        "unexpected parenthesized expression: (+ 1 2)",
    );
    check(
        "(With ([x 1]) x)",
        ParseError::UnknownForm("With".to_string()),
        ErrorKind::UnknownForm,
        "unexpected parenthesized expression: With",
    );
    check(
        "(+1 2)",
        ParseError::UnknownForm("+1".to_string()),
        ErrorKind::UnknownForm,
        "unexpected parenthesized expression: +1",
    );
}

#[test]
fn unexpected_first_character_is_rejected_with_it() {
    check(
        "$x",
        ParseError::UnexpectedSymbol('$'),
        ErrorKind::UnexpectedSymbol,
        "unexpected symbol: $",
    );
    check("+", ParseError::UnexpectedSymbol('+'), ErrorKind::UnexpectedSymbol, "unexpected symbol: +");
    check(")", ParseError::UnexpectedSymbol(')'), ErrorKind::UnexpectedSymbol, "unexpected symbol: )");
    check(
        "[x 1]",
        ParseError::UnexpectedSymbol('['),
        ErrorKind::UnexpectedSymbol,
        "unexpected symbol: [",
    );
    check("-5", ParseError::UnexpectedSymbol('-'), ErrorKind::UnexpectedSymbol, "unexpected symbol: -");
    check(".5", ParseError::UnexpectedSymbol('.'), ErrorKind::UnexpectedSymbol, "unexpected symbol: .");
    check(
        "💝",
        ParseError::UnexpectedSymbol('💝'),
        ErrorKind::UnexpectedSymbol,
        "unexpected symbol: 💝",
    );
}

#[test]
fn first_failure_is_reported() {
    assert_eq!(fails("(+ 1x $)"), ParseError::MalformedNumber);
    assert_eq!(fails("(+ $ 1x)"), ParseError::UnexpectedSymbol('$'));
    assert_eq!(fails("(with ([x $]) 1x)"), ParseError::UnexpectedSymbol('$'));
    assert_eq!(fails("(with ([x1 $]) 1x)"), ParseError::NotAlphabetic);
    assert_eq!(fails("(with ([x 1]) 1x)"), ParseError::MalformedNumber);
}

#[test]
fn operation_is_read_from_its_tokens() {
    let tokens = vec!["-".to_string(), " 4 ".to_string(), "(+ 1 2)".to_string()];
    let expected = Expr::Binary(Box::new(Binary {
        op: Operator::Sub,
        left: Expr::Number(Box::new(Number { val: "4".to_string() })),
        right: Expr::Binary(Box::new(Binary {
            op: Operator::Add,
            left: Expr::Number(Box::new(Number { val: "1".to_string() })),
            right: Expr::Number(Box::new(Number { val: "2".to_string() })),
        })),
    }));
    assert_eq!(Binary::parse(tokens), Ok(expected));
    let tokens = vec!["x".to_string(), "1".to_string(), "2".to_string()];
    assert_eq!(Binary::parse(tokens), Err(ParseError::UnknownOperator("x".to_string())));
    assert_eq!(Binary::parse(Vec::new()), Err(ParseError::BinaryArity));
}

#[test]
fn binding_is_read() {
    let expected = Binding {
        identifier: Box::new(Id { val: "x".to_string() }),
        replace: Expr::Number(Box::new(Number { val: "1".to_string() })),
    };
    assert_eq!(Binding::parse("([x 1])".to_string()), Ok(expected.clone()));
    assert_eq!(Binding::parse("  ( [ x   1 ] )  ".to_string()), Ok(expected));
    assert_eq!(Binding::parse("".to_string()), Err(ParseError::BindingParens));
}
