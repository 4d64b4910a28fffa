use vstd::prelude::*;

verus! {

/// The classes into which the parse errors fall.
#[derive(Clone, Copy, Debug, PartialEq, Eq)]
pub enum ErrorKind {
    /// The text is empty, or nothing is left of it once it is trimmed or
    /// stripped.
    EmptyInput,
    /// A token that begins with a digit is no number.
    MalformedNumber,
    /// Parentheses or brackets are missing where they are required.
    Delimiter,
    /// An operation or a binding form has the wrong number of parts.
    Arity,
    /// A parenthesized form begins with neither an operator nor the keyword.
    UnknownForm,
    /// An identifier holds something that is no letter, or is the keyword.
    InvalidIdentifier,
    /// The text begins with a character that begins no expression.
    UnexpectedSymbol,
}

/// Why a text is no expression, named after the place where it was found.
#[derive(Debug, PartialEq, Eq)]
pub enum ParseError {
    /// The text is empty.
    EmptyInput,
    /// The text, which is carried along, holds spaces only.
    BlankInput(String),
    /// The token begins with a digit and is no number literal.
    MalformedNumber,
    /// An operation does not consist of an operator and two operands.
    BinaryArity,
    /// The token, which is carried along, is none of the four operators.
    UnknownOperator(String),
    /// A binding form does not consist of keyword, binding and body.
    WithArity,
    /// A binding form does not begin with the keyword.
    MissingKeyword,
    /// The binding is not wrapped in parentheses.
    BindingParens,
    /// The binding is not wrapped in brackets inside its parentheses.
    BindingBrackets,
    /// The brackets of the binding hold nothing.
    EmptyBinding,
    /// The binding does not consist of an identifier and an expression.
    BindingArity,
    /// The identifier is the keyword.
    ReservedWord,
    /// The identifier holds a character that is no letter.
    NotAlphabetic,
    /// A parenthesis is without its partner: the text begins with an
    /// opening parenthesis and does not end with a closing one, or the
    /// parentheses inside it do not match.
    MissingParens,
    /// The parentheses hold nothing but spaces.
    EmptyGroup,
    /// The first token in the parentheses, which is carried along, is neither
    /// an operator nor the keyword.
    UnknownForm(String),
    /// The text begins with this character, which begins no expression.
    UnexpectedSymbol(char),
}

/// `String::push` of the standard library, taken on trust: the string holds
/// afterwards what it held before, and the character after that.
pub assume_specification[ String::push ](s: &mut String, c: char)
    ensures
        final(s)@ == old(s)@.push(c),
;

/// The mathematical form of a [`ParseError`].
pub enum Failure {
    EmptyInput,
    BlankInput(Seq<char>),
    MalformedNumber,
    BinaryArity,
    UnknownOperator(Seq<char>),
    WithArity,
    MissingKeyword,
    BindingParens,
    BindingBrackets,
    EmptyBinding,
    BindingArity,
    ReservedWord,
    NotAlphabetic,
    MissingParens,
    EmptyGroup,
    UnknownForm(Seq<char>),
    UnexpectedSymbol(char),
}

impl Failure {
    /// The class of the failure.
    pub open spec fn kind(self) -> ErrorKind {
        match self {
            Failure::EmptyInput => ErrorKind::EmptyInput,
            Failure::BlankInput(_) => ErrorKind::EmptyInput,
            Failure::MalformedNumber => ErrorKind::MalformedNumber,
            Failure::BinaryArity => ErrorKind::Arity,
            Failure::UnknownOperator(_) => ErrorKind::UnknownForm,
            Failure::WithArity => ErrorKind::Arity,
            Failure::MissingKeyword => ErrorKind::UnknownForm,
            Failure::BindingParens => ErrorKind::Delimiter,
            Failure::BindingBrackets => ErrorKind::Delimiter,
            Failure::EmptyBinding => ErrorKind::EmptyInput,
            Failure::BindingArity => ErrorKind::Arity,
            Failure::ReservedWord => ErrorKind::InvalidIdentifier,
            Failure::NotAlphabetic => ErrorKind::InvalidIdentifier,
            Failure::MissingParens => ErrorKind::Delimiter,
            Failure::EmptyGroup => ErrorKind::EmptyInput,
            Failure::UnknownForm(_) => ErrorKind::UnknownForm,
            Failure::UnexpectedSymbol(_) => ErrorKind::UnexpectedSymbol,
        }
    }

    /// The message that tells a reader what was expected.
    pub open spec fn message(self) -> Seq<char> {
        match self {
            Failure::EmptyInput => "expected a non-empty input"@,
            Failure::BlankInput(text) => "unable to parse expression: "@ + text,
            Failure::MalformedNumber => "expected a Number"@,
            Failure::BinaryArity => "expected an operator type and two inputs for binary expression"@,
            Failure::UnknownOperator(token) => "unexpected operator: "@ + token,
            Failure::WithArity => "expected 'with' symbol, binding, and input for With expression"@,
            Failure::MissingKeyword => "expected 'with'"@,
            Failure::BindingParens => "expected With binding to be wrapped in parentheses"@,
            Failure::BindingBrackets => "expected With binding to be wrapped in brackets"@,
            Failure::EmptyBinding => "expected a binding expression for With clause"@,
            Failure::BindingArity => "expected an identifier and bound expression for With clause"@,
            Failure::ReservedWord => "identifier cannot be 'with'"@,
            Failure::NotAlphabetic => "expected an alphabetic identifier"@,
            Failure::MissingParens => "expected opening and closing parentheses"@,
            Failure::EmptyGroup => "expected an expression within the parentheses"@,
            Failure::UnknownForm(token) => "unexpected parenthesized expression: "@ + token,
            Failure::UnexpectedSymbol(c) => "unexpected symbol: "@.push(c),
        }
    }
}

impl View for ParseError {
    type V = Failure;

    open spec fn view(&self) -> Failure {
        match self {
            ParseError::EmptyInput => Failure::EmptyInput,
            ParseError::BlankInput(text) => Failure::BlankInput(text@),
            ParseError::MalformedNumber => Failure::MalformedNumber,
            ParseError::BinaryArity => Failure::BinaryArity,
            ParseError::UnknownOperator(token) => Failure::UnknownOperator(token@),
            ParseError::WithArity => Failure::WithArity,
            ParseError::MissingKeyword => Failure::MissingKeyword,
            ParseError::BindingParens => Failure::BindingParens,
            ParseError::BindingBrackets => Failure::BindingBrackets,
            ParseError::EmptyBinding => Failure::EmptyBinding,
            ParseError::BindingArity => Failure::BindingArity,
            ParseError::ReservedWord => Failure::ReservedWord,
            ParseError::NotAlphabetic => Failure::NotAlphabetic,
            ParseError::MissingParens => Failure::MissingParens,
            ParseError::EmptyGroup => Failure::EmptyGroup,
            ParseError::UnknownForm(token) => Failure::UnknownForm(token@),
            ParseError::UnexpectedSymbol(c) => Failure::UnexpectedSymbol(*c),
        }
    }
}

impl Clone for ParseError {
    fn clone(&self) -> (r: Self)
        ensures
            r == *self,
    {
        match self {
            ParseError::EmptyInput => ParseError::EmptyInput,
            ParseError::BlankInput(text) => ParseError::BlankInput(text.clone()),
            ParseError::MalformedNumber => ParseError::MalformedNumber,
            ParseError::BinaryArity => ParseError::BinaryArity,
            ParseError::UnknownOperator(token) => ParseError::UnknownOperator(token.clone()),
            ParseError::WithArity => ParseError::WithArity,
            ParseError::MissingKeyword => ParseError::MissingKeyword,
            ParseError::BindingParens => ParseError::BindingParens,
            ParseError::BindingBrackets => ParseError::BindingBrackets,
            ParseError::EmptyBinding => ParseError::EmptyBinding,
            ParseError::BindingArity => ParseError::BindingArity,
            ParseError::ReservedWord => ParseError::ReservedWord,
            ParseError::NotAlphabetic => ParseError::NotAlphabetic,
            ParseError::MissingParens => ParseError::MissingParens,
            ParseError::EmptyGroup => ParseError::EmptyGroup,
            ParseError::UnknownForm(token) => ParseError::UnknownForm(token.clone()),
            ParseError::UnexpectedSymbol(c) => ParseError::UnexpectedSymbol(*c),
        }
    }
}

impl ParseError {
    /// The class of the error.
    pub fn kind(&self) -> (k: ErrorKind)
        ensures
            k == self@.kind(),
    {
        match self {
            ParseError::EmptyInput => ErrorKind::EmptyInput,
            ParseError::BlankInput(_) => ErrorKind::EmptyInput,
            ParseError::MalformedNumber => ErrorKind::MalformedNumber,
            ParseError::BinaryArity => ErrorKind::Arity,
            ParseError::UnknownOperator(_) => ErrorKind::UnknownForm,
            ParseError::WithArity => ErrorKind::Arity,
            ParseError::MissingKeyword => ErrorKind::UnknownForm,
            ParseError::BindingParens => ErrorKind::Delimiter,
            ParseError::BindingBrackets => ErrorKind::Delimiter,
            ParseError::EmptyBinding => ErrorKind::EmptyInput,
            ParseError::BindingArity => ErrorKind::Arity,
            ParseError::ReservedWord => ErrorKind::InvalidIdentifier,
            ParseError::NotAlphabetic => ErrorKind::InvalidIdentifier,
            ParseError::MissingParens => ErrorKind::Delimiter,
            ParseError::EmptyGroup => ErrorKind::EmptyInput,
            ParseError::UnknownForm(_) => ErrorKind::UnknownForm,
            ParseError::UnexpectedSymbol(_) => ErrorKind::UnexpectedSymbol,
        }
    }

    /// The message that tells a reader what was expected.
    pub fn message(&self) -> (m: String)
        ensures
            m@ == self@.message(),
    {
        match self {
            ParseError::EmptyInput => "expected a non-empty input".to_owned(),
            ParseError::BlankInput(text) => "unable to parse expression: ".to_owned().concat(
                text.as_str(),
            ),
            ParseError::MalformedNumber => "expected a Number".to_owned(),
            ParseError::BinaryArity => "expected an operator type and two inputs for binary expression".to_owned(),
            ParseError::UnknownOperator(token) => "unexpected operator: ".to_owned().concat(
                token.as_str(),
            ),
            ParseError::WithArity => "expected 'with' symbol, binding, and input for With expression".to_owned(),
            ParseError::MissingKeyword => "expected 'with'".to_owned(),
            ParseError::BindingParens => "expected With binding to be wrapped in parentheses".to_owned(),
            ParseError::BindingBrackets => "expected With binding to be wrapped in brackets".to_owned(),
            ParseError::EmptyBinding => "expected a binding expression for With clause".to_owned(),
            ParseError::BindingArity => "expected an identifier and bound expression for With clause".to_owned(),
            ParseError::ReservedWord => "identifier cannot be 'with'".to_owned(),
            ParseError::NotAlphabetic => "expected an alphabetic identifier".to_owned(),
            ParseError::MissingParens => "expected opening and closing parentheses".to_owned(),
            ParseError::EmptyGroup => "expected an expression within the parentheses".to_owned(),
            ParseError::UnknownForm(token) => "unexpected parenthesized expression: ".to_owned().concat(
                token.as_str(),
            ),
            ParseError::UnexpectedSymbol(c) => {
                let mut m = "unexpected symbol: ".to_owned();
                m.push(*c);
                m
            },
        }
    }
}

} // verus!
