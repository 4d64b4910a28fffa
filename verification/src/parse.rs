use crate::ast::{
    identifier, keyword, well_formed, Binary, Binding, Expr, Id, Number, Operator, Term, With,
};
use crate::error::{ErrorKind, Failure, ParseError};
use crate::literal::{is_number_literal, lemma_literal_ends, number_literal};
use crate::subst::resolve;
use crate::text::{
    chars_of, digit, is_digit, is_letter, lemma_trim_padding, lemma_trim_range,
    lemma_trim_shape, letter, space, trim, trim_bounds, trimmed,
};
use crate::tokens::{
    lemma_longest_bounds, lemma_tokens_sizes, longest, split_tokens, strip_ends, stripped,
    tokens_of,
};
use vstd::prelude::*;

verus! {

/// The operator that a token spells, if it spells one.
pub open spec fn operator_of(token: Seq<char>) -> Option<Operator> {
    if token == seq!['+'] {
        Some(Operator::Add)
    } else if token == seq!['-'] {
        Some(Operator::Sub)
    } else if token == seq!['*'] {
        Some(Operator::Mul)
    } else if token == seq!['/'] {
        Some(Operator::Div)
    } else {
        None
    }
}

/// What a text means as a number: itself, where it is a number literal.
pub open spec fn parse_number(s: Seq<char>) -> Result<Term, Failure> {
    if number_literal(s) {
        Ok(Term::Number(s))
    } else {
        Err(Failure::MalformedNumber)
    }
}

/// What a token means as an operator.
pub open spec fn parse_operator(s: Seq<char>) -> Result<Operator, Failure> {
    match operator_of(s) {
        Some(op) => Ok(op),
        None => Err(Failure::UnknownOperator(s)),
    }
}

/// What a text means as an identifier: the name it spells once trimmed,
/// where that is made of letters and is not the keyword.
pub open spec fn parse_id(s: Seq<char>) -> Result<Seq<char>, Failure> {
    let t = trim(s);
    if t.len() == 0 {
        Err(Failure::EmptyInput)
    } else if t == keyword() {
        Err(Failure::ReservedWord)
    } else if !(forall|i: int| 0 <= i < t.len() ==> letter(t[i])) {
        Err(Failure::NotAlphabetic)
    } else {
        Ok(t)
    }
}

/// What a text means as an expression. The first character of the trimmed
/// text decides which rule applies, and no other rule is tried after it.
pub open spec fn parse_expr(s: Seq<char>) -> Result<Term, Failure>
    decreases s.len(), 4int,
    via parse_expr_decreases
{
    if s.len() == 0 {
        Err(Failure::EmptyInput)
    } else {
        let t = trim(s);
        if t.len() == 0 {
            Err(Failure::BlankInput(s))
        } else if digit(t[0]) {
            parse_number(t)
        } else if t[0] == '(' {
            parse_group(t)
        } else if letter(t[0]) {
            match parse_id(t) {
                Ok(name) => Ok(Term::Id(name)),
                Err(e) => Err(e),
            }
        } else {
            Err(Failure::UnexpectedSymbol(t[0]))
        }
    }
}

/// What a parenthesized text means: an operation or a binding form, as its
/// first token says. Where something stands in the parentheses and has no
/// tokens, its own parentheses do not match.
pub open spec fn parse_group(t: Seq<char>) -> Result<Term, Failure>
    decreases t.len(), 3int,
    via parse_group_decreases
{
    match stripped(t, '(', ')') {
        None => Err(Failure::MissingParens),
        Some(inner) => {
            let tokens = tokens_of(inner);
            if tokens.len() == 0 {
                if trim(inner).len() == 0 {
                    Err(Failure::EmptyGroup)
                } else {
                    Err(Failure::MissingParens)
                }
            } else if operator_of(tokens[0]) is Some {
                parse_binary(tokens)
            } else if tokens[0] == keyword() {
                parse_with(tokens)
            } else {
                Err(Failure::UnknownForm(tokens[0]))
            }
        },
    }
}

/// What the tokens mean as an operation: an operator and exactly two
/// operands.
pub open spec fn parse_binary(tokens: Seq<Seq<char>>) -> Result<Term, Failure>
    decreases longest(tokens) + 1, 2int,
    via parse_binary_decreases
{
    if tokens.len() != 3 {
        Err(Failure::BinaryArity)
    } else {
        match parse_operator(tokens[0]) {
            Err(e) => Err(e),
            Ok(op) => match parse_expr(tokens[1]) {
                Err(e) => Err(e),
                Ok(left) => match parse_expr(tokens[2]) {
                    Err(e) => Err(e),
                    Ok(right) => Ok(Term::Binary(op, Box::new(left), Box::new(right))),
                },
            },
        }
    }
}

/// What the tokens mean as a binding form: the keyword, a binding and a
/// body.
pub open spec fn parse_with(tokens: Seq<Seq<char>>) -> Result<Term, Failure>
    decreases longest(tokens) + 1, 2int,
    via parse_with_decreases
{
    if tokens.len() != 3 {
        Err(Failure::WithArity)
    } else if tokens[0] != keyword() {
        Err(Failure::MissingKeyword)
    } else {
        match parse_binding(tokens[1]) {
            Err(e) => Err(e),
            Ok(binding) => match parse_expr(tokens[2]) {
                Err(e) => Err(e),
                Ok(body) => Ok(Term::With(binding.0, Box::new(binding.1), Box::new(body))),
            },
        }
    }
}

/// What a text means as a binding: inside parentheses and then brackets, an
/// identifier and the expression bound to it.
pub open spec fn parse_binding(s: Seq<char>) -> Result<(Seq<char>, Term), Failure>
    decreases s.len(), 1int,
    via parse_binding_decreases
{
    match stripped(trim(s), '(', ')') {
        None => Err(Failure::BindingParens),
        Some(outer) => match stripped(trim(outer), '[', ']') {
            None => Err(Failure::BindingBrackets),
            Some(inner) => {
                let tokens = tokens_of(inner);
                if inner.len() == 0 {
                    Err(Failure::EmptyBinding)
                } else if tokens.len() == 0 && trim(inner).len() > 0 {
                    Err(Failure::MissingParens)
                } else if tokens.len() != 2 {
                    Err(Failure::BindingArity)
                } else {
                    match parse_id(tokens[0]) {
                        Err(e) => Err(e),
                        Ok(name) => match parse_expr(tokens[1]) {
                            Err(e) => Err(e),
                            Ok(value) => Ok((name, value)),
                        },
                    }
                }
            },
        },
    }
}

#[via_fn]
proof fn parse_expr_decreases(s: Seq<char>) {
    lemma_trim_shape(s);
}

#[via_fn]
proof fn parse_group_decreases(t: Seq<char>) {
    if let Some(inner) = stripped(t, '(', ')') {
        lemma_tokens_sizes(inner);
    }
}

#[via_fn]
proof fn parse_binary_decreases(tokens: Seq<Seq<char>>) {
    if tokens.len() == 3 {
        lemma_longest_bounds(tokens, 1);
        lemma_longest_bounds(tokens, 2);
    }
}

#[via_fn]
proof fn parse_with_decreases(tokens: Seq<Seq<char>>) {
    if tokens.len() == 3 {
        lemma_longest_bounds(tokens, 1);
        lemma_longest_bounds(tokens, 2);
    }
}

#[via_fn]
proof fn parse_binding_decreases(s: Seq<char>) {
    lemma_binding_tokens(s);
}

/// The tokens inside a binding are shorter than the binding.
proof fn lemma_binding_tokens(s: Seq<char>)
    ensures
        stripped(trim(s), '(', ')') matches Some(outer) ==> (stripped(trim(outer), '[', ']') matches Some(
            inner,
        ) ==> longest(tokens_of(inner)) < s.len() && (tokens_of(inner).len() == 2 ==> tokens_of(
            inner,
        )[1].len() < s.len())),
{
    lemma_trim_shape(s);
    if let Some(outer) = stripped(trim(s), '(', ')') {
        lemma_trim_shape(outer);
        if let Some(inner) = stripped(trim(outer), '[', ']') {
            lemma_tokens_sizes(inner);
            if tokens_of(inner).len() == 2 {
                lemma_longest_bounds(tokens_of(inner), 1);
            }
        }
    }
}

/// Every expression that a text means is well formed.
pub proof fn lemma_parse_well_formed(s: Seq<char>)
    ensures
        parse_expr(s) matches Ok(t) ==> well_formed(t),
    decreases s.len(), 4int,
{
    lemma_trim_shape(s);
    let t = trim(s);
    if s.len() > 0 && t.len() > 0 {
        if digit(t[0]) {
        } else if t[0] == '(' {
            lemma_group_well_formed(t);
        } else if letter(t[0]) {
        }
    }
}

proof fn lemma_group_well_formed(t: Seq<char>)
    ensures
        parse_group(t) matches Ok(e) ==> well_formed(e),
    decreases t.len(), 3int,
{
    if let Some(inner) = stripped(t, '(', ')') {
        lemma_tokens_sizes(inner);
        let tokens = tokens_of(inner);
        if tokens.len() > 0 {
            if operator_of(tokens[0]) is Some {
                lemma_binary_well_formed(tokens);
            } else if tokens[0] == keyword() {
                lemma_with_well_formed(tokens);
            }
        }
    }
}

proof fn lemma_binary_well_formed(tokens: Seq<Seq<char>>)
    ensures
        parse_binary(tokens) matches Ok(e) ==> well_formed(e),
    decreases longest(tokens) + 1, 2int,
{
    if tokens.len() == 3 {
        lemma_longest_bounds(tokens, 1);
        lemma_longest_bounds(tokens, 2);
        lemma_parse_well_formed(tokens[1]);
        lemma_parse_well_formed(tokens[2]);
    }
}

proof fn lemma_with_well_formed(tokens: Seq<Seq<char>>)
    ensures
        parse_with(tokens) matches Ok(e) ==> well_formed(e),
    decreases longest(tokens) + 1, 2int,
{
    if tokens.len() == 3 {
        lemma_longest_bounds(tokens, 1);
        lemma_longest_bounds(tokens, 2);
        lemma_binding_well_formed(tokens[1]);
        lemma_parse_well_formed(tokens[2]);
    }
}

proof fn lemma_binding_well_formed(s: Seq<char>)
    ensures
        parse_binding(s) matches Ok(b) ==> identifier(b.0) && well_formed(b.1),
    decreases s.len(), 1int,
{
    lemma_binding_tokens(s);
    if let Some(outer) = stripped(trim(s), '(', ')') {
        if let Some(inner) = stripped(trim(outer), '[', ']') {
            let tokens = tokens_of(inner);
            if tokens.len() == 2 {
                lemma_parse_well_formed(tokens[1]);
            }
        }
    }
}

/// A number literal that begins with a digit means that number, and
/// resolving leaves the number as it is.
pub proof fn lemma_number_literal_parses(s: Seq<char>)
    requires
        number_literal(s),
        digit(s[0]),
    ensures
        parse_expr(s) == Ok::<Term, Failure>(Term::Number(s)),
        resolve(Term::Number(s)) == Term::Number(s),
{
    lemma_literal_ends(s);
    lemma_trim_range(s, 0, s.len() as int);
    assert(s.subrange(0, s.len() as int) =~= s);
}

/// A text that begins with a digit is read as a number or not at all: where
/// it is no number literal it is rejected, and never taken for an
/// identifier, whatever follows the digit.
pub proof fn lemma_digit_begins_number(s: Seq<char>)
    requires
        trim(s).len() > 0,
        digit(trim(s)[0]),
    ensures
        parse_expr(s) == parse_number(trim(s)),
        number_literal(trim(s)) ==> parse_expr(s) == Ok::<Term, Failure>(Term::Number(trim(s))),
        !number_literal(trim(s)) ==> parse_expr(s) == Err::<Term, Failure>(
            Failure::MalformedNumber,
        ),
{
    lemma_trim_shape(s);
}

/// Spaces before and after a text do not change what it means. Where
/// nothing but spaces is in the text, it means nothing with and without
/// them, for want of input.
pub proof fn lemma_padding_ignored(before: Seq<char>, s: Seq<char>, after: Seq<char>)
    requires
        forall|i: int| 0 <= i < before.len() ==> space(before[i]),
        forall|i: int| 0 <= i < after.len() ==> space(after[i]),
    ensures
        trim(s).len() > 0 ==> parse_expr(before + s + after) == parse_expr(s),
        trim(s).len() == 0 ==> (parse_expr(s) matches Err(e) && e.kind()
            == ErrorKind::EmptyInput),
        trim(s).len() == 0 ==> (parse_expr(before + s + after) matches Err(e) && e.kind()
            == ErrorKind::EmptyInput),
{
    lemma_trim_padding(before, s, after);
    lemma_trim_shape(s);
}

/// A parenthesized text means what its tokens mean: two such texts with the
/// same tokens inside, at least one, mean the same, whatever separates the
/// tokens and whatever spaces stand inside the parentheses.
pub proof fn lemma_group_by_tokens(one: Seq<char>, other: Seq<char>)
    requires
        tokens_of(one) == tokens_of(other),
        tokens_of(one).len() > 0,
    ensures
        parse_group(seq!['('] + one + seq![')']) == parse_group(seq!['('] + other + seq![')']),
        parse_expr(seq!['('] + one + seq![')']) == parse_expr(seq!['('] + other + seq![')']),
{
    let a = seq!['('] + one + seq![')'];
    let b = seq!['('] + other + seq![')'];
    assert(a.subrange(1, a.len() - 1) =~= one);
    assert(b.subrange(1, b.len() - 1) =~= other);
    assert(stripped(a, '(', ')') == Some(one));
    assert(stripped(b, '(', ')') == Some(other));
    assert(a[0] == '(' && a.last() == ')');
    assert(b[0] == '(' && b.last() == ')');
    lemma_trim_range(a, 0, a.len() as int);
    lemma_trim_range(b, 0, b.len() as int);
    assert(a.subrange(0, a.len() as int) =~= a);
    assert(b.subrange(0, b.len() as int) =~= b);
}

/// The keyword is no identifier: a text that spells it is rejected as an
/// identifier, and means nothing as an expression either.
pub proof fn lemma_keyword_rejected(s: Seq<char>)
    requires
        trim(s) == keyword(),
    ensures
        parse_id(s) == Err::<Seq<char>, Failure>(Failure::ReservedWord),
        parse_expr(s) is Err,
        letter('w') ==> parse_expr(s) == Err::<Term, Failure>(Failure::ReservedWord),
{
    lemma_trim_shape(s);
    assert(keyword().len() == 4);
    assert(keyword()[0] == 'w');
}

/// The keyword cannot be bound: a binding whose first token spells it is
/// rejected.
pub proof fn lemma_keyword_not_bound(s: Seq<char>, outer: Seq<char>, inner: Seq<char>)
    requires
        stripped(trim(s), '(', ')') == Some(outer),
        stripped(trim(outer), '[', ']') == Some(inner),
        tokens_of(inner).len() == 2,
        trim(tokens_of(inner)[0]) == keyword(),
    ensures
        parse_binding(s) == Err::<(Seq<char>, Term), Failure>(Failure::ReservedWord),
{
    lemma_tokens_sizes(inner);
    assert(keyword().len() == 4);
}

/// The outcome of a parse in its mathematical form.
pub open spec fn outcome(r: Result<Expr, ParseError>) -> Result<Term, Failure> {
    match r {
        Ok(e) => Ok(e@),
        Err(e) => Err(e@),
    }
}

/// The operator that the token spells, if it spells one.
fn operator_from(token: &str) -> (r: Option<Operator>)
    ensures
        r == operator_of(token@),
{
    if token.unicode_len() != 1 {
        return None;
    }
    let c = token.get_char(0);
    if c == '+' {
        assert(token@ =~= seq!['+']);
        Some(Operator::Add)
    } else if c == '-' {
        assert(token@ =~= seq!['-']);
        Some(Operator::Sub)
    } else if c == '*' {
        assert(token@ =~= seq!['*']);
        Some(Operator::Mul)
    } else if c == '/' {
        assert(token@ =~= seq!['/']);
        Some(Operator::Div)
    } else {
        None
    }
}

/// Whether the characters of `v` from `lo` to `hi` spell the keyword.
fn is_keyword(v: &Vec<char>, lo: usize, hi: usize) -> (b: bool)
    requires
        lo <= hi <= v.len(),
    ensures
        b == (v@.subrange(lo as int, hi as int) == keyword()),
{
    let ghost s = v@.subrange(lo as int, hi as int);
    assert(keyword().len() == 4);
    if hi - lo != 4 {
        return false;
    }
    assert(s[0] == v[lo as int] && s[1] == v[lo + 1] && s[2] == v[lo + 2] && s[3] == v[lo + 3]);
    let b = v[lo] == 'w' && v[lo + 1] == 'i' && v[lo + 2] == 't' && v[lo + 3] == 'h';
    assert(b ==> s =~= keyword());
    b
}

impl Number {
    /// Reads a number literal.
    pub fn parse(input: String) -> (r: Result<Expr, ParseError>)
        ensures
            outcome(r) == parse_number(input@),
    {
        let v = chars_of(input.as_str());
        if is_number_literal(&v) {
            Ok(Expr::Number(Box::new(Number { val: input })))
        } else {
            Err(ParseError::MalformedNumber)
        }
    }
}

impl Operator {
    /// Reads one of the four operators.
    pub fn parse(input: String) -> (r: Result<Operator, ParseError>)
        ensures
            match r {
                Ok(op) => parse_operator(input@) == Ok::<Operator, Failure>(op),
                Err(e) => parse_operator(input@) == Err::<Operator, Failure>(e@),
            },
    {
        match operator_from(input.as_str()) {
            Some(op) => Ok(op),
            None => Err(ParseError::UnknownOperator(input)),
        }
    }
}

impl Id {
    /// Reads an identifier: letters only, and not the keyword.
    pub fn parse(input: String) -> (r: Result<Id, ParseError>)
        ensures
            match r {
                Ok(id) => parse_id(input@) == Ok::<Seq<char>, Failure>(id@) && identifier(id@),
                Err(e) => parse_id(input@) == Err::<Seq<char>, Failure>(e@),
            },
    {
        let v = chars_of(input.as_str());
        let (lo, hi) = trim_bounds(&v);
        let ghost t = trim(input@);
        if lo == hi {
            return Err(ParseError::EmptyInput);
        }
        if is_keyword(&v, lo, hi) {
            return Err(ParseError::ReservedWord);
        }
        let mut i = lo;
        while i < hi
            invariant
                lo <= i <= hi <= v.len(),
                t == trim(input@),
                t == v@.subrange(lo as int, hi as int),
                t != keyword(),
                forall|k: int| 0 <= k < i - lo ==> letter(t[k]),
            decreases hi - i,
        {
            if !is_letter(v[i]) {
                assert(!letter(t[i - lo]));
                return Err(ParseError::NotAlphabetic);
            }
            i += 1;
        }
        Ok(Id { val: input.as_str().substring_char(lo, hi).to_owned() })
    }
}

impl Expr {
    /// Reads an expression. The first character of the trimmed text decides
    /// which rule applies: a digit begins a number, an opening parenthesis
    /// an operation or a binding form, a letter an identifier.
    pub fn parse(rep: String) -> (r: Result<Expr, ParseError>)
        ensures
            outcome(r) == parse_expr(rep@),
            r matches Ok(e) ==> well_formed(e@),
        decreases rep@.len(), 4int,
    {
        proof {
            lemma_parse_well_formed(rep@);
        }
        if rep.as_str().is_empty() {
            return Err(ParseError::EmptyInput);
        }
        let v = chars_of(rep.as_str());
        let (lo, hi) = trim_bounds(&v);
        if lo == hi {
            return Err(ParseError::BlankInput(rep));
        }
        let first = v[lo];
        let text = rep.as_str().substring_char(lo, hi).to_owned();
        if is_digit(first) {
            Number::parse(text)
        } else if first == '(' {
            parse_paren_expr(text)
        } else if is_letter(first) {
            match Id::parse(text) {
                Ok(id) => Ok(Expr::Id(Box::new(id))),
                Err(e) => Err(e),
            }
        } else {
            Err(ParseError::UnexpectedSymbol(first))
        }
    }
}

/// Reads the operation or the binding form that a parenthesized text holds.
pub fn parse_paren_expr(parse_string: String) -> (r: Result<Expr, ParseError>)
    ensures
        outcome(r) == parse_group(parse_string@),
    decreases parse_string@.len(), 3int,
{
    let inner = match strip_ends(parse_string, '(', ')') {
        Some(s) => s,
        None => {
            return Err(ParseError::MissingParens);
        },
    };
    proof {
        lemma_tokens_sizes(inner@);
    }
    let blank = trimmed(inner.as_str()).as_str().is_empty();
    let exprs = split_tokens(inner);
    if exprs.len() == 0 {
        if blank {
            return Err(ParseError::EmptyGroup);
        }
        return Err(ParseError::MissingParens);
    }
    assert(exprs.deep_view()[0] == exprs[0]@);
    if operator_from(exprs[0].as_str()).is_some() {
        Binary::parse(exprs)
    } else {
        let head = chars_of(exprs[0].as_str());
        assert(head@.subrange(0, head.len() as int) =~= head@);
        if is_keyword(&head, 0, head.len()) {
            With::parse(exprs)
        } else {
            Err(ParseError::UnknownForm(exprs[0].clone()))
        }
    }
}

impl Binary {
    /// Reads an operation from its tokens: an operator and two operands.
    pub fn parse(tokens: Vec<String>) -> (r: Result<Expr, ParseError>)
        ensures
            outcome(r) == parse_binary(tokens.deep_view()),
        decreases longest(tokens.deep_view()) + 1, 2int,
    {
        if tokens.len() != 3 {
            return Err(ParseError::BinaryArity);
        }
        proof {
            lemma_longest_bounds(tokens.deep_view(), 1);
            lemma_longest_bounds(tokens.deep_view(), 2);
            assert(tokens.deep_view()[0] == tokens[0]@);
            assert(tokens.deep_view()[1] == tokens[1]@);
            assert(tokens.deep_view()[2] == tokens[2]@);
        }
        let op = match Operator::parse(tokens[0].clone()) {
            Ok(op) => op,
            Err(e) => {
                return Err(e);
            },
        };
        let left = match Expr::parse(tokens[1].clone()) {
            Ok(e) => e,
            Err(e) => {
                return Err(e);
            },
        };
        let right = match Expr::parse(tokens[2].clone()) {
            Ok(e) => e,
            Err(e) => {
                return Err(e);
            },
        };
        Ok(Expr::Binary(Box::new(Binary { op, left, right })))
    }
}

impl With {
    /// Reads a binding form from its tokens: the keyword, a binding and a
    /// body.
    pub fn parse(tokens: Vec<String>) -> (r: Result<Expr, ParseError>)
        ensures
            outcome(r) == parse_with(tokens.deep_view()),
        decreases longest(tokens.deep_view()) + 1, 2int,
    {
        if tokens.len() != 3 {
            return Err(ParseError::WithArity);
        }
        proof {
            lemma_longest_bounds(tokens.deep_view(), 1);
            lemma_longest_bounds(tokens.deep_view(), 2);
            assert(tokens.deep_view()[0] == tokens[0]@);
            assert(tokens.deep_view()[1] == tokens[1]@);
            assert(tokens.deep_view()[2] == tokens[2]@);
        }
        let head = chars_of(tokens[0].as_str());
        assert(head@.subrange(0, head.len() as int) =~= head@);
        if !is_keyword(&head, 0, head.len()) {
            return Err(ParseError::MissingKeyword);
        }
        let binding = match Binding::parse(tokens[1].clone()) {
            Ok(b) => b,
            Err(e) => {
                return Err(e);
            },
        };
        let input = match Expr::parse(tokens[2].clone()) {
            Ok(e) => e,
            Err(e) => {
                return Err(e);
            },
        };
        Ok(Expr::With(Box::new(With { binding, input })))
    }
}

impl Binding {
    /// Reads a binding: inside parentheses and then brackets, an identifier
    /// and the expression bound to it.
    pub fn parse(input: String) -> (r: Result<Binding, ParseError>)
        ensures
            match r {
                Ok(b) => parse_binding(input@) == Ok::<(Seq<char>, Term), Failure>(b@),
                Err(e) => parse_binding(input@) == Err::<(Seq<char>, Term), Failure>(e@),
            },
        decreases input@.len(), 1int,
    {
        proof {
            lemma_binding_tokens(input@);
        }
        let outer = match strip_ends(trimmed(input.as_str()), '(', ')') {
            Some(s) => s,
            None => {
                return Err(ParseError::BindingParens);
            },
        };
        let inner = match strip_ends(trimmed(outer.as_str()), '[', ']') {
            Some(s) => s,
            None => {
                return Err(ParseError::BindingBrackets);
            },
        };
        if inner.as_str().is_empty() {
            return Err(ParseError::EmptyBinding);
        }
        let blank = trimmed(inner.as_str()).as_str().is_empty();
        let tokens = split_tokens(inner);
        if tokens.len() == 0 && !blank {
            return Err(ParseError::MissingParens);
        }
        if tokens.len() != 2 {
            return Err(ParseError::BindingArity);
        }
        assert(tokens.deep_view()[0] == tokens[0]@);
        assert(tokens.deep_view()[1] == tokens[1]@);
        let identifier = match Id::parse(tokens[0].clone()) {
            Ok(id) => Box::new(id),
            Err(e) => {
                return Err(e);
            },
        };
        let replace = match Expr::parse(tokens[1].clone()) {
            Ok(e) => e,
            Err(e) => {
                return Err(e);
            },
        };
        Ok(Binding { identifier, replace })
    }
}

/// Reads the expression that the text holds, or says in a message what was
/// expected where it holds none.
pub fn parse(rep: String) -> (r: Result<Expr, String>)
    ensures
        match r {
            Ok(e) => parse_expr(rep@) == Ok::<Term, Failure>(e@) && well_formed(e@),
            Err(m) => parse_expr(rep@) matches Err(e) && m@ == e.message(),
        },
{
    match Expr::parse(rep) {
        Ok(e) => Ok(e),
        Err(e) => Err(e.message()),
    }
}

} // verus!
