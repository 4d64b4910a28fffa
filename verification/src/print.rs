use crate::ast::{identifier, keyword, well_formed, Operator, Term};
use crate::error::Failure;
use crate::literal::{lemma_literal_ends, lemma_literal_plain};
use crate::parse::{
    operator_of, parse_binary, parse_binding, parse_expr, parse_group, parse_id, parse_with,
};
use crate::text::{digit, lemma_trim_range, letter, space, trim};
use crate::tokens::{stripped, tokens_of};
use crate::units::{
    atom, join, lemma_balanced_concat, lemma_join_balanced, lemma_join_tokens,
    lemma_plain_balanced, lemma_wrap_group, unit,
};
use vstd::prelude::*;

verus! {

/// The token that spells the operator.
pub open spec fn operator_text(op: Operator) -> Seq<char> {
    match op {
        Operator::Add => seq!['+'],
        Operator::Sub => seq!['-'],
        Operator::Mul => seq!['*'],
        Operator::Div => seq!['/'],
    }
}

/// The binding of `name` to the expression written as `bound`, written
/// down: `([name bound])`.
pub open spec fn binding_text(name: Seq<char>, bound: Seq<char>) -> Seq<char> {
    seq!['('] + (seq!['['] + join(seq![name, bound]) + seq![']']) + seq![')']
}

/// The term written down, with one space between the parts of a form.
pub open spec fn text_of(t: Term) -> Seq<char>
    decreases t,
{
    match t {
        Term::Number(s) => s,
        Term::Id(x) => x,
        Term::Binary(op, left, right) => seq!['('] + join(
            seq![operator_text(op), text_of(*left), text_of(*right)],
        ) + seq![')'],
        Term::With(x, bound, body) => seq!['('] + join(
            seq![keyword(), binding_text(x, text_of(*bound)), text_of(*body)],
        ) + seq![')'],
    }
}

/// No letter is a space, a digit or a parenthesis. This is so of the letters
/// of Unicode; it is stated here as what the laws on written terms rest on,
/// since [`letter`] says of no character whether it is one.
pub open spec fn letters_apart() -> bool {
    forall|c: char| #[trigger] letter(c) ==> !space(c) && !digit(c) && c != '(' && c != ')'
}

proof fn lemma_ends_trimmed(u: Seq<char>)
    requires
        u.len() > 0,
        !space(u[0]),
        !space(u.last()),
    ensures
        trim(u) == u,
{
    lemma_trim_range(u, 0, u.len() as int);
    assert(u.subrange(0, u.len() as int) =~= u);
}

proof fn lemma_identifier_unit(x: Seq<char>)
    requires
        identifier(x),
        letters_apart(),
    ensures
        unit(x),
        parse_id(x) == Ok::<Seq<char>, Failure>(x),
        parse_expr(x) == Ok::<Term, Failure>(Term::Id(x)),
{
    assert(letter(x[0]) && letter(x.last()));
    assert(atom(x)) by {
        assert forall|i: int| 0 <= i < x.len() implies !space(x[i]) && x[i] != '(' && x[i] != ')' by {
            assert(letter(x[i]));
        }
    }
    lemma_ends_trimmed(x);
}

proof fn lemma_number_unit(s: Seq<char>)
    requires
        well_formed(Term::Number(s)),
    ensures
        unit(s),
        parse_expr(s) == Ok::<Term, Failure>(Term::Number(s)),
{
    lemma_literal_ends(s);
    lemma_literal_plain(s);
    lemma_ends_trimmed(s);
}

proof fn lemma_operator_unit(op: Operator)
    ensures
        unit(operator_text(op)),
        operator_of(operator_text(op)) == Some(op),
{
    let u = operator_text(op);
    assert(u.len() == 1);
    assert(u[0] == '+' || u[0] == '-' || u[0] == '*' || u[0] == '/');
    assert(atom(u));
    assert(u =~= seq![u[0]]);
}

proof fn lemma_keyword_unit()
    ensures
        unit(keyword()),
        operator_of(keyword()) is None,
{
    let k = keyword();
    assert(k.len() == 4);
    assert(k[0] == 'w' && k[1] == 'i' && k[2] == 't' && k[3] == 'h');
    assert(atom(k));
}

/// A binding written down is a unit, and is read as the binding it writes.
proof fn lemma_binding_text(x: Seq<char>, bound: Seq<char>, value: Term)
    requires
        identifier(x),
        letters_apart(),
        unit(bound),
        parse_expr(bound) == Ok::<Term, Failure>(value),
    ensures
        unit(binding_text(x, bound)),
        parse_binding(binding_text(x, bound)) == Ok::<(Seq<char>, Term), Failure>((x, value)),
{
    let parts = seq![x, bound];
    let inner = join(parts);
    let bracket = seq!['['] + inner + seq![']'];
    let g = binding_text(x, bound);
    lemma_identifier_unit(x);
    assert forall|i: int| 0 <= i < parts.len() implies unit(#[trigger] parts[i]) by {
        assert(parts[0] == x && parts[1] == bound);
    }
    lemma_join_balanced(parts);
    lemma_join_tokens(parts);
    lemma_plain_balanced(seq!['[']);
    lemma_plain_balanced(seq![']']);
    lemma_balanced_concat(seq!['['], inner);
    lemma_balanced_concat(seq!['['] + inner, seq![']']);
    lemma_wrap_group(bracket);
    lemma_ends_trimmed(g);
    assert(bracket[0] == '[');
    assert(bracket.last() == ']');
    lemma_ends_trimmed(bracket);
    assert(bracket.subrange(1, bracket.len() - 1) =~= inner);
    assert(stripped(bracket, '[', ']') == Some(inner));
    assert(tokens_of(inner) == parts);
}

/// An operation written down is a unit, and is read as the operation.
proof fn lemma_operation_text(op: Operator, left: Term, right: Term)
    requires
        unit(text_of(left)),
        unit(text_of(right)),
        parse_expr(text_of(left)) == Ok::<Term, Failure>(left),
        parse_expr(text_of(right)) == Ok::<Term, Failure>(right),
    ensures
        unit(text_of(Term::Binary(op, Box::new(left), Box::new(right)))),
        parse_expr(text_of(Term::Binary(op, Box::new(left), Box::new(right)))) == Ok::<
            Term,
            Failure,
        >(Term::Binary(op, Box::new(left), Box::new(right))),
{
    let t = Term::Binary(op, Box::new(left), Box::new(right));
    lemma_operator_unit(op);
    let parts = seq![operator_text(op), text_of(left), text_of(right)];
    assert forall|i: int| 0 <= i < parts.len() implies unit(#[trigger] parts[i]) by {
        assert(parts[0] == operator_text(op) && parts[1] == text_of(left) && parts[2] == text_of(
            right,
        ));
    }
    lemma_form_text(parts);
    assert(parse_binary(parts) == Ok::<Term, Failure>(t));
}

/// A binding form written down is a unit, and is read as the binding form.
proof fn lemma_with_text(x: Seq<char>, bound: Term, body: Term)
    requires
        identifier(x),
        letters_apart(),
        unit(text_of(bound)),
        unit(text_of(body)),
        parse_expr(text_of(bound)) == Ok::<Term, Failure>(bound),
        parse_expr(text_of(body)) == Ok::<Term, Failure>(body),
    ensures
        unit(text_of(Term::With(x, Box::new(bound), Box::new(body)))),
        parse_expr(text_of(Term::With(x, Box::new(bound), Box::new(body)))) == Ok::<Term, Failure>(
            Term::With(x, Box::new(bound), Box::new(body)),
        ),
{
    let t = Term::With(x, Box::new(bound), Box::new(body));
    lemma_keyword_unit();
    lemma_binding_text(x, text_of(bound), bound);
    let parts = seq![keyword(), binding_text(x, text_of(bound)), text_of(body)];
    assert forall|i: int| 0 <= i < parts.len() implies unit(#[trigger] parts[i]) by {
        assert(parts[0] == keyword() && parts[1] == binding_text(x, text_of(bound)) && parts[2]
            == text_of(body));
    }
    lemma_form_text(parts);
    assert(parse_with(parts) == Ok::<Term, Failure>(t));
}

/// Every well-formed term is what its written form means: writing a term
/// down and reading it gives the term again. With the law that every term
/// read is well formed, this says that the well-formed terms are exactly the
/// terms that texts mean.
pub proof fn lemma_text_parses(t: Term)
    requires
        well_formed(t),
        letters_apart(),
    ensures
        unit(text_of(t)),
        parse_expr(text_of(t)) == Ok::<Term, Failure>(t),
    decreases t,
{
    match t {
        Term::Number(s) => {
            lemma_number_unit(s);
        },
        Term::Id(x) => {
            lemma_identifier_unit(x);
        },
        Term::Binary(op, left, right) => {
            lemma_text_parses(*left);
            lemma_text_parses(*right);
            lemma_operation_text(op, *left, *right);
        },
        Term::With(x, bound, body) => {
            lemma_text_parses(*bound);
            lemma_text_parses(*body);
            lemma_with_text(x, *bound, *body);
        },
    }
}

/// Units joined and put in parentheses are a unit, which is read as the
/// form that the units make up.
proof fn lemma_form_text(parts: Seq<Seq<char>>)
    requires
        parts.len() > 0,
        forall|i: int| 0 <= i < parts.len() ==> unit(#[trigger] parts[i]),
    ensures
        unit(seq!['('] + join(parts) + seq![')']),
        parse_expr(seq!['('] + join(parts) + seq![')']) == parse_group(
            seq!['('] + join(parts) + seq![')'],
        ),
        stripped(seq!['('] + join(parts) + seq![')'], '(', ')') == Some(join(parts)),
        tokens_of(join(parts)) == parts,
{
    let text = seq!['('] + join(parts) + seq![')'];
    lemma_join_balanced(parts);
    lemma_join_tokens(parts);
    lemma_wrap_group(join(parts));
    lemma_ends_trimmed(text);
    assert(text[0] == '(');
}

} // verus!
