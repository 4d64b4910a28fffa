use crate::ast::{Binding, Expr, Operator, Term};
use vstd::prelude::*;

verus! {

/// What a line of the outline of a tree shows.
#[derive(Debug, PartialEq, Eq)]
pub enum Label {
    /// A number, with the literal that was written for it.
    Number(String),
    /// An operation.
    Operation(Operator),
    /// A binding form.
    With,
    /// The binding of a binding form.
    Binding,
    /// An identifier, with its name.
    Id(String),
}

/// The mathematical form of a [`Label`].
pub enum Caption {
    Number(Seq<char>),
    Operation(Operator),
    With,
    Binding,
    Id(Seq<char>),
}

/// A line of the outline of a tree: what is drawn before the node, and the
/// node.
#[derive(Debug, PartialEq, Eq)]
pub struct Line {
    pub prefix: String,
    pub label: Label,
}

impl View for Label {
    type V = Caption;

    open spec fn view(&self) -> Caption {
        match self {
            Label::Number(s) => Caption::Number(s@),
            Label::Operation(op) => Caption::Operation(*op),
            Label::With => Caption::With,
            Label::Binding => Caption::Binding,
            Label::Id(x) => Caption::Id(x@),
        }
    }
}

impl View for Line {
    type V = (Seq<char>, Caption);

    open spec fn view(&self) -> (Seq<char>, Caption) {
        (self.prefix@, self.label@)
    }
}

/// The name under which an operator is shown.
pub open spec fn operator_name(op: Operator) -> Seq<char> {
    match op {
        Operator::Add => "Add"@,
        Operator::Sub => "Subtract"@,
        Operator::Mul => "Multiply"@,
        Operator::Div => "Divide"@,
    }
}

impl Caption {
    /// The words of the caption.
    pub open spec fn text(self) -> Seq<char> {
        match self {
            Caption::Number(s) => "Number: "@ + s,
            Caption::Operation(op) => operator_name(op),
            Caption::With => "With"@,
            Caption::Binding => "Binding"@,
            Caption::Id(x) => "Id: "@ + x,
        }
    }
}

/// The outline of a term: a line for the term, drawn after `prefix`, and
/// below it the outlines of its two children, if it has any, drawn after
/// `below` and a branch. The children of a binding form are its binding and
/// its body.
pub open spec fn outline_of(t: Term, prefix: Seq<char>, below: Seq<char>) -> Seq<
    (Seq<char>, Caption),
>
    decreases t, 0int,
{
    match t {
        Term::Number(s) => seq![(prefix, Caption::Number(s))],
        Term::Id(x) => seq![(prefix, Caption::Id(x))],
        Term::Binary(op, left, right) => seq![(prefix, Caption::Operation(op))] + outline_of(
            *left,
            below + "├── "@,
            below + "│   "@,
        ) + outline_of(*right, below + "└── "@, below + "    "@),
        Term::With(x, bound, body) => seq![(prefix, Caption::With)] + outline_of_binding(
            x,
            *bound,
            below + "├── "@,
            below + "│   "@,
        ) + outline_of(*body, below + "└── "@, below + "    "@),
    }
}

/// The outline of a binding: a line for the binding, and below it a line
/// for the name and the outline of the bound expression.
pub open spec fn outline_of_binding(
    name: Seq<char>,
    bound: Term,
    prefix: Seq<char>,
    below: Seq<char>,
) -> Seq<(Seq<char>, Caption)>
    decreases bound, 1int,
{
    seq![(prefix, Caption::Binding), (below + "├── "@, Caption::Id(name))] + outline_of(
        bound,
        below + "└── "@,
        below + "    "@,
    )
}

/// The outline of a term that stands by itself.
pub open spec fn outline(t: Term) -> Seq<(Seq<char>, Caption)> {
    outline_of(t, Seq::empty(), Seq::empty())
}

/// The lines in their mathematical form.
pub open spec fn lines_view(lines: Vec<Line>) -> Seq<(Seq<char>, Caption)> {
    lines@.map_values(|line: Line| line@)
}

impl Operator {
    /// The name under which the operator is shown.
    pub fn name(&self) -> (r: String)
        ensures
            r@ == operator_name(*self),
    {
        match self {
            Operator::Add => "Add".to_owned(),
            Operator::Sub => "Subtract".to_owned(),
            Operator::Mul => "Multiply".to_owned(),
            Operator::Div => "Divide".to_owned(),
        }
    }
}

impl Label {
    /// The words of the label. A number is shown as it was written.
    pub fn text(&self) -> (r: String)
        ensures
            r@ == self@.text(),
    {
        match self {
            Label::Number(s) => "Number: ".to_owned().concat(s.as_str()),
            Label::Operation(op) => op.name(),
            Label::With => "With".to_owned(),
            Label::Binding => "Binding".to_owned(),
            Label::Id(x) => "Id: ".to_owned().concat(x.as_str()),
        }
    }
}

/// Adds the outline of the expression to the lines.
fn outline_expr(expr: &Expr, prefix: String, below: String, lines: &mut Vec<Line>)
    ensures
        lines_view(*final(lines)) == lines_view(*old(lines)) + outline_of(expr@, prefix@, below@),
    decreases expr, 0int,
{
    let ghost before = lines_view(*lines);
    match expr {
        Expr::Number(n) => {
            lines.push(Line { prefix, label: Label::Number(n.val.clone()) });
            assert(lines_view(*lines) =~= before + seq![(prefix@, Caption::Number(n.val@))]);
        },
        Expr::Id(i) => {
            lines.push(Line { prefix, label: Label::Id(i.val.clone()) });
            assert(lines_view(*lines) =~= before + seq![(prefix@, Caption::Id(i.val@))]);
        },
        Expr::Binary(b) => {
            lines.push(Line { prefix, label: Label::Operation(b.op) });
            assert(lines_view(*lines) =~= before + seq![(prefix@, Caption::Operation(b.op))]);
            outline_expr(&b.left, below.clone().concat("├── "), below.clone().concat("│   "), lines);
            outline_expr(&b.right, below.clone().concat("└── "), below.concat("    "), lines);
            assert(lines_view(*lines) =~= before + outline_of(expr@, prefix@, below@));
        },
        Expr::With(w) => {
            lines.push(Line { prefix, label: Label::With });
            assert(lines_view(*lines) =~= before + seq![(prefix@, Caption::With)]);
            outline_binding(
                &w.binding,
                below.clone().concat("├── "),
                below.clone().concat("│   "),
                lines,
            );
            outline_expr(&w.input, below.clone().concat("└── "), below.concat("    "), lines);
            assert(lines_view(*lines) =~= before + outline_of(expr@, prefix@, below@));
        },
    }
}

/// Adds the outline of the binding to the lines.
fn outline_binding(binding: &Binding, prefix: String, below: String, lines: &mut Vec<Line>)
    ensures
        lines_view(*final(lines)) == lines_view(*old(lines)) + outline_of_binding(
            binding@.0,
            binding@.1,
            prefix@,
            below@,
        ),
    decreases binding.replace, 1int,
{
    let ghost before = lines_view(*lines);
    lines.push(Line { prefix, label: Label::Binding });
    lines.push(
        Line {
            prefix: below.clone().concat("├── "),
            label: Label::Id(binding.identifier.val.clone()),
        },
    );
    assert(lines_view(*lines) =~= before + seq![
        (prefix@, Caption::Binding),
        (below@ + "├── "@, Caption::Id(binding@.0)),
    ]);
    outline_expr(&binding.replace, below.clone().concat("└── "), below.concat("    "), lines);
    assert(lines_view(*lines) =~= before + outline_of_binding(
        binding@.0,
        binding@.1,
        prefix@,
        below@,
    ));
}

/// The outline of the tree, line by line from the top: each node on a line
/// of its own, its children below it, with the branches that lead to them.
pub fn outline_lines(expr: &Expr) -> (lines: Vec<Line>)
    ensures
        lines_view(lines) == outline(expr@),
{
    let mut lines: Vec<Line> = Vec::new();
    assert(lines_view(lines) =~= Seq::empty());
    outline_expr(expr, String::new(), String::new(), &mut lines);
    assert(lines_view(lines) =~= outline(expr@));
    lines
}

} // verus!
