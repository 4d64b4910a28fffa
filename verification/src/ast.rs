use crate::literal::number_literal;
use crate::text::{digit, letter};
use vstd::prelude::*;

verus! {

/// The four arithmetic operators of the language.
#[derive(Clone, Copy, Debug, PartialEq, Eq)]
pub enum Operator {
    Add,
    Sub,
    Mul,
    Div,
}

/// The mathematical form of an expression: what an [`Expr`] denotes once
/// boxes and string buffers are forgotten. The contracts of the library
/// speak of terms.
pub enum Term {
    /// A number, as the literal that was written for it.
    Number(Seq<char>),
    /// An operation on a left and a right operand.
    Binary(Operator, Box<Term>, Box<Term>),
    /// A binding form: a name, the expression bound to it, and the body in
    /// which the name stands for that expression.
    With(Seq<char>, Box<Term>, Box<Term>),
    /// A name that stands for what an enclosing binding form has bound to
    /// it.
    Id(Seq<char>),
}

/// A node of the tree of an expression.
#[derive(Debug, PartialEq, Eq)]
pub enum Expr {
    Number(Box<Number>),
    Binary(Box<Binary>),
    With(Box<With>),
    Id(Box<Id>),
}

/// A number. It is kept as the literal that was written for it; what number
/// that is in floating point is for the evaluation to say.
#[derive(Debug, PartialEq, Eq)]
pub struct Number {
    pub val: String,
}

/// An operation on two operands.
#[derive(Debug, PartialEq, Eq)]
pub struct Binary {
    pub op: Operator,
    pub left: Expr,
    pub right: Expr,
}

/// A binding form: a binding, and the expression in which it holds.
#[derive(Debug, PartialEq, Eq)]
pub struct With {
    pub binding: Binding,
    pub input: Expr,
}

/// A name and the expression that is bound to it. The expression is meant
/// outside the form that the binding belongs to: the name does not stand
/// for anything in it.
#[derive(Debug, PartialEq, Eq)]
pub struct Binding {
    pub identifier: Box<Id>,
    pub replace: Expr,
}

/// An identifier.
#[derive(Debug, PartialEq, Eq)]
pub struct Id {
    pub val: String,
}

/// The word that introduces a binding form.
pub open spec fn keyword() -> Seq<char> {
    seq!['w', 'i', 't', 'h']
}

/// The names that can be bound: letters only, at least one, and not the
/// keyword.
pub open spec fn identifier(name: Seq<char>) -> bool {
    &&& name.len() > 0
    &&& name != keyword()
    &&& forall|i: int| 0 <= i < name.len() ==> letter(name[i])
}

/// Every number in the term is a number literal that begins with a digit,
/// and every name in it, bound or used, is an identifier. These are the terms
/// that can be written down.
pub open spec fn well_formed(t: Term) -> bool
    decreases t,
{
    match t {
        Term::Number(s) => number_literal(s) && digit(s[0]),
        Term::Id(x) => identifier(x),
        Term::Binary(_, left, right) => well_formed(*left) && well_formed(*right),
        Term::With(x, bound, body) => identifier(x) && well_formed(*bound) && well_formed(*body),
    }
}

impl View for Expr {
    type V = Term;

    open spec fn view(&self) -> Term
        decreases self,
    {
        match self {
            Expr::Number(n) => Term::Number(n.val@),
            Expr::Binary(b) => Term::Binary(b.op, Box::new(b.left.view()), Box::new(b.right.view())),
            Expr::With(w) => Term::With(
                w.binding.identifier.val@,
                Box::new(w.binding.replace.view()),
                Box::new(w.input.view()),
            ),
            Expr::Id(i) => Term::Id(i.val@),
        }
    }
}

impl View for Number {
    type V = Seq<char>;

    open spec fn view(&self) -> Seq<char> {
        self.val@
    }
}

impl View for Id {
    type V = Seq<char>;

    open spec fn view(&self) -> Seq<char> {
        self.val@
    }
}

impl View for Binary {
    type V = Term;

    open spec fn view(&self) -> Term {
        Term::Binary(self.op, Box::new(self.left@), Box::new(self.right@))
    }
}

impl View for With {
    type V = Term;

    open spec fn view(&self) -> Term {
        Term::With(
            self.binding.identifier.val@,
            Box::new(self.binding.replace@),
            Box::new(self.input@),
        )
    }
}

impl View for Binding {
    type V = (Seq<char>, Term);

    open spec fn view(&self) -> (Seq<char>, Term) {
        (self.identifier.val@, self.replace@)
    }
}

impl From<Number> for Expr {
    fn from(n: Number) -> (r: Expr)
        ensures
            r == Expr::Number(Box::new(n)),
    {
        Expr::Number(Box::new(n))
    }
}

impl vstd::std_specs::convert::FromSpecImpl<Number> for Expr {
    open spec fn obeys_from_spec() -> bool {
        true
    }

    open spec fn from_spec(n: Number) -> Expr {
        Expr::Number(Box::new(n))
    }
}

impl From<Binary> for Expr {
    fn from(b: Binary) -> (r: Expr)
        ensures
            r == Expr::Binary(Box::new(b)),
    {
        Expr::Binary(Box::new(b))
    }
}

impl vstd::std_specs::convert::FromSpecImpl<Binary> for Expr {
    open spec fn obeys_from_spec() -> bool {
        true
    }

    open spec fn from_spec(b: Binary) -> Expr {
        Expr::Binary(Box::new(b))
    }
}

impl From<With> for Expr {
    fn from(w: With) -> (r: Expr)
        ensures
            r == Expr::With(Box::new(w)),
    {
        Expr::With(Box::new(w))
    }
}

impl vstd::std_specs::convert::FromSpecImpl<With> for Expr {
    open spec fn obeys_from_spec() -> bool {
        true
    }

    open spec fn from_spec(w: With) -> Expr {
        Expr::With(Box::new(w))
    }
}

impl From<Id> for Expr {
    fn from(i: Id) -> (r: Expr)
        ensures
            r == Expr::Id(Box::new(i)),
    {
        Expr::Id(Box::new(i))
    }
}

impl vstd::std_specs::convert::FromSpecImpl<Id> for Expr {
    open spec fn obeys_from_spec() -> bool {
        true
    }

    open spec fn from_spec(i: Id) -> Expr {
        Expr::Id(Box::new(i))
    }
}

impl Clone for Expr {
    fn clone(&self) -> (r: Self)
        ensures
            r == *self,
        decreases self,
    {
        match self {
            Expr::Number(n) => Expr::Number(Box::new(Number { val: n.val.clone() })),
            Expr::Binary(b) => Expr::Binary(
                Box::new(Binary { op: b.op, left: b.left.clone(), right: b.right.clone() }),
            ),
            Expr::With(w) => Expr::With(
                Box::new(
                    With {
                        binding: Binding {
                            identifier: Box::new(Id { val: w.binding.identifier.val.clone() }),
                            replace: w.binding.replace.clone(),
                        },
                        input: w.input.clone(),
                    },
                ),
            ),
            Expr::Id(i) => Expr::Id(Box::new(Id { val: i.val.clone() })),
        }
    }
}

impl Clone for Number {
    fn clone(&self) -> (r: Self)
        ensures
            r == *self,
    {
        Number { val: self.val.clone() }
    }
}

impl Clone for Id {
    fn clone(&self) -> (r: Self)
        ensures
            r == *self,
    {
        Id { val: self.val.clone() }
    }
}

impl Clone for Binding {
    fn clone(&self) -> (r: Self)
        ensures
            r == *self,
    {
        Binding {
            identifier: Box::new(Id { val: self.identifier.val.clone() }),
            replace: self.replace.clone(),
        }
    }
}

impl Clone for Binary {
    fn clone(&self) -> (r: Self)
        ensures
            r == *self,
    {
        Binary { op: self.op, left: self.left.clone(), right: self.right.clone() }
    }
}

impl Clone for With {
    fn clone(&self) -> (r: Self)
        ensures
            r == *self,
    {
        With { binding: self.binding.clone(), input: self.input.clone() }
    }
}

} // verus!
