//! An arithmetic language with one binding form.
//!
//! A text such as `(with ([x 1]) (+ x 2))` is read into a tree
//! ([`parse`]), the binding forms of the tree are used up by substitution
//! ([`Expr::replace`]), and what is left is numbers and operations.
//!
//! Every function states what it returns over the mathematical form of its
//! arguments: a text is a sequence of characters, a tree is a [`Term`].
//!
//! - [`text`]: the classes of characters, and trimming.
//! - [`literal`]: which texts are number literals.
//! - [`tokens`]: splitting a text into its top-level tokens.
//! - [`units`]: which texts stand as one token, and how tokens compose.
//! - [`ast`]: the tree of an expression and the term it denotes.
//! - [`error`]: why a text is no expression.
//! - [`parse`]: the grammar, and the functions that read by it.
//! - [`print`]: the written form of a term, which is read as the term.
//! - [`subst`]: applying a binding, and using up all binding forms.
//! - [`names`]: the names of a term, bound and free.
//! - [`outline`]: the tree drawn line by line.
//! - [`scope`]: what a term means by the scoping of its text, and when
//!   substitution gives just that.

pub mod ast;
pub mod error;
pub mod literal;
pub mod names;
pub mod outline;
pub mod parse;
pub mod print;
pub mod scope;
pub mod subst;
pub mod text;
pub mod tokens;
pub mod units;

pub use ast::{Binary, Binding, Expr, Id, Number, Operator, Term, With};
pub use error::{ErrorKind, ParseError};
pub use outline::{outline_lines, Label, Line};
pub use parse::{parse, parse_paren_expr};
pub use tokens::{split_tokens, strip_ends};
