use crate::ast::{well_formed, Binary, Binding, Expr, Id, Term, With};
use vstd::prelude::*;

verus! {

/// The term holds no binding form.
pub open spec fn binding_free(t: Term) -> bool
    decreases t,
{
    match t {
        Term::Number(_) => true,
        Term::Id(_) => true,
        Term::Binary(_, left, right) => binding_free(*left) && binding_free(*right),
        Term::With(_, _, _) => false,
    }
}

/// The number of binding forms in the term.
pub open spec fn bindings(t: Term) -> nat
    decreases t,
{
    match t {
        Term::Number(_) => 0,
        Term::Id(_) => 0,
        Term::Binary(_, left, right) => bindings(*left) + bindings(*right),
        Term::With(_, bound, body) => 1 + bindings(*bound) + bindings(*body),
    }
}

/// The term with `value` in place of every identifier leaf `name`.
pub open spec fn fill(t: Term, name: Seq<char>, value: Term) -> Term
    decreases t,
{
    match t {
        Term::Number(_) => t,
        Term::Id(x) => if x == name {
            value
        } else {
            t
        },
        Term::Binary(op, left, right) => Term::Binary(
            op,
            Box::new(fill(*left, name, value)),
            Box::new(fill(*right, name, value)),
        ),
        Term::With(x, bound, body) => Term::With(
            x,
            Box::new(fill(*bound, name, value)),
            Box::new(fill(*body, name, value)),
        ),
    }
}

/// The term with the binding of `name` to `value` applied to it. An
/// identifier leaf `name` becomes `value`. A binding form inside the term is
/// used up on the way, in three steps: the outer binding is applied to its
/// bound expression; the inner binding so obtained is applied to its body;
/// and in what comes of that, which holds no binding form if `value` holds
/// none, the identifiers `name` that are left are filled with `value`. By
/// [`lemma_substitute_steps`] the last step is applying the outer binding
/// once more.
///
/// The last step passes over the copies of the inner value too. Where
/// `value` mentions `name` itself, these copies are filled a second time.
pub open spec fn substitute(t: Term, name: Seq<char>, value: Term) -> Term
    decreases t,
{
    match t {
        Term::Number(_) => t,
        Term::Id(x) => if x == name {
            value
        } else {
            t
        },
        Term::Binary(op, left, right) => Term::Binary(
            op,
            Box::new(substitute(*left, name, value)),
            Box::new(substitute(*right, name, value)),
        ),
        Term::With(x, bound, body) => fill(
            substitute(*body, x, substitute(*bound, name, value)),
            name,
            value,
        ),
    }
}

/// The term with every binding form used up: the bound expression is
/// resolved first, and the binding is then applied to the body.
pub open spec fn resolve(t: Term) -> Term
    decreases t,
{
    match t {
        Term::Number(_) => t,
        Term::Id(_) => t,
        Term::Binary(op, left, right) => Term::Binary(
            op,
            Box::new(resolve(*left)),
            Box::new(resolve(*right)),
        ),
        Term::With(x, bound, body) => substitute(*body, x, resolve(*bound)),
    }
}

/// A term is free of binding forms exactly when it counts none.
pub proof fn lemma_binding_free_count(t: Term)
    ensures
        binding_free(t) <==> bindings(t) == 0,
    decreases t,
{
    match t {
        Term::Binary(_, left, right) => {
            lemma_binding_free_count(*left);
            lemma_binding_free_count(*right);
        },
        _ => {},
    }
}

/// Filling a term that is free of binding forms with a value that is free of
/// them leaves it free of them.
pub proof fn lemma_fill_binding_free(t: Term, name: Seq<char>, value: Term)
    requires
        binding_free(t),
        binding_free(value),
    ensures
        binding_free(fill(t, name, value)),
    decreases t,
{
    match t {
        Term::Binary(_, left, right) => {
            lemma_fill_binding_free(*left, name, value);
            lemma_fill_binding_free(*right, name, value);
        },
        _ => {},
    }
}

/// Applying a binding whose value is free of binding forms leaves no binding
/// form in the term.
pub proof fn lemma_substitute_binding_free(t: Term, name: Seq<char>, value: Term)
    requires
        binding_free(value),
    ensures
        binding_free(substitute(t, name, value)),
    decreases t,
{
    match t {
        Term::Binary(_, left, right) => {
            lemma_substitute_binding_free(*left, name, value);
            lemma_substitute_binding_free(*right, name, value);
        },
        Term::With(x, bound, body) => {
            lemma_substitute_binding_free(*bound, name, value);
            let inner = substitute(*bound, name, value);
            lemma_substitute_binding_free(*body, x, inner);
            lemma_fill_binding_free(substitute(*body, x, inner), name, value);
        },
        _ => {},
    }
}

/// On a term that is free of binding forms, applying a binding is filling
/// the leaves.
pub proof fn lemma_substitute_fills(t: Term, name: Seq<char>, value: Term)
    requires
        binding_free(t),
    ensures
        substitute(t, name, value) == fill(t, name, value),
    decreases t,
{
    match t {
        Term::Binary(_, left, right) => {
            lemma_substitute_fills(*left, name, value);
            lemma_substitute_fills(*right, name, value);
        },
        _ => {},
    }
}

/// A resolved term holds no binding form.
pub proof fn lemma_resolve_binding_free(t: Term)
    ensures
        binding_free(resolve(t)),
    decreases t,
{
    match t {
        Term::Binary(_, left, right) => {
            lemma_resolve_binding_free(*left);
            lemma_resolve_binding_free(*right);
        },
        Term::With(x, bound, body) => {
            lemma_resolve_binding_free(*bound);
            lemma_substitute_binding_free(*body, x, resolve(*bound));
        },
        _ => {},
    }
}

/// Resolving changes nothing in a term that holds no binding form.
pub proof fn lemma_resolve_fixed(t: Term)
    requires
        binding_free(t),
    ensures
        resolve(t) == t,
    decreases t,
{
    match t {
        Term::Binary(_, left, right) => {
            lemma_resolve_fixed(*left);
            lemma_resolve_fixed(*right);
        },
        _ => {},
    }
}

/// Resolving twice is resolving once.
pub proof fn lemma_resolve_idempotent(t: Term)
    ensures
        resolve(resolve(t)) == resolve(t),
{
    lemma_resolve_binding_free(t);
    lemma_resolve_fixed(resolve(t));
}

/// Filling a well-formed term with a well-formed value leaves it well
/// formed.
pub proof fn lemma_fill_well_formed(t: Term, name: Seq<char>, value: Term)
    requires
        well_formed(t),
        well_formed(value),
    ensures
        well_formed(fill(t, name, value)),
    decreases t,
{
    match t {
        Term::Binary(_, left, right) => {
            lemma_fill_well_formed(*left, name, value);
            lemma_fill_well_formed(*right, name, value);
        },
        Term::With(_, bound, body) => {
            lemma_fill_well_formed(*bound, name, value);
            lemma_fill_well_formed(*body, name, value);
        },
        _ => {},
    }
}

/// Applying a well-formed binding to a well-formed term leaves it well
/// formed.
pub proof fn lemma_substitute_well_formed(t: Term, name: Seq<char>, value: Term)
    requires
        well_formed(t),
        well_formed(value),
    ensures
        well_formed(substitute(t, name, value)),
    decreases t,
{
    match t {
        Term::Binary(_, left, right) => {
            lemma_substitute_well_formed(*left, name, value);
            lemma_substitute_well_formed(*right, name, value);
        },
        Term::With(x, bound, body) => {
            lemma_substitute_well_formed(*bound, name, value);
            let inner = substitute(*bound, name, value);
            lemma_substitute_well_formed(*body, x, inner);
            lemma_fill_well_formed(substitute(*body, x, inner), name, value);
        },
        _ => {},
    }
}

/// Resolving a well-formed term leaves it well formed.
pub proof fn lemma_resolve_well_formed(t: Term)
    requires
        well_formed(t),
    ensures
        well_formed(resolve(t)),
    decreases t,
{
    match t {
        Term::Binary(_, left, right) => {
            lemma_resolve_well_formed(*left);
            lemma_resolve_well_formed(*right);
        },
        Term::With(x, bound, body) => {
            lemma_resolve_well_formed(*bound);
            lemma_substitute_well_formed(*body, x, resolve(*bound));
        },
        _ => {},
    }
}

/// The three steps by which a binding passes through a binding form: it is
/// applied to the bound expression of the form, the binding so obtained is
/// applied to the body, and the outer binding is applied once more to what
/// comes of that.
pub proof fn lemma_substitute_steps(
    x: Seq<char>,
    bound: Term,
    body: Term,
    name: Seq<char>,
    value: Term,
)
    requires
        binding_free(value),
    ensures
        substitute(Term::With(x, Box::new(bound), Box::new(body)), name, value) == substitute(
            substitute(body, x, substitute(bound, name, value)),
            name,
            value,
        ),
{
    let inner = substitute(bound, name, value);
    lemma_substitute_binding_free(bound, name, value);
    lemma_substitute_binding_free(body, x, inner);
    lemma_substitute_fills(substitute(body, x, inner), name, value);
}

impl Id {
    /// Whether the binding binds this identifier.
    pub fn should_replace(&self, binding: &Binding) -> (b: bool)
        ensures
            b == (self@ == binding@.0),
    {
        self.val == binding.identifier.val
    }
}

impl Expr {
    /// Applies the binding to the expression: each identifier that it binds
    /// is replaced by a copy of its value, and the binding forms inside the
    /// expression are used up. The value of the binding must hold no binding
    /// form itself: it is copied as it is, and a binding form in it could be
    /// met again without end.
    pub fn subst(self, binding: &Binding) -> (r: Expr)
        requires
            binding_free(binding@.1),
        ensures
            r@ == substitute(self@, binding@.0, binding@.1),
            binding_free(r@),
            well_formed(self@) && well_formed(binding@.1) ==> well_formed(r@),
        decreases bindings(self@), self, 1int,
    {
        proof {
            lemma_substitute_binding_free(self@, binding@.0, binding@.1);
            if well_formed(self@) && well_formed(binding@.1) {
                lemma_substitute_well_formed(self@, binding@.0, binding@.1);
            }
        }
        match self {
            Expr::Binary(expr) => (*expr).subst(binding),
            Expr::With(expr) => (*expr).subst(binding),
            Expr::Id(expr) => if expr.should_replace(binding) {
                binding.replace.clone()
            } else {
                Expr::Id(expr)
            },
            Expr::Number(expr) => Expr::Number(expr),
        }
    }

    /// Uses up every binding form of the expression.
    pub fn replace(self) -> (r: Expr)
        ensures
            r@ == resolve(self@),
            binding_free(r@),
            well_formed(self@) ==> well_formed(r@),
        decreases self, 1int,
    {
        proof {
            lemma_resolve_binding_free(self@);
            if well_formed(self@) {
                lemma_resolve_well_formed(self@);
            }
        }
        match self {
            Expr::Binary(expr) => (*expr).replace(),
            Expr::With(expr) => (*expr).replace(),
            Expr::Id(expr) => Expr::Id(expr),
            Expr::Number(expr) => Expr::Number(expr),
        }
    }
}

impl Binary {
    /// Applies the binding to both operands.
    pub fn subst(self, binding: &Binding) -> (r: Expr)
        requires
            binding_free(binding@.1),
        ensures
            r@ == substitute(self@, binding@.0, binding@.1),
            binding_free(r@),
        decreases bindings(self@), self, 0int,
    {
        proof {
            lemma_substitute_binding_free(self@, binding@.0, binding@.1);
        }
        let new_left = self.left.subst(binding);
        let new_right = self.right.subst(binding);
        Expr::Binary(Box::new(Binary { op: self.op, left: new_left, right: new_right }))
    }

    /// Resolves both operands.
    pub fn replace(self) -> (r: Expr)
        ensures
            r@ == resolve(self@),
            binding_free(r@),
        decreases self, 0int,
    {
        let new_left = self.left.replace();
        let new_right = self.right.replace();
        Expr::Binary(Box::new(Binary { op: self.op, left: new_left, right: new_right }))
    }
}

impl With {
    /// Passes the binding through this binding form, in three steps: the
    /// binding is applied to the bound expression of the form, the binding so
    /// obtained is applied to the body, and the outer binding is applied once
    /// more to what comes of that.
    pub fn subst(self, binding: &Binding) -> (r: Expr)
        requires
            binding_free(binding@.1),
        ensures
            r@ == substitute(self@, binding@.0, binding@.1),
            binding_free(r@),
        decreases bindings(self@), self, 0int,
    {
        let subst_binding = self.binding.subst(binding);
        let first_replace = self.input.subst(&subst_binding);
        proof {
            lemma_binding_free_count(first_replace@);
            lemma_substitute_fills(first_replace@, binding@.0, binding@.1);
        }
        first_replace.subst(binding)
    }

    /// Resolves the bound expression and applies the binding to the body.
    pub fn replace(self) -> (r: Expr)
        ensures
            r@ == resolve(self@),
            binding_free(r@),
        decreases self, 0int,
    {
        let binding = self.binding.replace();
        self.input.subst(&binding)
    }
}

impl Binding {
    /// Applies the other binding to the bound expression.
    pub fn subst(self, binding: &Binding) -> (r: Binding)
        requires
            binding_free(binding@.1),
        ensures
            r@ == (self@.0, substitute(self@.1, binding@.0, binding@.1)),
            binding_free(r@.1),
        decreases bindings(self@.1), self, 0int,
    {
        Binding { identifier: self.identifier, replace: self.replace.subst(binding) }
    }

    /// Resolves the bound expression.
    pub fn replace(self) -> (r: Binding)
        ensures
            r@ == (self@.0, resolve(self@.1)),
            binding_free(r@.1),
        decreases self, 0int,
    {
        Binding { identifier: self.identifier, replace: self.replace.replace() }
    }
}

} // verus!
