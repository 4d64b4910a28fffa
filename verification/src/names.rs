use crate::ast::{Expr, Term};
use crate::subst::{
    binding_free, fill, lemma_resolve_binding_free, lemma_substitute_binding_free,
    lemma_substitute_fills, resolve, substitute,
};
use vstd::prelude::*;

verus! {

/// The names that stand as identifier leaves anywhere in the term.
pub open spec fn names(t: Term) -> Set<Seq<char>>
    decreases t,
{
    match t {
        Term::Number(_) => Set::empty(),
        Term::Id(x) => set![x],
        Term::Binary(_, left, right) => names(*left) + names(*right),
        Term::With(_, bound, body) => names(*bound) + names(*body),
    }
}

/// The names that the term uses and does not bind itself. A binding form
/// binds its name in its body, not in its bound expression.
pub open spec fn free_names(t: Term) -> Set<Seq<char>>
    decreases t,
{
    match t {
        Term::Number(_) => Set::empty(),
        Term::Id(x) => set![x],
        Term::Binary(_, left, right) => free_names(*left) + free_names(*right),
        Term::With(x, bound, body) => free_names(*bound) + free_names(*body).remove(x),
    }
}

/// The identifier on which an evaluation from left to right stops: the first
/// identifier leaf, where the bound expression of a binding form is passed
/// over.
pub open spec fn first_name(t: Term) -> Option<Seq<char>>
    decreases t,
{
    match t {
        Term::Number(_) => None,
        Term::Id(x) => Some(x),
        Term::Binary(_, left, right) => match first_name(*left) {
            Some(x) => Some(x),
            None => first_name(*right),
        },
        Term::With(_, _, body) => first_name(*body),
    }
}

/// In a term without binding forms every name is free.
pub proof fn lemma_names_all_free(t: Term)
    requires
        binding_free(t),
    ensures
        names(t) == free_names(t),
    decreases t,
{
    match t {
        Term::Binary(_, left, right) => {
            lemma_names_all_free(*left);
            lemma_names_all_free(*right);
        },
        _ => {},
    }
}

/// Filling removes the name that is filled, and brings in at most the names
/// of the value.
pub proof fn lemma_fill_names(t: Term, name: Seq<char>, value: Term)
    requires
        binding_free(t),
    ensures
        names(fill(t, name, value)).subset_of(names(t).remove(name) + names(value)),
    decreases t,
{
    match t {
        Term::Binary(_, left, right) => {
            lemma_fill_names(*left, name, value);
            lemma_fill_names(*right, name, value);
        },
        _ => {},
    }
}

/// Applying a binding leaves only names that were free in the term, other
/// than the bound one, and names of the value.
pub proof fn lemma_substitute_names(t: Term, name: Seq<char>, value: Term)
    requires
        binding_free(value),
    ensures
        names(substitute(t, name, value)).subset_of(free_names(t).remove(name) + names(value)),
    decreases t,
{
    match t {
        Term::Binary(_, left, right) => {
            lemma_substitute_names(*left, name, value);
            lemma_substitute_names(*right, name, value);
        },
        Term::With(x, bound, body) => {
            let inner = substitute(*bound, name, value);
            let partial = substitute(*body, x, inner);
            lemma_substitute_names(*bound, name, value);
            lemma_substitute_binding_free(*bound, name, value);
            lemma_substitute_names(*body, x, inner);
            lemma_substitute_binding_free(*body, x, inner);
            lemma_fill_names(partial, name, value);
        },
        _ => {},
    }
}

/// A binding whose value does not mention the bound name removes the name
/// from the term.
pub proof fn lemma_substitute_removes(t: Term, name: Seq<char>, value: Term)
    requires
        binding_free(value),
        !names(value).contains(name),
    ensures
        !names(substitute(t, name, value)).contains(name),
{
    lemma_substitute_names(t, name, value);
}

/// Applying a binding changes nothing in a term that holds no binding form
/// and does not mention the bound name.
pub proof fn lemma_substitute_absent(t: Term, name: Seq<char>, value: Term)
    requires
        binding_free(t),
        !names(t).contains(name),
    ensures
        substitute(t, name, value) == t,
    decreases t,
{
    match t {
        Term::Binary(_, left, right) => {
            lemma_substitute_absent(*left, name, value);
            lemma_substitute_absent(*right, name, value);
        },
        _ => {},
    }
}

/// A binding form shadows an outer binding of the same name: the outer
/// binding reaches the bound expression of the form and nothing in its body.
/// This holds where the outer value does not mention the name itself; where
/// it does, the last of the three steps fills the copies of the inner value
/// once more.
pub proof fn lemma_shadowing(x: Seq<char>, bound: Term, body: Term, value: Term)
    requires
        binding_free(value),
        !names(value).contains(x),
    ensures
        substitute(Term::With(x, Box::new(bound), Box::new(body)), x, value) == substitute(
            body,
            x,
            substitute(bound, x, value),
        ),
{
    let inner = substitute(bound, x, value);
    lemma_substitute_binding_free(bound, x, value);
    lemma_substitute_removes(bound, x, value);
    let partial = substitute(body, x, inner);
    lemma_substitute_binding_free(body, x, inner);
    lemma_substitute_removes(body, x, inner);
    lemma_substitute_fills(partial, x, value);
    lemma_substitute_absent(partial, x, value);
}

/// The identifiers that are left in a resolved term were free in the term:
/// none of them stood in the body of a binding form for its own name.
pub proof fn lemma_resolve_names(t: Term)
    ensures
        names(resolve(t)).subset_of(free_names(t)),
    decreases t,
{
    match t {
        Term::Binary(_, left, right) => {
            lemma_resolve_names(*left);
            lemma_resolve_names(*right);
        },
        Term::With(x, bound, body) => {
            lemma_resolve_names(*bound);
            lemma_resolve_binding_free(*bound);
            lemma_substitute_names(*body, x, resolve(*bound));
        },
        _ => {},
    }
}

/// The first identifier of a term is one of its names, and a term without
/// binding forms has a first identifier as soon as it has a name.
pub proof fn lemma_first_name(t: Term)
    ensures
        first_name(t) matches Some(x) ==> names(t).contains(x),
        binding_free(t) && first_name(t) is None ==> names(t) == Set::<Seq<char>>::empty(),
    decreases t,
{
    match t {
        Term::Binary(_, left, right) => {
            lemma_first_name(*left);
            lemma_first_name(*right);
            if binding_free(t) && first_name(t) is None {
                assert(names(t) =~= Set::<Seq<char>>::empty());
            }
        },
        Term::With(_, _, body) => {
            lemma_first_name(*body);
        },
        _ => {},
    }
}

/// An expression that binds every name it uses resolves to numbers and
/// operations alone: no identifier is left to stop an evaluation.
pub proof fn lemma_closed_resolves(t: Term)
    requires
        free_names(t) == Set::<Seq<char>>::empty(),
    ensures
        first_name(resolve(t)) is None,
        names(resolve(t)) == Set::<Seq<char>>::empty(),
{
    lemma_resolve_names(t);
    lemma_first_name(resolve(t));
    assert(names(resolve(t)) =~= Set::<Seq<char>>::empty());
}

impl Expr {
    /// The identifier on which an evaluation of the expression from left to
    /// right stops, if there is one.
    pub fn unbound(&self) -> (r: Option<String>)
        ensures
            match r {
                Some(name) => first_name(self@) == Some(name@),
                None => first_name(self@) is None,
            },
        decreases self,
    {
        match self {
            Expr::Number(_) => None,
            Expr::Id(id) => Some(id.val.clone()),
            Expr::Binary(b) => match b.left.unbound() {
                Some(name) => Some(name),
                None => b.right.unbound(),
            },
            Expr::With(w) => w.input.unbound(),
        }
    }
}

} // verus!
