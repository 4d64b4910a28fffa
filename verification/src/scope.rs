use crate::ast::Term;
use crate::names::{
    free_names, lemma_resolve_names, lemma_substitute_absent, lemma_substitute_names,
    lemma_substitute_removes, names,
};
use crate::subst::{
    binding_free, fill, lemma_resolve_binding_free, lemma_substitute_binding_free,
    lemma_substitute_fills, resolve, substitute,
};
use vstd::prelude::*;

verus! {

/// What a term means where the names in `env` stand for the terms given
/// there: a binding form adds its name to them, with the meaning of its bound
/// expression outside the form, and holds for its body only. This is what
/// scoping by the text of the expression asks for.
pub open spec fn meaning(t: Term, env: Map<Seq<char>, Term>) -> Term
    decreases t,
{
    match t {
        Term::Number(_) => t,
        Term::Id(x) => if env.contains_key(x) {
            env[x]
        } else {
            t
        },
        Term::Binary(op, left, right) => Term::Binary(
            op,
            Box::new(meaning(*left, env)),
            Box::new(meaning(*right, env)),
        ),
        Term::With(x, bound, body) => meaning(*body, env.insert(x, meaning(*bound, env))),
    }
}

/// The terms of `env` filled with `value` for `name`, and `value` itself
/// for `name` where `env` has nothing for it.
pub open spec fn fill_env(env: Map<Seq<char>, Term>, name: Seq<char>, value: Term) -> Map<
    Seq<char>,
    Term,
> {
    Map::new(
        |k: Seq<char>| env.contains_key(k) || k == name,
        |k: Seq<char>|
            if env.contains_key(k) {
                fill(env[k], name, value)
            } else {
                value
            },
    )
}

/// The binding of `name` passes through the term without meeting a binding
/// form that would take hold of a name in a value on its way in. `waiting`
/// holds the names that the value of `name` may mention: names bound further
/// out, which are replaced later. A binding form inside the term must not
/// bind one of them, nor a name that its own bound expression uses from
/// outside; the one exception is `name` itself, which it may shadow and use.
pub open spec fn settled(t: Term, name: Seq<char>, waiting: Set<Seq<char>>) -> bool
    decreases t,
{
    match t {
        Term::Number(_) => true,
        Term::Id(_) => true,
        Term::Binary(_, left, right) => settled(*left, name, waiting) && settled(
            *right,
            name,
            waiting,
        ),
        Term::With(x, bound, body) => {
            let inner = free_names(*bound).remove(name) + waiting;
            &&& !inner.contains(x)
            &&& settled(*bound, name, waiting)
            &&& settled(*body, x, inner)
        },
    }
}

/// Every binding form of the term binds a name that its bound expression
/// does not use from outside, and its binding passes through its body as
/// [`settled`] describes.
pub open spec fn scoped(t: Term) -> bool
    decreases t,
{
    match t {
        Term::Number(_) => true,
        Term::Id(_) => true,
        Term::Binary(_, left, right) => scoped(*left) && scoped(*right),
        Term::With(x, bound, body) => {
            &&& scoped(*bound)
            &&& !free_names(*bound).contains(x)
            &&& settled(*body, x, free_names(*bound))
        },
    }
}

/// Filling what a term means under `env` is taking what it means under the
/// filled `env`.
pub proof fn lemma_fill_meaning(t: Term, env: Map<Seq<char>, Term>, name: Seq<char>, value: Term)
    ensures
        fill(meaning(t, env), name, value) == meaning(t, fill_env(env, name, value)),
    decreases t,
{
    match t {
        Term::Binary(_, left, right) => {
            lemma_fill_meaning(*left, env, name, value);
            lemma_fill_meaning(*right, env, name, value);
        },
        Term::With(x, bound, body) => {
            let w = meaning(*bound, env);
            lemma_fill_meaning(*bound, env, name, value);
            lemma_fill_meaning(*body, env.insert(x, w), name, value);
            assert(fill_env(env.insert(x, w), name, value) =~= fill_env(env, name, value).insert(
                x,
                fill(w, name, value),
            ));
        },
        _ => {},
    }
}

/// Where the binding of `name` is settled in the term, applying it is taking
/// the meaning of the term with `name` standing for the value.
pub proof fn lemma_substitute_meaning(
    t: Term,
    name: Seq<char>,
    value: Term,
    waiting: Set<Seq<char>>,
)
    requires
        binding_free(value),
        names(value).subset_of(waiting),
        !waiting.contains(name),
        settled(t, name, waiting),
    ensures
        substitute(t, name, value) == meaning(t, map![name => value]),
    decreases t,
{
    let env = map![name => value];
    match t {
        Term::Binary(_, left, right) => {
            lemma_substitute_meaning(*left, name, value, waiting);
            lemma_substitute_meaning(*right, name, value, waiting);
        },
        Term::With(x, bound, body) => {
            let inner = substitute(*bound, name, value);
            let reach = free_names(*bound).remove(name) + waiting;
            lemma_substitute_meaning(*bound, name, value, waiting);
            lemma_substitute_binding_free(*bound, name, value);
            lemma_substitute_names(*bound, name, value);
            lemma_substitute_removes(*bound, name, value);
            lemma_substitute_meaning(*body, x, inner, reach);
            lemma_fill_meaning(*body, map![x => inner], name, value);
            assert(fill(inner, name, value) == inner) by {
                lemma_substitute_fills(inner, name, value);
                lemma_substitute_absent(inner, name, value);
            }
            assert(fill_env(map![x => inner], name, value) =~= env.insert(x, inner));
        },
        _ => {},
    }
}

/// Resolving a scoped term gives what the term means by the scoping of its
/// text, with nothing bound around it.
pub proof fn lemma_resolve_meaning(t: Term)
    requires
        scoped(t),
    ensures
        resolve(t) == meaning(t, Map::<Seq<char>, Term>::empty()),
    decreases t,
{
    let none = Map::<Seq<char>, Term>::empty();
    match t {
        Term::Binary(_, left, right) => {
            lemma_resolve_meaning(*left);
            lemma_resolve_meaning(*right);
        },
        Term::With(x, bound, body) => {
            lemma_resolve_meaning(*bound);
            lemma_resolve_binding_free(*bound);
            lemma_resolve_names(*bound);
            lemma_substitute_meaning(*body, x, resolve(*bound), free_names(*bound));
            assert(none.insert(x, resolve(*bound)) =~= map![x => resolve(*bound)]);
        },
        _ => {},
    }
}

/// The term uses only names that are bound around it or by itself, and
/// binds no name that is bound already where the binding form stands.
/// `around` holds the names bound around the term.
pub open spec fn unshadowed(t: Term, around: Set<Seq<char>>) -> bool
    decreases t,
{
    match t {
        Term::Number(_) => true,
        Term::Id(x) => around.contains(x),
        Term::Binary(_, left, right) => unshadowed(*left, around) && unshadowed(*right, around),
        Term::With(x, bound, body) => {
            &&& !around.contains(x)
            &&& unshadowed(*bound, around)
            &&& unshadowed(*body, around.insert(x))
        },
    }
}

proof fn lemma_unshadowed_free(t: Term, around: Set<Seq<char>>)
    requires
        unshadowed(t, around),
    ensures
        free_names(t).subset_of(around),
    decreases t,
{
    match t {
        Term::Binary(_, left, right) => {
            lemma_unshadowed_free(*left, around);
            lemma_unshadowed_free(*right, around);
        },
        Term::With(x, bound, body) => {
            lemma_unshadowed_free(*bound, around);
            lemma_unshadowed_free(*body, around.insert(x));
        },
        _ => {},
    }
}

proof fn lemma_unshadowed_settled(
    t: Term,
    around: Set<Seq<char>>,
    name: Seq<char>,
    waiting: Set<Seq<char>>,
)
    requires
        unshadowed(t, around),
        waiting.subset_of(around),
    ensures
        settled(t, name, waiting),
    decreases t,
{
    match t {
        Term::Binary(_, left, right) => {
            lemma_unshadowed_settled(*left, around, name, waiting);
            lemma_unshadowed_settled(*right, around, name, waiting);
        },
        Term::With(x, bound, body) => {
            lemma_unshadowed_free(*bound, around);
            lemma_unshadowed_settled(*bound, around, name, waiting);
            let inner = free_names(*bound).remove(name) + waiting;
            lemma_unshadowed_settled(*body, around.insert(x), x, inner);
        },
        _ => {},
    }
}

/// Where no binding form shadows another, the term is scoped.
pub proof fn lemma_unshadowed_scoped(t: Term, around: Set<Seq<char>>)
    requires
        unshadowed(t, around),
    ensures
        scoped(t),
    decreases t,
{
    match t {
        Term::Binary(_, left, right) => {
            lemma_unshadowed_scoped(*left, around);
            lemma_unshadowed_scoped(*right, around);
        },
        Term::With(x, bound, body) => {
            lemma_unshadowed_scoped(*bound, around);
            lemma_unshadowed_free(*bound, around);
            lemma_unshadowed_settled(*body, around.insert(x), x, free_names(*bound));
        },
        _ => {},
    }
}

/// An expression that binds every name it uses, and no name where it is
/// bound already, resolves to what it means by the scoping of its text.
pub proof fn lemma_unshadowed_resolves(t: Term)
    requires
        unshadowed(t, Set::<Seq<char>>::empty()),
    ensures
        resolve(t) == meaning(t, Map::<Seq<char>, Term>::empty()),
{
    lemma_unshadowed_scoped(t, Set::<Seq<char>>::empty());
    lemma_resolve_meaning(t);
}

} // verus!
