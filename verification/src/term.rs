//! Lambda terms in De Bruijn form, and what the reactor measures of them.
//!
//! The terms are those of the `lambda_calculus` crate. Its `Term` is an
//! ordinary enum with public variants, so the verifier reads its definition
//! and specifications match on it directly.

use lambda_calculus::parser::ParseError;
use lambda_calculus::Term;
use vstd::prelude::*;

verus! {

/// `lambda_calculus::Term`: a variable with its De Bruijn index, an
/// abstraction over a term, or an application of one term to another. The
/// verifier reads the three variants from the crate itself.
#[verifier::external_type_specification]
pub struct ExTerm(Term);

/// `lambda_calculus::parser::ParseError`, the reason why a text is no lambda
/// expression. It is only handed on; nothing is read from it.
#[verifier::external_type_specification]
#[verifier::external_body]
pub struct ExParseError(ParseError);

/// What `lambda_calculus::parse` makes of a text in classic notation: the
/// term it denotes, or the reason why it denotes none.
pub uninterp spec fn classic_parse(text: Seq<char>) -> Result<Term, ParseError>;

/// `lambda_calculus::parse` with the notation `Classic` reads a lambda
/// expression written with `λ` or `\\`, dots and juxtaposition. Its grammar is
/// the crate's own, so the result is named, not spelled out.
#[verifier::external_body]
pub(crate) fn parse_classic(text: &str) -> (parsed: Result<Term, ParseError>)
    ensures
        parsed == classic_parse(text@),
{
    lambda_calculus::parse(text, lambda_calculus::Classic)
}

/// The number of nodes of a term: every variable, abstraction and application
/// counts one.
pub open spec fn size_of(t: Term) -> nat
    decreases t,
{
    match t {
        Term::Var(_) => 1,
        Term::Abs(body) => 1 + size_of(*body),
        Term::App(pair) => 1 + size_of(pair.0) + size_of(pair.1),
    }
}

/// The deepest nesting of abstractions in a term.
pub open spec fn depth_of(t: Term) -> nat
    decreases t,
{
    match t {
        Term::Var(_) => 0,
        Term::Abs(body) => 1 + depth_of(*body),
        Term::App(pair) => if depth_of(pair.0) >= depth_of(pair.1) {
            depth_of(pair.0)
        } else {
            depth_of(pair.1)
        },
    }
}

/// Whether a term that stands under `binders` abstractions mentions a variable
/// that none of them binds. Index 0 binds nothing and always counts as free.
pub open spec fn has_free_under(t: Term, binders: nat) -> bool
    decreases t,
{
    match t {
        Term::Var(index) => index > binders || index == 0,
        Term::Abs(body) => has_free_under(*body, binders + 1),
        Term::App(pair) => has_free_under(pair.0, binders) || has_free_under(pair.1, binders),
    }
}

/// A term is closed when every variable in it is bound.
pub open spec fn is_closed(t: Term) -> bool {
    !has_free_under(t, 0)
}

/// Whether a term mentions the index 0, which no abstraction can bind.
pub open spec fn has_zero(t: Term) -> bool
    decreases t,
{
    match t {
        Term::Var(index) => index == 0,
        Term::Abs(body) => has_zero(*body),
        Term::App(pair) => has_zero(pair.0) || has_zero(pair.1),
    }
}

/// How many abstractions a term that stands under `binders` abstractions
/// still lacks: the largest amount by which one of its variables exceeds the
/// abstractions above it.
pub open spec fn excess(t: Term, binders: nat) -> nat
    decreases t,
{
    match t {
        Term::Var(index) => if index > binders {
            (index - binders) as nat
        } else {
            0
        },
        Term::Abs(body) => excess(*body, binders + 1),
        Term::App(pair) => if excess(pair.0, binders) >= excess(pair.1, binders) {
            excess(pair.0, binders)
        } else {
            excess(pair.1, binders)
        },
    }
}

/// A term under `count` more abstractions.
pub open spec fn abstracted(t: Term, count: nat) -> Term
    decreases count,
{
    if count == 0 {
        t
    } else {
        abstracted(Term::Abs(Box::new(t)), (count - 1) as nat)
    }
}

/// A term without the index 0 has a free variable exactly where it lacks an
/// abstraction.
pub proof fn lemma_free_is_excess(t: Term, binders: nat)
    requires
        !has_zero(t),
    ensures
        has_free_under(t, binders) <==> excess(t, binders) > 0,
    decreases t,
{
    match t {
        Term::Var(_) => {},
        Term::Abs(body) => {
            lemma_free_is_excess(*body, binders + 1);
        },
        Term::App(pair) => {
            lemma_free_is_excess(pair.0, binders);
            lemma_free_is_excess(pair.1, binders);
        },
    }
}

/// One more abstraction above a term is one abstraction less that it lacks.
pub proof fn lemma_excess_under_binder(t: Term, binders: nat)
    ensures
        excess(t, binders + 1) == if excess(t, binders) > 0 {
            (excess(t, binders) - 1) as nat
        } else {
            0
        },
    decreases t,
{
    match t {
        Term::Var(_) => {},
        Term::Abs(body) => {
            lemma_excess_under_binder(*body, binders + 1);
        },
        Term::App(pair) => {
            lemma_excess_under_binder(pair.0, binders);
            lemma_excess_under_binder(pair.1, binders);
        },
    }
}

/// The identity function, `λx.x`.
pub open spec fn identity_term() -> Term {
    Term::Abs(Box::new(Term::Var(1)))
}

/// The application `f x`.
pub open spec fn app_of(f: Term, x: Term) -> Term {
    Term::App(Box::new((f, x)))
}

/// A rule applied to a pair of parents, before any reduction: `(rule left) right`.
pub open spec fn candidate_of(rule: Term, left: Term, right: Term) -> Term {
    app_of(app_of(rule, left), right)
}

/// The rule `λx.λy.x y`: apply the left parent to the right one.
pub open spec fn application_rule() -> Term {
    Term::Abs(Box::new(Term::Abs(Box::new(app_of(Term::Var(2), Term::Var(1))))))
}

/// A closed term that opens with two abstractions.
pub open spec fn is_binary_combinator(t: Term) -> bool {
    &&& is_closed(t)
    &&& t matches Term::Abs(inner) && *inner is Abs
}

/// `n`, capped at `cap`.
pub open spec fn capped(n: nat, cap: nat) -> nat {
    if n <= cap {
        n
    } else {
        cap
    }
}

/// `lambda_calculus::Term::is_isomorphic_to` walks both terms in step and
/// answers whether they have the same shape and the same indices: it is
/// structural equality.
pub assume_specification[ Term::is_isomorphic_to ](a: &Term, b: &Term) -> (same: bool)
    ensures
        same == (*a == *b),
;

/// `lambda_calculus::Term::has_free_variables` answers whether some variable's
/// index is zero or exceeds the number of abstractions above it.
pub assume_specification[ Term::has_free_variables ](t: &Term) -> (open: bool)
    ensures
        open == has_free_under(*t, 0),
;

/// The `Clone` impl that `lambda_calculus` derives for `Term` copies the tree.
pub assume_specification[ <Term as Clone>::clone ](t: &Term) -> (copy: Term)
    ensures
        copy == *t,
;

/// `lambda_calculus::term::app` boxes its two arguments into an application.
pub assume_specification[ lambda_calculus::term::app ](lhs: Term, rhs: Term) -> (t: Term)
    ensures
        t == app_of(lhs, rhs),
;

/// `lambda_calculus::term::abs` boxes its argument into an abstraction.
pub assume_specification[ lambda_calculus::term::abs ](body: Term) -> (t: Term)
    ensures
        t == Term::Abs(Box::new(body)),
;

/// Counts the nodes of a term, or returns `None` when the count does not fit
/// in a `usize`.
pub fn term_size(t: &Term) -> (n: Option<usize>)
    ensures
        match n {
            Some(count) => count == size_of(*t),
            None => size_of(*t) > usize::MAX,
        },
    decreases *t,
{
    match t {
        Term::Var(_) => Some(1),
        Term::Abs(body) => match term_size(body) {
            Some(inner) => inner.checked_add(1),
            None => None,
        },
        Term::App(pair) => match (term_size(&pair.0), term_size(&pair.1)) {
            (Some(left), Some(right)) => match left.checked_add(right) {
                Some(both) => both.checked_add(1),
                None => None,
            },
            _ => None,
        },
    }
}

/// Tells whether a term has more than `limit` nodes.
pub fn exceeds_size(t: &Term, limit: usize) -> (over: bool)
    ensures
        over == (size_of(*t) > limit),
{
    match term_size(t) {
        Some(count) => count > limit,
        None => true,
    }
}

/// Measures the deepest nesting of abstractions in a term. The depth saturates
/// at `u32::MAX`.
pub fn term_depth(t: &Term) -> (d: u32)
    ensures
        d == capped(depth_of(*t), u32::MAX as nat),
    decreases *t,
{
    match t {
        Term::Var(_) => 0,
        Term::Abs(body) => {
            let inner: u32 = term_depth(body);
            inner.saturating_add(1)
        },
        Term::App(pair) => {
            let left: u32 = term_depth(&pair.0);
            let right: u32 = term_depth(&pair.1);
            if left >= right {
                left
            } else {
                right
            }
        },
    }
}

/// Builds the identity function, `λx.x`.
pub fn identity() -> (t: Term)
    ensures
        t == identity_term(),
{
    lambda_calculus::term::abs(Term::Var(1))
}

/// Builds the rule `λx.λy.x y`.
pub fn apply_left_to_right() -> (t: Term)
    ensures
        t == application_rule(),
        is_binary_combinator(t),
{
    let t = lambda_calculus::term::abs(
        lambda_calculus::term::abs(lambda_calculus::term::app(Term::Var(2), Term::Var(1))),
    );
    proof {
        reveal_with_fuel(has_free_under, 4);
    }
    t
}

/// Tells whether a term is a closed two-argument combinator, the shape every
/// reaction rule must have.
pub fn binary_combinator(t: &Term) -> (yes: bool)
    ensures
        yes == is_binary_combinator(*t),
{
    let two_binders = match t {
        Term::Abs(inner) => match &**inner {
            Term::Abs(_) => true,
            _ => false,
        },
        _ => false,
    };
    two_binders && !t.has_free_variables()
}

} // verus!
