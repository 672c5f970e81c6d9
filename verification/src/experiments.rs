//! What the experiments on reactors decide and compute: the reactor they all
//! run, the seed of each reactor of a fleet, and the tests that are put to a
//! population.

use crate::config::{default_rule_text, ConfigSeed, Reactor};
use crate::reaction::{reduce_with_limit, reduced_term};
use crate::soup::Soup;
use crate::term::{app_of, is_closed};
use lambda_calculus::Term;
use vstd::prelude::*;

verus! {

/// The number of reduction steps the experiments allow a collision.
pub const EXPERIMENT_REDUCTION_CUTOFF: usize = 512;

/// The number of nodes the experiments allow an expression.
pub const EXPERIMENT_SIZE_CUTOFF: usize = 1024;

/// The reactor of the experiments: the single rule `λx.λy.x y`, nothing
/// discarded but products with free variables, parents kept, the population
/// held constant, 512 reduction steps, 1024 nodes, and the seed given.
pub fn experiment_reactor(seed: [u8; 32]) -> (cfg: Reactor)
    ensures
        cfg.rules@.len() == 1,
        cfg.rules@[0]@ == default_rule_text(),
        !cfg.discard_copy_actions,
        !cfg.discard_identity,
        cfg.discard_free_variable_expressions,
        cfg.maintain_constant_population_size,
        !cfg.discard_parents,
        cfg.reduction_cutoff == EXPERIMENT_REDUCTION_CUTOFF,
        cfg.size_cutoff == EXPERIMENT_SIZE_CUTOFF,
        cfg.seed.0 == Some(seed),
{
    let mut rules: Vec<String> = Vec::new();
    rules.push("\\x.\\y.x y".to_owned());
    Reactor {
        rules,
        discard_copy_actions: false,
        discard_identity: false,
        discard_free_variable_expressions: true,
        maintain_constant_population_size: true,
        discard_parents: false,
        reduction_cutoff: EXPERIMENT_REDUCTION_CUTOFF,
        size_cutoff: EXPERIMENT_SIZE_CUTOFF,
        seed: ConfigSeed::new(seed),
    }
}

/// A number with its `count` lowest bytes taken away.
pub open spec fn without_low_bytes(id: nat, count: nat) -> nat
    decreases count,
{
    if count == 0 {
        id
    } else {
        without_low_bytes(id, (count - 1) as nat) / 256
    }
}

/// The byte with the number `k`, counted from the lowest, of a number.
pub open spec fn byte_of(id: nat, k: nat) -> u8 {
    (without_low_bytes(id, k) % 256) as u8
}

/// The seed of the reactor with the number `id` in a fleet: the number in
/// its first eight bytes, lowest byte first, and zeros behind.
pub fn seed_of_id(id: usize) -> (seed: [u8; 32])
    ensures
        forall|k: int| 0 <= k < 8 ==> seed@[k] == byte_of(id as nat, k as nat),
        forall|k: int| 8 <= k < 32 ==> seed@[k] == 0,
{
    let mut seed: [u8; 32] = [0; 32];
    let mut rest: usize = id;
    let mut k: usize = 0;
    while k < 8
        invariant
            k <= 8,
            rest == without_low_bytes(id as nat, k as nat),
            forall|m: int| 0 <= m < k ==> seed@[m] == byte_of(id as nat, m as nat),
            forall|m: int| k <= m < 32 ==> seed@[m] == 0,
        decreases 8 - k,
    {
        seed[k] = (rest % 256) as u8;
        rest = rest / 256;
        k = k + 1;
    }
    seed
}

/// Tells whether the population holds an expression isomorphic to `target`.
pub fn holds_isomorphic(soup: &Soup, target: &Term) -> (yes: bool)
    ensures
        yes == soup@.expressions.contains(*target),
{
    let all = soup.expressions();
    let mut i: usize = 0;
    while i < all.len()
        invariant
            i <= all.len(),
            all@ == soup@.expressions,
            forall|m: int| 0 <= m < i ==> all@[m] != *target,
        decreases all.len() - i,
    {
        if all[i].is_isomorphic_to(target) {
            return true;
        }
        i = i + 1;
    }
    false
}

/// What is left of `f x` when the bounded reducer of the experiments is
/// through with it, whether it reached a normal form or not.
pub open spec fn settled(f: Term, x: Term) -> Term {
    reduced_term(
        app_of(f, x),
        EXPERIMENT_REDUCTION_CUTOFF as nat,
        EXPERIMENT_SIZE_CUTOFF as nat,
    )
}

/// Two different expressions that act on each other as exclusive or acts on
/// truth values, with `a` for false: `a a` and `b b` give `a`, `a b` and `b a`
/// give `b`.
pub open spec fn is_xorset(a: Term, b: Term) -> bool {
    &&& a != b
    &&& settled(a, a) == a
    &&& settled(a, b) == b
    &&& settled(b, a) == b
    &&& settled(b, b) == a
}

/// Two different expressions of which only `b b` gives `a`: `a a`, `a b` and
/// `b a` give `b`.
pub open spec fn is_not_xorset(a: Term, b: Term) -> bool {
    &&& a != b
    &&& settled(a, a) == b
    &&& settled(a, b) == b
    &&& settled(b, a) == b
    &&& settled(b, b) == a
}

/// Applies `f` to `x` and reduces within the limits of the experiments.
fn settle(f: &Term, x: &Term) -> (t: Term)
    requires
        is_closed(*f),
        is_closed(*x),
    ensures
        t == settled(*f, *x),
{
    let mut t = lambda_calculus::term::app(f.clone(), x.clone());
    let _ = reduce_with_limit(&mut t, EXPERIMENT_REDUCTION_CUTOFF, EXPERIMENT_SIZE_CUTOFF);
    t
}

/// Tests whether two closed expressions form an exclusive-or set.
pub fn xorset_test(a: &Term, b: &Term) -> (yes: bool)
    requires
        is_closed(*a),
        is_closed(*b),
    ensures
        yes == is_xorset(*a, *b),
{
    if a.is_isomorphic_to(b) {
        return false;
    }
    let aa = settle(a, a);
    let ab = settle(a, b);
    let ba = settle(b, a);
    let bb = settle(b, b);
    aa.is_isomorphic_to(a) && ab.is_isomorphic_to(b) && ba.is_isomorphic_to(b)
        && bb.is_isomorphic_to(a)
}

/// Tests whether two closed expressions act on each other as the negated
/// pattern of an exclusive-or set asks.
pub fn not_xorset_test(a: &Term, b: &Term) -> (yes: bool)
    requires
        is_closed(*a),
        is_closed(*b),
    ensures
        yes == is_not_xorset(*a, *b),
{
    if a.is_isomorphic_to(b) {
        return false;
    }
    let aa = settle(a, a);
    let ab = settle(a, b);
    let ba = settle(b, a);
    let bb = settle(b, b);
    aa.is_isomorphic_to(b) && ab.is_isomorphic_to(b) && ba.is_isomorphic_to(b)
        && bb.is_isomorphic_to(a)
}

/// Whether a comparison looks at the pair of positions `(i, j)`: at every
/// pair, or, where the test is taken as symmetric, at those with `j` not
/// beyond `i`.
pub open spec fn compared(i: int, j: int, symmetric: bool) -> bool {
    !symmetric || j <= i
}

/// Whether the pair `(i, j)` is looked at before the pair `(k, l)`.
pub open spec fn earlier(i: int, j: int, k: int, l: int) -> bool {
    i < k || (i == k && j < l)
}

/// Whether `test` may give `verdict` for the terms at `i` and `j`.
pub open spec fn judged<F: Fn(&Term, &Term) -> bool>(
    test: F,
    terms: Seq<Term>,
    i: int,
    j: int,
    verdict: bool,
) -> bool {
    call_ensures(test, (&terms[i], &terms[j]), verdict)
}

/// Looks for a pair of terms that passes `test`, row by row: the first term
/// runs through the list, and for each first term the second one runs through
/// the list, or, where the test is taken as symmetric, up to the first term.
/// Returns the first pair that passes, or nothing where none does.
pub fn pairwise_compare<F>(terms: &Vec<Term>, test: F, symmetric: bool) -> (found: Option<
    (Term, Term),
>) where F: Fn(&Term, &Term) -> bool
    requires
        forall|i: int, j: int|
            0 <= i < terms@.len() && 0 <= j < terms@.len() ==> call_requires(
                test,
                (&#[trigger] terms@[i], &#[trigger] terms@[j]),
            ),
    ensures
        match found {
            Some(pair) => exists|i: int, j: int|
                {
                    &&& 0 <= i < terms@.len() && 0 <= j < terms@.len()
                    &&& compared(i, j, symmetric)
                    &&& pair == (terms@[i], terms@[j])
                    &&& #[trigger] judged(test, terms@, i, j, true)
                    &&& forall|k: int, l: int|
                        0 <= k < terms@.len() && 0 <= l < terms@.len() && compared(k, l, symmetric)
                            && earlier(k, l, i, j) ==> #[trigger] judged(test, terms@, k, l, false)
                },
            None => forall|i: int, j: int|
                0 <= i < terms@.len() && 0 <= j < terms@.len() && compared(i, j, symmetric)
                    ==> #[trigger] judged(test, terms@, i, j, false),
        },
{
    let n: usize = terms.len();
    let mut i: usize = 0;
    while i < n
        invariant
            i <= n,
            n == terms@.len(),
            forall|k: int, l: int|
                0 <= k < terms@.len() && 0 <= l < terms@.len() ==> call_requires(
                    test,
                    (&#[trigger] terms@[k], &#[trigger] terms@[l]),
                ),
            forall|k: int, l: int|
                0 <= k < i && 0 <= l < n && compared(k, l, symmetric) ==> #[trigger] judged(
                    test,
                    terms@,
                    k,
                    l,
                    false,
                ),
        decreases n - i,
    {
        let row_end: usize = if symmetric {
            i + 1
        } else {
            n
        };
        let mut j: usize = 0;
        while j < row_end
            invariant
                i < n,
                j <= row_end <= n,
                n == terms@.len(),
                row_end == if symmetric {
                    i + 1
                } else {
                    n as int
                },
                forall|k: int, l: int|
                    0 <= k < terms@.len() && 0 <= l < terms@.len() ==> call_requires(
                        test,
                        (&#[trigger] terms@[k], &#[trigger] terms@[l]),
                    ),
                forall|k: int, l: int|
                    0 <= k < i && 0 <= l < n && compared(k, l, symmetric) ==> #[trigger] judged(
                        test,
                        terms@,
                        k,
                        l,
                        false,
                    ),
                forall|l: int| 0 <= l < j ==> #[trigger] judged(test, terms@, i as int, l, false),
            decreases row_end - j,
        {
            if test(&terms[i], &terms[j]) {
                assert(judged(test, terms@, i as int, j as int, true));
                return Some((terms[i].clone(), terms[j].clone()));
            }
            j = j + 1;
        }
        i = i + 1;
    }
    None
}

} // verus!
