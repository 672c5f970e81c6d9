//! Measurements of a population: which expressions it holds, how often, and
//! which are the most frequent.
//!
//! Two expressions are the same when they are isomorphic. The population is
//! counted as a multiset; where an order matters, it is the order in which the
//! expressions are first seen.

use crate::soup::Soup;
use lambda_calculus::Term;
use vstd::multiset::Multiset;
use vstd::prelude::*;

verus! {

/// How often `t` occurs in a population.
pub open spec fn occurrences(terms: Seq<Term>, t: Term) -> nat {
    terms.to_multiset().count(t)
}

/// The different terms of a population, each once, in the order in which they
/// are first seen.
pub open spec fn distinct(terms: Seq<Term>) -> Seq<Term>
    decreases terms.len(),
{
    if terms.len() == 0 {
        Seq::empty()
    } else if distinct(terms.drop_last()).contains(terms.last()) {
        distinct(terms.drop_last())
    } else {
        distinct(terms.drop_last()).push(terms.last())
    }
}

/// The multiplicity of each term of `support` in a population.
pub open spec fn multiplicities(terms: Seq<Term>, support: Seq<Term>) -> Seq<nat> {
    Seq::new(support.len(), |i: int| occurrences(terms, support[i]))
}

/// Whether position `i` ranks before position `j`: it has more occurrences,
/// or as many and was seen first.
pub open spec fn outranks(counts: Seq<nat>, i: int, j: int) -> bool {
    counts[i] > counts[j] || (counts[i] == counts[j] && i < j)
}

/// Whether `order` lists the best of the first `n` positions of `counts`,
/// best first: its positions lie below `n`, each ranks before those after it,
/// and each ranks before every position below `n` that is left out.
pub open spec fn ranks_first(counts: Seq<nat>, order: Seq<usize>, n: int) -> bool {
    &&& forall|p: int| 0 <= p < order.len() ==> (#[trigger] order[p]) < n
    &&& forall|p: int, q: int|
        0 <= p < q < order.len() ==> outranks(
            counts,
            (#[trigger] order[p]) as int,
            (#[trigger] order[q]) as int,
        )
    &&& forall|p: int, j: usize|
        0 <= p < order.len() && j < n && !order.contains(j) ==> #[trigger] outranks(
            counts,
            order[p] as int,
            j as int,
        )
}

/// Whether `order` holds every position below `n`.
pub open spec fn holds_all_below(order: Seq<usize>, n: int) -> bool {
    forall|j: usize| j < n ==> #[trigger] order.contains(j)
}

/// Whether `order` lists the `order.len()` best positions of `counts`, best
/// first.
pub open spec fn is_top_ranking(counts: Seq<nat>, order: Seq<usize>) -> bool {
    ranks_first(counts, order, counts.len() as int)
}

/// The terms that stand at the positions `order` among the different terms of
/// a population.
pub open spec fn ranked_terms(terms: Seq<Term>, order: Seq<usize>) -> Seq<Term> {
    Seq::new(order.len(), |p: int| distinct(terms)[order[p] as int])
}

/// Whether `best` lists the `best.len()` most frequent expressions of a
/// population, most frequent first, with the expression seen first ahead
/// among those that are equally frequent.
pub open spec fn is_most_frequent(terms: Seq<Term>, best: Seq<Term>) -> bool {
    exists|order: Seq<usize>|
        #[trigger] is_top_ranking(multiplicities(terms, distinct(terms)), order) && best
            == ranked_terms(terms, order)
}

/// How many expressions two populations share, counted with multiplicity:
/// the size of the intersection of the two multisets, in which every
/// expression occurs as often as in the population that holds it less often.
pub open spec fn shared_count(a: Seq<Term>, b: Seq<Term>) -> nat {
    a.to_multiset().intersection_with(b.to_multiset()).len()
}

/// The number of expressions of `a` that find a partner in `b`, where every
/// expression of `b` is partner to one expression at most.
pub open spec fn matched(a: Seq<Term>, b: Seq<Term>) -> nat
    decreases a.len(),
{
    if a.len() == 0 {
        0
    } else if occurrences(a, a.last()) <= occurrences(b, a.last()) {
        matched(a.drop_last(), b) + 1
    } else {
        matched(a.drop_last(), b)
    }
}

/// The smaller of two multiplicities.
pub open spec fn lesser(x: nat, y: nat) -> nat {
    if x <= y {
        x
    } else {
        y
    }
}

/// The sum, over the terms of `support`, of the smaller of a term's
/// multiplicities in `a` and in `b`.
pub open spec fn overlap_over(support: Seq<Term>, a: Seq<Term>, b: Seq<Term>) -> nat
    decreases support.len(),
{
    if support.len() == 0 {
        0
    } else {
        overlap_over(support.drop_last(), a, b) + lesser(
            occurrences(a, support.last()),
            occurrences(b, support.last()),
        )
    }
}

/// The empty population holds nothing.
pub proof fn lemma_occurrences_empty(t: Term)
    ensures
        occurrences(Seq::empty(), t) == 0,
{
    broadcast use vstd::seq_lib::group_to_multiset_ensures;

}

/// One more term in a population is one more occurrence of that term and of
/// no other.
pub proof fn lemma_occurrences_push(terms: Seq<Term>, x: Term, t: Term)
    ensures
        occurrences(terms.push(x), t) == occurrences(terms, t) + if x == t {
            1nat
        } else {
            0nat
        },
{
    broadcast use vstd::seq_lib::group_to_multiset_ensures;
    broadcast use vstd::multiset::group_multiset_properties;

}

/// No term occurs more often than the population is large.
pub proof fn lemma_occurrences_bound(terms: Seq<Term>, t: Term)
    ensures
        occurrences(terms, t) <= terms.len(),
    decreases terms.len(),
{
    if terms.len() == 0 {
        lemma_occurrences_empty(t);
        assert(terms =~= Seq::empty());
    } else {
        lemma_occurrences_bound(terms.drop_last(), t);
        lemma_occurrences_push(terms.drop_last(), terms.last(), t);
        assert(terms.drop_last().push(terms.last()) =~= terms);
    }
}

/// `distinct` lists every term of the population exactly once, and nothing
/// else.
pub proof fn lemma_distinct(terms: Seq<Term>)
    ensures
        distinct(terms).no_duplicates(),
        distinct(terms).len() <= terms.len(),
        forall|t: Term| #[trigger] distinct(terms).contains(t) <==> occurrences(terms, t) > 0,
    decreases terms.len(),
{
    if terms.len() == 0 {
        assert forall|t: Term| #[trigger]
            distinct(terms).contains(t) <==> occurrences(terms, t) > 0 by {
            lemma_occurrences_empty(t);
            assert(terms =~= Seq::empty());
        }
    } else {
        let front = terms.drop_last();
        let x = terms.last();
        lemma_distinct(front);
        assert(front.push(x) =~= terms);
        assert forall|t: Term| #[trigger]
            distinct(terms).contains(t) <==> occurrences(terms, t) > 0 by {
            lemma_occurrences_push(front, x, t);
            let d = distinct(front);
            if !d.contains(x) {
                if d.push(x).contains(t) {
                    let i = choose|i: int| 0 <= i < d.push(x).len() && d.push(x)[i] == t;
                    if i < d.len() {
                        assert(d[i] == t);
                        assert(d.contains(t));
                    }
                }
                if d.contains(t) {
                    let i = choose|i: int| 0 <= i < d.len() && d[i] == t;
                    assert(d.push(x)[i] == t);
                }
                if t == x {
                    assert(d.push(x)[d.len() as int] == t);
                }
            }
        }
    }
}

/// A ranking of the first `j` positions stays one when the position `j` is
/// put in behind the positions that rank before it and ahead of those that
/// it ranks before, provided that it is not put last behind a ranking that
/// leaves positions out.
proof fn lemma_rank_inserted(counts: Seq<nat>, order: Seq<usize>, at: int, j: usize)
    requires
        0 <= at <= order.len(),
        j < counts.len(),
        ranks_first(counts, order, j as int),
        forall|p: int| 0 <= p < at ==> outranks(counts, (#[trigger] order[p]) as int, j as int),
        forall|p: int|
            at <= p < order.len() ==> outranks(counts, j as int, (#[trigger] order[p]) as int),
        at < order.len() || holds_all_below(order, j as int),
    ensures
        ranks_first(counts, order.insert(at, j), j + 1),
        holds_all_below(order, j as int) ==> holds_all_below(order.insert(at, j), j + 1),
{
    let grown = order.insert(at, j);
    assert(grown[at] == j);
    assert forall|x: usize| order.contains(x) implies grown.contains(x) by {
        let i = choose|i: int| 0 <= i < order.len() && order[i] == x;
        if i < at {
            assert(grown[i] == x);
        } else {
            assert(grown[i + 1] == x);
        }
    }
    assert forall|p: int| 0 <= p < grown.len() && p != at implies exists|o: int|
        0 <= o < order.len() && order[o] == #[trigger] grown[p] && (o < at <==> p < at) by {
        if p < at {
            assert(grown[p] == order[p]);
        } else {
            assert(grown[p] == order[p - 1]);
        }
    }
    assert forall|p: int, x: usize|
        0 <= p < grown.len() && x < j + 1 && !grown.contains(x) implies #[trigger] outranks(
        counts,
        grown[p] as int,
        x as int,
    ) by {
        assert(x != j);
        assert(!order.contains(x));
        if p == at {
            assert(at < order.len());
            assert(outranks(counts, j as int, order[at] as int));
            assert(outranks(counts, order[at] as int, x as int));
        } else {
            let o = choose|o: int|
                0 <= o < order.len() && order[o] == grown[p] && (o < at <==> p < at);
            assert(outranks(counts, order[o] as int, x as int));
        }
    }
    assert forall|p: int, q: int| 0 <= p < q < grown.len() implies outranks(
        counts,
        (#[trigger] grown[p]) as int,
        (#[trigger] grown[q]) as int,
    ) by {
        if p < at {
            assert(grown[p] == order[p]);
        } else if p > at {
            assert(grown[p] == order[p - 1]);
        }
        if q < at {
            assert(grown[q] == order[q]);
        } else if q > at {
            assert(grown[q] == order[q - 1]);
        }
    }
    assert forall|p: int| 0 <= p < grown.len() implies (#[trigger] grown[p]) < j + 1 by {
        if p < at {
            assert(grown[p] == order[p]);
        } else if p > at {
            assert(grown[p] == order[p - 1]);
        }
    }
}

/// A ranking stays one when its last position is left out.
proof fn lemma_rank_trimmed(counts: Seq<nat>, order: Seq<usize>, n: int)
    requires
        order.len() > 0,
        ranks_first(counts, order, n),
    ensures
        ranks_first(counts, order.drop_last(), n),
{
    let kept = order.drop_last();
    assert forall|p: int, x: usize|
        0 <= p < kept.len() && x < n && !kept.contains(x) implies #[trigger] outranks(
        counts,
        kept[p] as int,
        x as int,
    ) by {
        assert(kept[p] == order[p]);
        if order.contains(x) {
            let i = choose|i: int| 0 <= i < order.len() && order[i] == x;
            if i < kept.len() {
                assert(kept[i] == x);
            } else {
                assert(outranks(counts, order[p] as int, order[i] as int));
            }
        }
    }
    assert forall|p: int, q: int| 0 <= p < q < kept.len() implies outranks(
        counts,
        (#[trigger] kept[p]) as int,
        (#[trigger] kept[q]) as int,
    ) by {
        assert(kept[p] == order[p] && kept[q] == order[q]);
    }
    assert forall|p: int| 0 <= p < kept.len() implies (#[trigger] kept[p]) < n by {
        assert(kept[p] == order[p]);
    }
}

/// Two rankings of equally many positions agree on the first `p` of them.
proof fn lemma_rankings_agree(counts: Seq<nat>, a: Seq<usize>, b: Seq<usize>, p: int)
    requires
        is_top_ranking(counts, a),
        is_top_ranking(counts, b),
        a.len() == b.len(),
        0 <= p <= a.len(),
    ensures
        forall|q: int| 0 <= q < p ==> a[q] == b[q],
    decreases p,
{
    if p > 0 {
        lemma_rankings_agree(counts, a, b, p - 1);
        let last = p - 1;
        let x = a[last];
        let y = b[last];
        if x != y {
            if outranks(counts, x as int, y as int) {
                if b.contains(x) {
                    let q = choose|q: int| 0 <= q < b.len() && b[q] == x;
                    if q < last {
                        assert(a[q] == x);
                        assert(outranks(counts, a[q] as int, a[last] as int));
                    } else {
                        assert(outranks(counts, b[last] as int, b[q] as int));
                    }
                } else {
                    assert(outranks(counts, b[last] as int, x as int));
                }
            } else {
                assert(outranks(counts, y as int, x as int));
                if a.contains(y) {
                    let q = choose|q: int| 0 <= q < a.len() && a[q] == y;
                    if q < last {
                        assert(b[q] == y);
                        assert(outranks(counts, b[q] as int, b[last] as int));
                    } else {
                        assert(outranks(counts, a[last] as int, a[q] as int));
                    }
                } else {
                    assert(outranks(counts, a[last] as int, y as int));
                }
            }
        }
    }
}

/// There is one ranking of each length: two rankings of equally many
/// positions are the same.
pub proof fn lemma_top_ranking_unique(counts: Seq<nat>, a: Seq<usize>, b: Seq<usize>)
    requires
        is_top_ranking(counts, a),
        is_top_ranking(counts, b),
        a.len() == b.len(),
    ensures
        a == b,
{
    lemma_rankings_agree(counts, a, b, a.len() as int);
}

/// The beginning of a ranking is the ranking of that length.
pub proof fn lemma_top_ranking_prefix(counts: Seq<nat>, order: Seq<usize>, m: int)
    requires
        is_top_ranking(counts, order),
        0 <= m <= order.len(),
    ensures
        is_top_ranking(counts, order.take(m)),
{
    let head = order.take(m);
    assert forall|p: int, x: usize|
        0 <= p < head.len() && x < counts.len() && !head.contains(x) implies #[trigger] outranks(
        counts,
        head[p] as int,
        x as int,
    ) by {
        assert(head[p] == order[p]);
        if order.contains(x) {
            let i = choose|i: int| 0 <= i < order.len() && order[i] == x;
            if i < m {
                assert(head[i] == x);
            } else {
                assert(outranks(counts, order[p] as int, order[i] as int));
            }
        }
    }
    assert forall|p: int, q: int| 0 <= p < q < head.len() implies outranks(
        counts,
        (#[trigger] head[p]) as int,
        (#[trigger] head[q]) as int,
    ) by {
        assert(head[p] == order[p] && head[q] == order[q]);
    }
    assert forall|p: int| 0 <= p < head.len() implies (#[trigger] head[p]) < counts.len() by {
        assert(head[p] == order[p]);
    }
}

/// The most frequent expressions for a smaller `k` are the beginning of those
/// for a larger `k`: whatever two calls of `k_most_frequent_exprs` return on
/// one population, the shorter list opens the longer one.
pub proof fn lemma_most_frequent_prefix(terms: Seq<Term>, small: Seq<Term>, large: Seq<Term>)
    requires
        is_most_frequent(terms, small),
        is_most_frequent(terms, large),
        small.len() <= large.len(),
    ensures
        small == large.take(small.len() as int),
{
    let counts = multiplicities(terms, distinct(terms));
    let a = choose|order: Seq<usize>| #[trigger]
        is_top_ranking(counts, order) && small == ranked_terms(terms, order);
    let b = choose|order: Seq<usize>| #[trigger]
        is_top_ranking(counts, order) && large == ranked_terms(terms, order);
    lemma_top_ranking_prefix(counts, b, a.len() as int);
    lemma_top_ranking_unique(counts, a, b.take(a.len() as int));
}

/// The most frequent expressions follow the ranking that the multiplicities
/// give: no expression is listed twice, none is less frequent than one listed
/// after it, and none is less frequent than an expression of the population
/// that is not listed.
pub proof fn lemma_most_frequent_ranked(terms: Seq<Term>, best: Seq<Term>)
    requires
        is_most_frequent(terms, best),
        terms.len() <= usize::MAX,
    ensures
        best.no_duplicates(),
        forall|p: int| 0 <= p < best.len() ==> occurrences(terms, #[trigger] best[p]) > 0,
        forall|p: int, q: int|
            0 <= p < q < best.len() ==> occurrences(terms, #[trigger] best[p]) >= occurrences(
                terms,
                #[trigger] best[q],
            ),
        forall|p: int, t: Term|
            0 <= p < best.len() && !best.contains(t) ==> occurrences(terms, #[trigger] best[p])
                >= #[trigger] occurrences(terms, t),
{
    let d = distinct(terms);
    let counts = multiplicities(terms, d);
    let order = choose|order: Seq<usize>| #[trigger]
        is_top_ranking(counts, order) && best == ranked_terms(terms, order);
    lemma_distinct(terms);
    assert forall|p: int, q: int| 0 <= p < q < best.len() implies occurrences(
        terms,
        #[trigger] best[p],
    ) >= occurrences(terms, #[trigger] best[q]) && best[p] != best[q] by {
        assert(outranks(counts, order[p] as int, order[q] as int));
    }
    assert forall|p: int| 0 <= p < best.len() implies occurrences(terms, #[trigger] best[p])
        > 0 by {
        assert(d.contains(d[order[p] as int]));
    }
    assert forall|p: int, t: Term| 0 <= p < best.len() && !best.contains(t) implies occurrences(
        terms,
        #[trigger] best[p],
    ) >= #[trigger] occurrences(terms, t) by {
        if d.contains(t) {
            let i = choose|i: int| 0 <= i < d.len() && d[i] == t;
            let at = i as usize;
            assert(at as int == i);
            if order.contains(at) {
                let q = choose|q: int| 0 <= q < order.len() && order[q] == at;
                assert(best[q] == d[order[q] as int]);
                assert(best[q] == t);
            } else {
                assert(outranks(counts, order[p] as int, at as int));
            }
        }
    }
}

/// The partners counted one by one are the shared expressions.
pub proof fn lemma_matched_is_shared(a: Seq<Term>, b: Seq<Term>)
    ensures
        matched(a, b) == shared_count(a, b),
        matched(a, b) <= a.len(),
    decreases a.len(),
{
    broadcast use vstd::seq_lib::group_to_multiset_ensures;
    broadcast use vstd::multiset::group_multiset_properties;

    let big = b.to_multiset();
    if a.len() == 0 {
        assert(a =~= Seq::empty());
        assert forall|t: Term| a.to_multiset().intersection_with(big).count(t) == 0 by {
            lemma_occurrences_empty(t);
        }
        assert(a.to_multiset().intersection_with(big) =~= Multiset::empty());
    } else {
        let front = a.drop_last();
        let x = a.last();
        lemma_matched_is_shared(front, b);
        assert(front.push(x) =~= a);
        assert(a.to_multiset() =~= front.to_multiset().insert(x));
        let before = front.to_multiset().intersection_with(big);
        let after = a.to_multiset().intersection_with(big);
        lemma_occurrences_push(front, x, x);
        if occurrences(a, x) <= occurrences(b, x) {
            assert forall|t: Term| after.count(t) == before.insert(x).count(t) by {
                lemma_occurrences_push(front, x, t);
            }
            assert(after =~= before.insert(x));
        } else {
            assert forall|t: Term| after.count(t) == before.count(t) by {
                lemma_occurrences_push(front, x, t);
            }
            assert(after =~= before);
        }
    }
}

/// A term that is not in the support does not change the sum when it joins
/// the population.
proof fn lemma_overlap_unchanged(support: Seq<Term>, a: Seq<Term>, x: Term, b: Seq<Term>)
    requires
        !support.contains(x),
    ensures
        overlap_over(support, a.push(x), b) == overlap_over(support, a, b),
    decreases support.len(),
{
    if support.len() > 0 {
        let front = support.drop_last();
        assert(support[support.len() - 1] == support.last());
        assert forall|t: Term| front.contains(t) implies support.contains(t) by {
            let i = choose|i: int| 0 <= i < front.len() && front[i] == t;
            assert(support[i] == t);
        }
        lemma_overlap_unchanged(front, a, x, b);
        lemma_occurrences_push(a, x, support.last());
    }
}

/// A term that joins the population adds one to the sum where it is in the
/// support and finds a partner, and nothing otherwise.
proof fn lemma_overlap_step(support: Seq<Term>, a: Seq<Term>, x: Term, b: Seq<Term>)
    requires
        support.no_duplicates(),
    ensures
        overlap_over(support, a.push(x), b) == overlap_over(support, a, b) + if support.contains(x)
            && occurrences(a, x) + 1 <= occurrences(b, x) {
            1nat
        } else {
            0nat
        },
    decreases support.len(),
{
    if support.len() > 0 {
        let front = support.drop_last();
        let t = support.last();
        assert(support[support.len() - 1] == t);
        lemma_occurrences_push(a, x, t);
        if t == x {
            assert(!front.contains(x)) by {
                if front.contains(x) {
                    let i = choose|i: int| 0 <= i < front.len() && front[i] == x;
                    assert(support[i] == x);
                }
            }
            lemma_overlap_unchanged(front, a, x, b);
        } else {
            assert(front.no_duplicates());
            lemma_overlap_step(front, a, x, b);
            assert(front.contains(x) <==> support.contains(x)) by {
                if front.contains(x) {
                    let i = choose|i: int| 0 <= i < front.len() && front[i] == x;
                    assert(support[i] == x);
                }
                if support.contains(x) {
                    let i = choose|i: int| 0 <= i < support.len() && support[i] == x;
                    assert(front[i] == x);
                }
            }
        }
    } else {
        assert(!support.contains(x));
    }
}

/// Summing, over the different expressions of `a`, the smaller of the two
/// multiplicities counts the expressions that `a` and `b` share.
pub proof fn lemma_overlap_is_shared(a: Seq<Term>, b: Seq<Term>)
    ensures
        overlap_over(distinct(a), a, b) == shared_count(a, b),
    decreases a.len(),
{
    lemma_matched_is_shared(a, b);
    lemma_overlap_is_matched(a, b);
}

proof fn lemma_overlap_is_matched(a: Seq<Term>, b: Seq<Term>)
    ensures
        overlap_over(distinct(a), a, b) == matched(a, b),
    decreases a.len(),
{
    if a.len() > 0 {
        let front = a.drop_last();
        let x = a.last();
        assert(front.push(x) =~= a);
        lemma_overlap_is_matched(front, b);
        lemma_distinct(front);
        lemma_occurrences_push(front, x, x);
        let d = distinct(front);
        lemma_overlap_step(d, front, x, b);
        if !d.contains(x) {
            assert(d.push(x).drop_last() =~= d);
            assert(occurrences(front, x) == 0);
        }
    }
}

/// Two populations share no more expressions than either holds, so the
/// shared count is at most half of the two sizes together.
pub proof fn lemma_shared_bounds(a: Seq<Term>, b: Seq<Term>)
    ensures
        shared_count(a, b) <= a.len(),
        shared_count(a, b) <= b.len(),
        2 * shared_count(a, b) <= a.len() + b.len(),
{
    lemma_matched_is_shared(a, b);
    lemma_matched_is_shared(b, a);
    lemma_shared_symmetric(a, b);
}

/// A population shares all of its expressions with itself: the shared count
/// is exactly half of twice its size.
pub proof fn lemma_shared_with_itself(a: Seq<Term>)
    ensures
        shared_count(a, a) == a.len(),
        2 * shared_count(a, a) == a.len() + a.len(),
{
    broadcast use vstd::seq_lib::group_to_multiset_ensures;
    broadcast use vstd::multiset::group_multiset_properties;

    assert(a.to_multiset().intersection_with(a.to_multiset()) =~= a.to_multiset());
}

/// What two populations share does not depend on which of them is asked.
pub proof fn lemma_shared_symmetric(a: Seq<Term>, b: Seq<Term>)
    ensures
        shared_count(a, b) == shared_count(b, a),
{
    broadcast use vstd::multiset::group_multiset_properties;

    assert(a.to_multiset().intersection_with(b.to_multiset()) =~= b.to_multiset().intersection_with(
        a.to_multiset(),
    ));
}

/// The multiplicities of a population, one for each of its different
/// expressions, in the order in which the expressions are first seen.
#[derive(Debug)]
pub struct ExpressionCounts {
    terms: Vec<Term>,
    counts: Vec<u32>,
}

impl ExpressionCounts {
    /// The expressions counted, each once.
    pub closed spec fn terms(&self) -> Seq<Term> {
        self.terms@
    }

    /// The multiplicity of each expression, in the order of `terms`.
    pub closed spec fn counts(&self) -> Seq<u32> {
        self.counts@
    }

    /// Every expression is listed once and has its multiplicity beside it.
    pub open spec fn wf(&self) -> bool {
        &&& self.terms().len() == self.counts().len()
        &&& self.terms().no_duplicates()
    }

    /// The multiplicity on record for `t`: zero for an expression that is not
    /// listed.
    pub open spec fn count(&self, t: Term) -> nat {
        if self.terms().contains(t) {
            self.counts()[self.terms().index_of(t)] as nat
        } else {
            0
        }
    }

    /// Whether these are the counts of the population `terms`.
    pub open spec fn counts_of(&self, terms: Seq<Term>) -> bool {
        &&& self.wf()
        &&& self.terms() == distinct(terms)
        &&& forall|i: int|
            0 <= i < self.terms().len() ==> #[trigger] self.counts()[i] == occurrences(
                terms,
                self.terms()[i],
            )
    }

    /// The number of different expressions.
    pub fn len(&self) -> (n: usize)
        requires
            self.wf(),
        ensures
            n == self.terms().len(),
    {
        self.terms.len()
    }

    /// The expression at position `i`, and its multiplicity.
    pub fn entry(&self, i: usize) -> (pair: (&Term, u32))
        requires
            self.wf(),
            i < self.terms().len(),
        ensures
            *pair.0 == self.terms()[i as int],
            pair.1 == self.counts()[i as int],
    {
        (&self.terms[i], self.counts[i])
    }

    /// The multiplicity of an expression: zero where the population does not
    /// hold it.
    pub fn get(&self, t: &Term) -> (n: u32)
        requires
            self.wf(),
        ensures
            n == self.count(*t),
    {
        match position(&self.terms, t) {
            Some(i) => {
                self.counts[i]
            },
            None => 0,
        }
    }
}

/// The terms of all the lists, one list after the other.
pub open spec fn gathered(lists: Seq<Seq<Term>>) -> Seq<Term>
    decreases lists.len(),
{
    if lists.len() == 0 {
        Seq::empty()
    } else {
        gathered(lists.drop_last()) + lists.last()
    }
}

/// The expressions counted at each of a series of polls.
pub open spec fn polled_terms(polls: Seq<ExpressionCounts>) -> Seq<Seq<Term>> {
    Seq::new(polls.len(), |i: int| polls[i].terms())
}

/// How the multiplicities of expressions change from poll to poll: every
/// expression that some poll has counted, in the order in which the polls
/// first saw it, with its multiplicity at each poll.
#[derive(Debug)]
pub struct FrequencySeries {
    terms: Vec<Term>,
    rows: Vec<Vec<u32>>,
}

impl FrequencySeries {
    /// The expressions, each once.
    pub closed spec fn terms(&self) -> Seq<Term> {
        self.terms@
    }

    /// For each expression, in the order of `terms`, its multiplicity at each
    /// poll.
    pub closed spec fn rows(&self) -> Seq<Seq<u32>> {
        Seq::new(self.rows@.len(), |r: int| self.rows@[r]@)
    }

    /// Whether this is the table of the polls `polls`.
    pub open spec fn series_of(&self, polls: Seq<ExpressionCounts>) -> bool {
        &&& self.terms() == distinct(gathered(polled_terms(polls)))
        &&& self.rows().len() == self.terms().len()
        &&& forall|r: int|
            0 <= r < self.rows().len() ==> (#[trigger] self.rows()[r]).len() == polls.len()
        &&& forall|r: int, i: int|
            0 <= r < self.rows().len() && 0 <= i < polls.len() ==> #[trigger] self.rows()[r][i]
                == polls[i].count(self.terms()[r])
    }

    /// The number of expressions in the table.
    pub fn len(&self) -> (n: usize)
        ensures
            n == self.terms().len(),
    {
        self.terms.len()
    }

    /// The expression at position `r`.
    pub fn term(&self, r: usize) -> (t: &Term)
        requires
            r < self.terms().len(),
        ensures
            *t == self.terms()[r as int],
    {
        &self.terms[r]
    }

    /// The multiplicities of the expression at position `r`, one for each
    /// poll.
    pub fn series(&self, r: usize) -> (row: &Vec<u32>)
        requires
            r < self.rows().len(),
        ensures
            row@ == self.rows()[r as int],
    {
        &self.rows[r]
    }
}

/// Lines the counts of a series of polls up by expression: every expression
/// that some poll has counted gets a row with its multiplicity at each poll,
/// zero where a poll did not see it.
pub fn frequency_series(polls: &Vec<ExpressionCounts>) -> (table: FrequencySeries)
    requires
        forall|i: int| 0 <= i < polls@.len() ==> (#[trigger] polls@[i]).wf(),
    ensures
        table.series_of(polls@),
{
    let ghost lists = polled_terms(polls@);
    let mut terms: Vec<Term> = Vec::new();
    let mut i: usize = 0;
    while i < polls.len()
        invariant
            i <= polls@.len(),
            lists == polled_terms(polls@),
            forall|k: int| 0 <= k < polls@.len() ==> (#[trigger] polls@[k]).wf(),
            terms@ == distinct(gathered(lists.subrange(0, i as int))),
        decreases polls@.len() - i,
    {
        let poll = &polls[i];
        let ghost before = gathered(lists.subrange(0, i as int));
        let mut j: usize = 0;
        while j < poll.len()
            invariant
                j <= poll.terms().len(),
                poll.wf(),
                terms@ == distinct(before + poll.terms().subrange(0, j as int)),
            decreases poll.terms().len() - j,
        {
            let entry = poll.entry(j);
            proof {
                let grown = before + poll.terms().subrange(0, j + 1);
                assert(grown.drop_last() =~= before + poll.terms().subrange(0, j as int));
            }
            if position(&terms, entry.0).is_none() {
                terms.push(entry.0.clone());
            }
            j = j + 1;
        }
        proof {
            assert(poll.terms().subrange(0, j as int) =~= poll.terms());
            assert(lists.subrange(0, i + 1).drop_last() =~= lists.subrange(0, i as int));
        }
        i = i + 1;
    }
    assert(lists.subrange(0, i as int) =~= lists);
    let mut rows: Vec<Vec<u32>> = Vec::new();
    let mut r: usize = 0;
    while r < terms.len()
        invariant
            r <= terms@.len(),
            forall|k: int| 0 <= k < polls@.len() ==> (#[trigger] polls@[k]).wf(),
            rows@.len() == r,
            forall|q: int| 0 <= q < r ==> (#[trigger] rows@[q])@.len() == polls@.len(),
            forall|q: int, k: int|
                0 <= q < r && 0 <= k < polls@.len() ==> #[trigger] rows@[q]@[k] == polls@[k].count(
                    terms@[q],
                ),
        decreases terms@.len() - r,
    {
        let mut row: Vec<u32> = Vec::new();
        let mut k: usize = 0;
        while k < polls.len()
            invariant
                k <= polls@.len(),
                r < terms@.len(),
                forall|m: int| 0 <= m < polls@.len() ==> (#[trigger] polls@[m]).wf(),
                row@.len() == k,
                forall|m: int| 0 <= m < k ==> #[trigger] row@[m] == polls@[m].count(terms@[r as int]),
            decreases polls@.len() - k,
        {
            row.push(polls[k].get(&terms[r]));
            k = k + 1;
        }
        rows.push(row);
        r = r + 1;
    }
    let table = FrequencySeries { terms, rows };
    table
}

/// The first position at which `t` stands in `terms`.
fn position(terms: &Vec<Term>, t: &Term) -> (found: Option<usize>)
    ensures
        match found {
            Some(i) => i < terms@.len() && terms@[i as int] == *t && forall|j: int|
                0 <= j < i ==> terms@[j] != *t,
            None => !terms@.contains(*t),
        },
{
    let mut i: usize = 0;
    while i < terms.len()
        invariant
            i <= terms.len(),
            forall|j: int| 0 <= j < i ==> terms@[j] != *t,
        decreases terms.len() - i,
    {
        if terms[i].is_isomorphic_to(t) {
            return Some(i);
        }
        i = i + 1;
    }
    None
}

impl Soup {
    /// The different expressions of the population, each once, in the order
    /// in which they are first seen.
    pub fn unique_expressions(&self) -> (unique: Vec<Term>)
        ensures
            unique@ == distinct(self@.expressions),
    {
        let all = self.expressions();
        let mut unique: Vec<Term> = Vec::new();
        let mut i: usize = 0;
        while i < all.len()
            invariant
                i <= all.len(),
                unique@ == distinct(all@.subrange(0, i as int)),
            decreases all.len() - i,
        {
            assert(all@.subrange(0, i + 1).drop_last() =~= all@.subrange(0, i as int));
            if position(&unique, &all[i]).is_none() {
                unique.push(all[i].clone());
            }
            i = i + 1;
        }
        assert(all@.subrange(0, i as int) =~= all@);
        unique
    }

    /// The `k` most frequent expressions of the population, most frequent
    /// first; among expressions that are equally frequent, the one seen first
    /// comes first. Where the population has fewer than `k` different
    /// expressions, all of them are returned.
    pub fn k_most_frequent_exprs(&self, k: usize) -> (best: Vec<Term>)
        requires
            self@.expressions.len() <= u32::MAX,
        ensures
            best@.len() == if k <= distinct(self@.expressions).len() {
                k as nat
            } else {
                distinct(self@.expressions).len()
            },
            is_most_frequent(self@.expressions, best@),
    {
        let tally = self.expression_counts();
        let n_unique: usize = tally.len();
        let ghost counts = multiplicities(self@.expressions, distinct(self@.expressions));
        let mut order: Vec<usize> = Vec::new();
        let mut j: usize = 0;
        while j < n_unique
            invariant
                j <= n_unique,
                tally.counts_of(self@.expressions),
                n_unique == tally.terms().len(),
                counts == multiplicities(self@.expressions, distinct(self@.expressions)),
                order@.len() == if k <= j {
                    k
                } else {
                    j
                },
                ranks_first(counts, order@, j as int),
                order@.len() < k ==> holds_all_below(order@, j as int),
            decreases n_unique - j,
        {
            if k > 0 {
                let ghost before = order@;
                let count_j: u32 = tally.entry(j).1;
                let mut at: usize = 0;
                while at < order.len() && tally.entry(order[at]).1 >= count_j
                    invariant
                        at <= order@.len(),
                        j < n_unique,
                        tally.counts_of(self@.expressions),
                        n_unique == tally.terms().len(),
                        counts == multiplicities(self@.expressions, distinct(self@.expressions)),
                        count_j == counts[j as int],
                        ranks_first(counts, order@, j as int),
                        forall|p: int|
                            0 <= p < at ==> outranks(counts, (#[trigger] order@[p]) as int, j as int),
                    decreases order@.len() - at,
                {
                    at = at + 1;
                }
                if at < order.len() || order.len() < k {
                    order.insert(at, j);
                    proof {
                        lemma_rank_inserted(counts, before, at as int, j);
                    }
                    if order.len() > k {
                        let ghost full = order@;
                        order.pop();
                        proof {
                            lemma_rank_trimmed(counts, full, (j + 1) as int);
                        }
                    }
                }
            }
            j = j + 1;
        }
        let mut best: Vec<Term> = Vec::new();
        let mut p: usize = 0;
        while p < order.len()
            invariant
                p <= order@.len(),
                tally.counts_of(self@.expressions),
                forall|q: int| 0 <= q < order@.len() ==> (#[trigger] order@[q]) < tally.terms().len(),
                best@.len() == p,
                forall|q: int|
                    0 <= q < p ==> #[trigger] best@[q] == distinct(self@.expressions)[order@[q] as int],
            decreases order@.len() - p,
        {
            best.push(tally.entry(order[p]).0.clone());
            p = p + 1;
        }
        assert(best@ =~= ranked_terms(self@.expressions, order@));
        assert(is_top_ranking(counts, order@));
        best
    }

    /// The number of expressions that two populations share, counted with
    /// multiplicity. Divided by the sum of the two sizes it gives the index
    /// by which two populations are compared.
    pub fn shared_expressions(&self, other: &Soup) -> (shared: usize)
        requires
            self@.expressions.len() <= u32::MAX,
            other@.expressions.len() <= u32::MAX,
        ensures
            shared == shared_count(self@.expressions, other@.expressions),
    {
        let mine = self.expression_counts();
        let theirs = other.expression_counts();
        let ghost a = self@.expressions;
        let ghost b = other@.expressions;
        let n_unique: usize = mine.len();
        let mut total: u64 = 0;
        let mut i: usize = 0;
        proof {
            lemma_distinct(a);
        }
        while i < n_unique
            invariant
                i <= n_unique,
                n_unique == mine.terms().len(),
                n_unique <= u32::MAX,
                mine.counts_of(a),
                theirs.wf(),
                forall|t: Term| theirs.count(t) == occurrences(b, t),
                total == overlap_over(distinct(a).take(i as int), a, b),
                total <= i * 0xffff_ffff,
            decreases n_unique - i,
        {
            let entry = mine.entry(i);
            let there: u32 = theirs.get(entry.0);
            let both: u32 = if there <= entry.1 {
                there
            } else {
                entry.1
            };
            assert(distinct(a).take(i + 1).drop_last() =~= distinct(a).take(i as int));
            total = total + both as u64;
            i = i + 1;
        }
        proof {
            assert(distinct(a).take(i as int) =~= distinct(a));
            lemma_overlap_is_shared(a, b);
            lemma_shared_bounds(a, b);
        }
        total as usize
    }

    /// The multiplicity of every expression of the population.
    pub fn expression_counts(&self) -> (tally: ExpressionCounts)
        requires
            self@.expressions.len() <= u32::MAX,
        ensures
            tally.counts_of(self@.expressions),
            forall|t: Term| tally.count(t) == occurrences(self@.expressions, t),
    {
        let all = self.expressions();
        let mut terms: Vec<Term> = Vec::new();
        let mut counts: Vec<u32> = Vec::new();
        let mut i: usize = 0;
        while i < all.len()
            invariant
                i <= all.len(),
                all@.len() <= u32::MAX,
                terms@ == distinct(all@.subrange(0, i as int)),
                counts@.len() == terms@.len(),
                forall|k: int|
                    0 <= k < terms@.len() ==> #[trigger] counts@[k] == occurrences(
                        all@.subrange(0, i as int),
                        terms@[k],
                    ),
            decreases all.len() - i,
        {
            let ghost seen = all@.subrange(0, i as int);
            let ghost next = all@.subrange(0, i + 1);
            proof {
                assert(next.drop_last() =~= seen);
                assert(seen.push(all@[i as int]) =~= next);
                lemma_distinct(seen);
                assert forall|k: int| 0 <= k < terms@.len() implies occurrences(next, terms@[k])
                    == occurrences(seen, terms@[k]) + if all@[i as int] == terms@[k] {
                    1nat
                } else {
                    0nat
                } by {
                    lemma_occurrences_push(seen, all@[i as int], terms@[k]);
                }
                lemma_occurrences_push(seen, all@[i as int], all@[i as int]);
                lemma_occurrences_bound(next, all@[i as int]);
            }
            match position(&terms, &all[i]) {
                Some(at) => {
                    let bumped: u32 = counts[at] + 1;
                    counts.set(at, bumped);
                },
                None => {
                    terms.push(all[i].clone());
                    counts.push(1);
                },
            }
            i = i + 1;
        }
        assert(all@.subrange(0, i as int) =~= all@);
        let tally = ExpressionCounts { terms, counts };
        proof {
            lemma_distinct(all@);
            assert forall|t: Term| tally.count(t) == occurrences(self@.expressions, t) by {
                if tally.terms().contains(t) {
                    let at = tally.terms().index_of(t);
                }
            }
        }
        tally
    }
}

} // verus!
