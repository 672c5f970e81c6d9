//! The bounded reducer and the outcomes of a reaction.

use crate::term::{exceeds_size, is_closed, size_of};
use lambda_calculus::Term;
use vstd::prelude::*;

verus! {

/// Why a reaction did not take place. None of these is a crash: a driver
/// counts the reaction as not having occurred and goes on.
#[derive(Debug, Clone, Copy, PartialEq, Eq, Structural)]
pub enum ReactionError {
    ExceedsReductionLimit,
    NotEnoughExpressions,
    IsIdentity,
    IsParent,
    HasFreeVariables,
    ExceedsDepthLimit,
}

impl ReactionError {
    /// The sentence that describes the failure in a log line.
    pub fn message(&self) -> (text: &'static str)
        ensures
            text@ == match *self {
                ReactionError::IsIdentity => "collision result is identity function"@,
                ReactionError::IsParent => "collision result is isomorphic to parent"@,
                ReactionError::ExceedsReductionLimit => "collision exceeds reduction limit"@,
                ReactionError::NotEnoughExpressions => "not enough expressions for further reactions"@,
                ReactionError::HasFreeVariables => "collision result has free variables"@,
                ReactionError::ExceedsDepthLimit => "expression exceeds depth limit during reduction"@,
            },
    {
        match self {
            ReactionError::IsIdentity => "collision result is identity function",
            ReactionError::IsParent => "collision result is isomorphic to parent",
            ReactionError::ExceedsReductionLimit => "collision exceeds reduction limit",
            ReactionError::NotEnoughExpressions => "not enough expressions for further reactions",
            ReactionError::HasFreeVariables => "collision result has free variables",
            ReactionError::ExceedsDepthLimit => "expression exceeds depth limit during reduction",
        }
    }
}

/// What one call of `Term::reduce` with the order `HAP` and a limit of one
/// makes of a term: the term it leaves behind, and the number of reductions it
/// reports.
pub uninterp spec fn hap_step(t: Term) -> (Term, nat);

/// The term that a single step leaves behind.
pub open spec fn step_term(t: Term) -> Term {
    hap_step(t).0
}

/// Whether a single step found a redex and contracted it.
pub open spec fn step_reduces(t: Term) -> bool {
    hap_step(t).1 != 0
}

/// `Term::reduce(HAP, 1)` of `lambda_calculus` contracts at most one redex of
/// the term, picked by the hybrid applicative order, and returns how many it
/// contracted. The result is named, not spelled out. Beside the name stand two
/// facts: the count respects the limit of one, and contracting a redex of a
/// closed term leaves a closed term. The call is kept to closed terms, on which
/// the index arithmetic of the substitution stays within the nesting depth.
#[verifier::external_body]
fn reduce_once(t: &mut Term) -> (steps: usize)
    requires
        is_closed(*old(t)),
    ensures
        (*final(t), steps as nat) == hap_step(*old(t)),
        steps <= 1,
        is_closed(*final(t)),
{
    t.reduce(lambda_calculus::HAP, 1)
}

/// The reducer as a function: starting from `t` with `done` steps behind it,
/// the term it stops at and how it ends.
///
/// A step that contracts nothing ends the run with the steps counted so far. A
/// step that leaves a term of more than `slimit` nodes ends it with
/// `ExceedsDepthLimit`. A run that spends all `rlimit` steps without meeting a
/// step that contracts nothing ends with `ExceedsReductionLimit`.
pub open spec fn reduce_from(t: Term, done: nat, rlimit: nat, slimit: nat) -> (
    Term,
    Result<nat, ReactionError>,
)
    decreases rlimit - done,
{
    if done >= rlimit {
        (t, Err(ReactionError::ExceedsReductionLimit))
    } else if !step_reduces(t) {
        (step_term(t), Ok(done))
    } else if size_of(step_term(t)) > slimit {
        (step_term(t), Err(ReactionError::ExceedsDepthLimit))
    } else {
        reduce_from(step_term(t), done + 1, rlimit, slimit)
    }
}

/// The term the bounded reducer leaves in place of `t`.
pub open spec fn reduced_term(t: Term, rlimit: nat, slimit: nat) -> Term {
    reduce_from(t, 0, rlimit, slimit).0
}

/// How the bounded reducer ends on `t`: the number of steps taken, or the cap
/// that stopped it.
pub open spec fn reduce_outcome(t: Term, rlimit: nat, slimit: nat) -> Result<nat, ReactionError> {
    reduce_from(t, 0, rlimit, slimit).1
}

/// The term after `k` single steps.
pub open spec fn stepped(t: Term, k: nat) -> Term
    decreases k,
{
    if k == 0 {
        t
    } else {
        step_term(stepped(t, (k - 1) as nat))
    }
}

/// Whether the step with the number `i`, counted from zero, contracts a redex
/// and leaves a term of at most `slimit` nodes.
pub open spec fn step_stays(t: Term, i: nat, slimit: nat) -> bool {
    step_reduces(stepped(t, i)) && size_of(stepped(t, i + 1)) <= slimit
}

/// Whether each of the first `k` steps from `t` contracts a redex and leaves
/// a term of at most `slimit` nodes.
pub open spec fn runs_for(t: Term, k: nat, slimit: nat) -> bool {
    forall|i: nat| i < k ==> #[trigger] step_stays(t, i, slimit)
}

/// The reducer from the middle of a run: with `done` steps from `start`
/// behind it, it ends as the reducer from `start` does.
proof fn lemma_reduce_from(start: Term, done: nat, rlimit: nat, slimit: nat)
    requires
        done <= rlimit,
        runs_for(start, done, slimit),
    ensures
        match reduce_from(stepped(start, done), done, rlimit, slimit).1 {
            Ok(n) => {
                &&& done <= n < rlimit
                &&& runs_for(start, n, slimit)
                &&& !step_reduces(stepped(start, n))
                &&& reduce_from(stepped(start, done), done, rlimit, slimit).0 == stepped(
                    start,
                    n + 1,
                )
            },
            Err(ReactionError::ExceedsDepthLimit) => exists|k: nat|
                {
                    &&& k < rlimit
                    &&& runs_for(start, k, slimit)
                    &&& step_reduces(stepped(start, k))
                    &&& size_of(#[trigger] stepped(start, k + 1)) > slimit
                    &&& reduce_from(stepped(start, done), done, rlimit, slimit).0 == stepped(
                        start,
                        k + 1,
                    )
                },
            Err(ReactionError::ExceedsReductionLimit) => {
                &&& runs_for(start, rlimit, slimit)
                &&& reduce_from(stepped(start, done), done, rlimit, slimit).0 == stepped(
                    start,
                    rlimit,
                )
            },
            Err(_) => false,
        },
    decreases rlimit - done,
{
    let here = stepped(start, done);
    assert(stepped(start, done + 1) == step_term(here));
    if done < rlimit && step_reduces(here) {
        if size_of(step_term(here)) > slimit {
            assert(size_of(stepped(start, done + 1)) > slimit);
        } else {
            assert forall|i: nat| i < done + 1 implies #[trigger] step_stays(start, i, slimit) by {
                if i < done {
                    assert(step_stays(start, i, slimit));
                }
            }
            lemma_reduce_from(start, done + 1, rlimit, slimit);
        }
    }
}

/// How the bounded reducer ends, said of the single steps.
///
/// It returns `n` where the first `n` steps contract a redex and stay within
/// the size limit, `n` is below the step limit, and the step after them
/// contracts nothing. It fails with `ExceedsDepthLimit` where, after steps
/// that contract and stay within the size limit, a step within the step limit
/// contracts and leaves a term beyond the size limit. It fails with
/// `ExceedsReductionLimit` where all steps up to the step limit contract and
/// stay within the size limit. The term it leaves is the term after the last
/// step it made.
pub proof fn lemma_reduce_outcome(t: Term, rlimit: nat, slimit: nat)
    ensures
        match reduce_outcome(t, rlimit, slimit) {
            Ok(n) => {
                &&& n < rlimit
                &&& runs_for(t, n, slimit)
                &&& !step_reduces(stepped(t, n))
                &&& reduced_term(t, rlimit, slimit) == stepped(t, n + 1)
            },
            Err(ReactionError::ExceedsDepthLimit) => exists|k: nat|
                {
                    &&& k < rlimit
                    &&& runs_for(t, k, slimit)
                    &&& step_reduces(stepped(t, k))
                    &&& size_of(#[trigger] stepped(t, k + 1)) > slimit
                    &&& reduced_term(t, rlimit, slimit) == stepped(t, k + 1)
                },
            Err(ReactionError::ExceedsReductionLimit) => {
                &&& runs_for(t, rlimit, slimit)
                &&& reduced_term(t, rlimit, slimit) == stepped(t, rlimit)
            },
            Err(_) => false,
        },
{
    lemma_reduce_from(t, 0, rlimit, slimit);
}

/// Reduces a closed term in place, one step of the hybrid applicative order at
/// a time, for at most `rlimit` steps. Returns the number of steps taken when a
/// step finds nothing left to contract; fails with `ExceedsDepthLimit` as soon
/// as a step leaves more than `slimit` nodes, and with `ExceedsReductionLimit`
/// when every one of the `rlimit` steps contracted a redex.
pub fn reduce_with_limit(expr: &mut Term, rlimit: usize, slimit: usize) -> (outcome: Result<
    usize,
    ReactionError,
>)
    requires
        is_closed(*old(expr)),
    ensures
        *final(expr) == reduced_term(*old(expr), rlimit as nat, slimit as nat),
        is_closed(*final(expr)),
        match outcome {
            Ok(n) => reduce_outcome(*old(expr), rlimit as nat, slimit as nat) == Ok::<
                nat,
                ReactionError,
            >(n as nat) && n < rlimit,
            Err(e) => reduce_outcome(*old(expr), rlimit as nat, slimit as nat) == Err::<
                nat,
                ReactionError,
            >(e),
        },
{
    let mut n: usize = 0;
    while n < rlimit
        invariant
            n <= rlimit,
            is_closed(*expr),
            reduce_from(*expr, n as nat, rlimit as nat, slimit as nat) == reduce_from(
                *old(expr),
                0,
                rlimit as nat,
                slimit as nat,
            ),
        decreases rlimit - n,
    {
        let steps: usize = reduce_once(expr);
        if steps == 0 {
            return Ok(n);
        }
        if exceeds_size(expr, slimit) {
            return Err(ReactionError::ExceedsDepthLimit);
        }
        n = n + 1;
    }
    Err(ReactionError::ExceedsReductionLimit)
}

} // verus!
