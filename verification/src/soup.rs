//! The reactor: a population of lambda terms, the rules that combine them, and
//! the seeded randomness that picks who meets whom.

use crate::config::Reactor;
use crate::reaction::{reduce_outcome, reduce_with_limit, reduced_term, ReactionError};
use crate::rng::{drawn, pos_after, ReactorRng};
use crate::term::{
    apply_left_to_right, application_rule, binary_combinator, candidate_of, classic_parse,
    depth_of, capped, has_free_under, identity, identity_term, is_binary_combinator, is_closed,
    parse_classic, term_depth,
};
use lambda_calculus::Term;
use vstd::prelude::*;

verus! {

/// Why a configuration makes no reactor.
#[derive(Debug, Clone, Copy, PartialEq, Eq, Structural)]
pub enum ConfigError {
    /// The rule at this position is not a lambda expression.
    UnparsableRule(usize),
    /// The reduction cutoff is zero.
    ZeroReductionCutoff,
    /// The size cutoff is zero.
    ZeroSizeCutoff,
    /// There is no rule at all.
    NoRules,
    /// The rule at this position is not a closed combinator of two arguments.
    NotACombinator(usize),
}

/// A reactor as a mathematical value.
pub struct SoupState {
    /// The population, in the order in which the reactor holds it.
    pub expressions: Seq<Term>,
    /// The number of collisions attempted so far.
    pub n_collisions: nat,
    /// The reaction rules, in the order in which they are applied.
    pub rules: Seq<Term>,
    /// The number of reduction steps at which a collision is given up.
    pub reduction_limit: nat,
    /// The largest number of nodes an expression may have during reduction.
    pub size_limit: nat,
    pub maintain_constant_population_size: bool,
    pub discard_copy_actions: bool,
    pub discard_identity: bool,
    pub discard_free_variable_expressions: bool,
    pub discard_parents: bool,
    /// The seed of the random stream.
    pub seed: Seq<u8>,
    /// The number of words of the stream consumed so far.
    pub pos: nat,
}

/// Whether every term of a sequence is closed.
pub open spec fn all_closed(terms: Seq<Term>) -> bool {
    forall|i: int| 0 <= i < terms.len() ==> is_closed(#[trigger] terms[i])
}

/// Whether every term of a sequence is a closed combinator of two arguments.
pub open spec fn all_combinators(terms: Seq<Term>) -> bool {
    forall|i: int| 0 <= i < terms.len() ==> is_binary_combinator(#[trigger] terms[i])
}

/// The closed terms of a sequence, in their order.
pub open spec fn closed_only(terms: Seq<Term>) -> Seq<Term>
    decreases terms.len(),
{
    if terms.len() == 0 {
        Seq::empty()
    } else if is_closed(terms.last()) {
        closed_only(terms.drop_last()).push(terms.last())
    } else {
        closed_only(terms.drop_last())
    }
}

/// A sequence after the term at `at` was removed by moving the last term into
/// its place.
pub open spec fn swap_removed(terms: Seq<Term>, at: int) -> Seq<Term> {
    terms.update(at, terms.last()).drop_last()
}

/// A population after `count` terms were removed from it one by one, each at
/// an index drawn uniformly from the stream `seed` at `pos`; and the position
/// of the stream afterwards.
pub open spec fn thinned(terms: Seq<Term>, seed: Seq<u8>, pos: nat, count: nat) -> (
    Seq<Term>,
    nat,
)
    decreases count,
{
    if count == 0 {
        (terms, pos)
    } else {
        thinned(
            swap_removed(terms, drawn(seed, pos, terms.len()) as int),
            seed,
            pos_after(seed, pos, terms.len()),
            (count - 1) as nat,
        )
    }
}

/// What is recorded of one collision that gave a product.
#[derive(Debug, Clone, Copy, PartialEq, Eq, Structural)]
pub struct CollisionResult {
    /// The abstraction depth of the product, capped at `u32::MAX`.
    pub size: u32,
    /// The number of reduction steps that led to the product.
    pub reductions: usize,
}

/// What is recorded of a reaction in which every rule gave a product.
#[derive(Debug)]
pub struct ReactionResult {
    /// One record for each rule, in the order of the rules.
    pub collision_results: Vec<CollisionResult>,
    /// The abstraction depth of the left parent, capped at `u32::MAX`.
    pub left_size: u32,
    /// The abstraction depth of the right parent, capped at `u32::MAX`.
    pub right_size: u32,
}

/// A [`ReactionResult`] as a mathematical value.
pub struct ReactionRecord {
    pub collisions: Seq<CollisionResult>,
    pub left_size: u32,
    pub right_size: u32,
}

impl View for ReactionResult {
    type V = ReactionRecord;

    open spec fn view(&self) -> ReactionRecord {
        ReactionRecord {
            collisions: self.collision_results@,
            left_size: self.left_size,
            right_size: self.right_size,
        }
    }
}

/// The abstraction depth of a term as it is recorded.
pub open spec fn recorded_depth(t: Term) -> u32 {
    capped(depth_of(t), u32::MAX as nat) as u32
}

/// The number of polls during `n` reactions: one after each reaction whose
/// index, counted from zero, is a multiple of `interval`.
pub open spec fn polls(n: nat, interval: nat) -> nat {
    if n == 0 {
        0
    } else {
        ((n - 1) / (interval as int) + 1) as nat
    }
}

/// The position of the first term from `from` on that is no closed combinator
/// of two arguments, if there is one.
pub open spec fn first_misfit(rules: Seq<Term>, from: nat) -> Option<nat>
    decreases rules.len() - from,
{
    if from >= rules.len() {
        None
    } else if !is_binary_combinator(rules[from as int]) {
        Some(from)
    } else {
        first_misfit(rules, from + 1)
    }
}

/// The position of the first text from `from` on that does not parse, if there
/// is one.
pub open spec fn first_unparsable(texts: Seq<String>, from: nat) -> Option<nat>
    decreases texts.len() - from,
{
    if from >= texts.len() {
        None
    } else if classic_parse(texts[from as int]@) is Err {
        Some(from)
    } else {
        first_unparsable(texts, from + 1)
    }
}

/// The terms that a sequence of texts denotes, where all of them parse.
pub open spec fn parsed_rules(texts: Seq<String>) -> Seq<Term> {
    Seq::new(texts.len(), |i: int| classic_parse(texts[i]@)->Ok_0)
}

/// What is wrong with a set of rules and cutoffs, if anything: a zero
/// reduction cutoff, else a zero size cutoff, else an empty rule list, else
/// the first rule that is no closed combinator of two arguments.
pub open spec fn settings_fault(cfg: Reactor, rules: Seq<Term>) -> Option<ConfigError> {
    if cfg.reduction_cutoff == 0 {
        Some(ConfigError::ZeroReductionCutoff)
    } else if cfg.size_cutoff == 0 {
        Some(ConfigError::ZeroSizeCutoff)
    } else if rules.len() == 0 {
        Some(ConfigError::NoRules)
    } else if let Some(at) = first_misfit(rules, 0) {
        Some(ConfigError::NotACombinator(at as usize))
    } else {
        None
    }
}

/// What is wrong with a configuration, if anything: the first rule that does
/// not parse, else what is wrong with its cutoffs and parsed rules.
pub open spec fn config_fault(cfg: Reactor) -> Option<ConfigError> {
    if let Some(at) = first_unparsable(cfg.rules@, 0) {
        Some(ConfigError::UnparsableRule(at as usize))
    } else {
        settings_fault(cfg, parsed_rules(cfg.rules@))
    }
}

/// The empty reactor that a configuration, its parsed rules and a seed make.
pub open spec fn initial_state(cfg: Reactor, rules: Seq<Term>, seed: Seq<u8>) -> SoupState {
    SoupState {
        expressions: Seq::empty(),
        n_collisions: 0,
        rules,
        reduction_limit: cfg.reduction_cutoff as nat,
        size_limit: cfg.size_cutoff as nat,
        maintain_constant_population_size: cfg.maintain_constant_population_size,
        discard_copy_actions: cfg.discard_copy_actions,
        discard_identity: cfg.discard_identity,
        discard_free_variable_expressions: cfg.discard_free_variable_expressions,
        discard_parents: cfg.discard_parents,
        seed,
        pos: 0,
    }
}

impl SoupState {
    /// What holds of every reactor: there is a rule, every rule is a closed
    /// combinator of two arguments, both limits are positive, and every
    /// expression of the population is closed.
    pub open spec fn wf(self) -> bool {
        &&& self.rules.len() > 0
        &&& all_combinators(self.rules)
        &&& self.reduction_limit > 0
        &&& self.size_limit > 0
        &&& all_closed(self.expressions)
    }

    /// The verdict of the filters on a product, in their fixed order: identity
    /// before parent before free variables. `None` lets the product pass.
    pub open spec fn screen(self, product: Term, left: Term, right: Term) -> Option<
        ReactionError,
    > {
        if self.discard_identity && product == identity_term() {
            Some(ReactionError::IsIdentity)
        } else if self.discard_copy_actions && (product == left || product == right) {
            Some(ReactionError::IsParent)
        } else if self.discard_free_variable_expressions && has_free_under(product, 0) {
            Some(ReactionError::HasFreeVariables)
        } else {
            None
        }
    }

    /// One collision: `(rule left) right` is reduced under the two limits,
    /// and what comes out is put to the filters. Gives the product with the
    /// number of reduction steps, or the first reason against it.
    pub open spec fn collide(self, rule: Term, left: Term, right: Term) -> Result<
        (Term, nat),
        ReactionError,
    > {
        let candidate = candidate_of(rule, left, right);
        let product = reduced_term(candidate, self.reduction_limit, self.size_limit);
        match reduce_outcome(candidate, self.reduction_limit, self.size_limit) {
            Err(e) => Err(e),
            Ok(steps) => match self.screen(product, left, right) {
                Some(e) => Err(e),
                None => Ok((product, steps)),
            },
        }
    }

    /// The index at which the left parent is drawn.
    pub open spec fn left_index(self) -> int {
        drawn(self.seed, self.pos, self.expressions.len()) as int
    }

    /// The left parent of the next reaction.
    pub open spec fn left(self) -> Term {
        self.expressions[self.left_index()]
    }

    /// The population once the left parent has left it.
    pub open spec fn without_left(self) -> Seq<Term> {
        swap_removed(self.expressions, self.left_index())
    }

    /// The position of the stream once the left parent is drawn.
    pub open spec fn pos_after_left(self) -> nat {
        pos_after(self.seed, self.pos, self.expressions.len())
    }

    /// The index at which the right parent is drawn, among those that are
    /// left when the left parent is gone.
    pub open spec fn right_index(self) -> int {
        drawn(self.seed, self.pos_after_left(), (self.expressions.len() - 1) as nat) as int
    }

    /// The right parent of the next reaction.
    pub open spec fn right(self) -> Term {
        self.without_left()[self.right_index()]
    }

    /// The population once both parents have left it.
    pub open spec fn without_parents(self) -> Seq<Term> {
        swap_removed(self.without_left(), self.right_index())
    }

    /// The position of the stream once both parents are drawn.
    pub open spec fn pos_after_parents(self) -> nat {
        pos_after(self.seed, self.pos_after_left(), (self.expressions.len() - 1) as nat)
    }

    /// The collision of the next reaction's parents under the rule at `k`.
    pub open spec fn collision(self, k: int) -> Result<(Term, nat), ReactionError> {
        self.collide(self.rules[k], self.left(), self.right())
    }

    /// The position of the first rule from `from` on whose collision is
    /// rejected, if there is one.
    pub open spec fn first_rejection(self, from: nat) -> Option<nat>
        decreases self.rules.len() - from,
    {
        if from >= self.rules.len() {
            None
        } else if self.collision(from as int) is Err {
            Some(from)
        } else {
            self.first_rejection(from + 1)
        }
    }

    /// The products of the next reaction, one for each rule, where no
    /// collision is rejected.
    pub open spec fn products(self) -> Seq<Term> {
        Seq::new(self.rules.len(), |k: int| self.collision(k)->Ok_0.0)
    }

    /// What is recorded of the next reaction's collisions, where none is
    /// rejected.
    pub open spec fn collision_records(self) -> Seq<CollisionResult> {
        Seq::new(
            self.rules.len(),
            |k: int|
                CollisionResult {
                    size: recorded_depth(self.collision(k)->Ok_0.0),
                    reductions: self.collision(k)->Ok_0.1 as usize,
                },
        )
    }

    /// A population with the parents put back at its end, unless parents are
    /// discarded.
    pub open spec fn with_parents_back(self, pool: Seq<Term>) -> Seq<Term> {
        if self.discard_parents {
            pool
        } else {
            pool.push(self.left()).push(self.right())
        }
    }

    /// The population after a reaction in which every rule gave a product,
    /// before any of it is removed to keep the size.
    pub open spec fn grown(self) -> Seq<Term> {
        self.with_parents_back(self.without_parents() + self.products())
    }

    /// The reactor after one reaction was attempted.
    ///
    /// With fewer than two expressions nothing changes. Otherwise two parents
    /// are drawn without replacement and every rule is applied to them in
    /// order. At the first rejection the products so far are dropped and the
    /// parents go back unless they are discarded. Where no rule is rejected,
    /// all products join the population, the parents go back unless they are
    /// discarded, and, where the size is kept constant, as many expressions as
    /// there are rules are removed at random. The counter advances by one for
    /// each collision attempted.
    pub open spec fn reacted(self) -> SoupState {
        if self.expressions.len() < 2 {
            self
        } else if let Some(k) = self.first_rejection(0) {
            SoupState {
                expressions: self.with_parents_back(self.without_parents()),
                n_collisions: self.n_collisions + k + 1,
                pos: self.pos_after_parents(),
                ..self
            }
        } else if self.maintain_constant_population_size {
            let kept = thinned(self.grown(), self.seed, self.pos_after_parents(), self.rules.len());
            SoupState {
                expressions: kept.0,
                n_collisions: self.n_collisions + self.rules.len(),
                pos: kept.1,
                ..self
            }
        } else {
            SoupState {
                expressions: self.grown(),
                n_collisions: self.n_collisions + self.rules.len(),
                pos: self.pos_after_parents(),
                ..self
            }
        }
    }

    /// What is reported of the next reaction: the record of its collisions
    /// and its parents, or the reason why it did not take place.
    pub open spec fn reaction(self) -> Result<ReactionRecord, ReactionError> {
        if self.expressions.len() < 2 {
            Err(ReactionError::NotEnoughExpressions)
        } else if let Some(k) = self.first_rejection(0) {
            Err(self.collision(k as int)->Err_0)
        } else {
            Ok(
                ReactionRecord {
                    collisions: self.collision_records(),
                    left_size: recorded_depth(self.left()),
                    right_size: recorded_depth(self.right()),
                },
            )
        }
    }

    /// The reactor after `n` reactions were attempted.
    pub open spec fn after(self, n: nat) -> SoupState
        decreases n,
    {
        if n == 0 {
            self
        } else {
            self.after((n - 1) as nat).reacted()
        }
    }

    /// How many of the next `n` reactions take place.
    pub open spec fn successes(self, n: nat) -> nat
        decreases n,
    {
        if n == 0 {
            0
        } else if self.after((n - 1) as nat).reaction() is Ok {
            self.successes((n - 1) as nat) + 1
        } else {
            self.successes((n - 1) as nat)
        }
    }

    /// What the reactor looks like at the poll with the number `j`, counted
    /// from zero: the poll follows the reaction with the index `j * interval`.
    pub open spec fn at_poll(self, j: int, interval: nat) -> SoupState {
        self.after((j * interval + 1) as nat)
    }

    /// The reactor after each batch of `batches` was offered to it in turn.
    pub open spec fn perturbed_by(self, batches: Seq<Seq<Term>>) -> SoupState
        decreases batches.len(),
    {
        if batches.len() == 0 {
            self
        } else {
            self.perturbed_by(batches.drop_last()).perturbed(batches.last())
        }
    }

    /// The reactor after `terms` were offered to it: the closed ones joined
    /// the population, the others were turned away.
    pub open spec fn perturbed(self, terms: Seq<Term>) -> SoupState {
        SoupState { expressions: self.expressions + closed_only(terms), ..self }
    }
}

/// The principal object: a set of lambda expressions, and the rules for
/// composing and filtering them.
#[derive(Debug)]
pub struct Soup {
    expressions: Vec<Term>,
    n_collisions: usize,
    reaction_rules: Vec<Term>,
    reduction_limit: usize,
    size_limit: usize,
    maintain_constant_population_size: bool,
    discard_copy_actions: bool,
    discard_identity: bool,
    discard_free_variable_expressions: bool,
    discard_parents: bool,
    rng: ReactorRng,
}

impl View for Soup {
    type V = SoupState;

    closed spec fn view(&self) -> SoupState {
        SoupState {
            expressions: self.expressions@,
            n_collisions: self.n_collisions as nat,
            rules: self.reaction_rules@,
            reduction_limit: self.reduction_limit as nat,
            size_limit: self.size_limit as nat,
            maintain_constant_population_size: self.maintain_constant_population_size,
            discard_copy_actions: self.discard_copy_actions,
            discard_identity: self.discard_identity,
            discard_free_variable_expressions: self.discard_free_variable_expressions,
            discard_parents: self.discard_parents,
            seed: self.rng.seed(),
            pos: self.rng.pos(),
        }
    }
}

impl Clone for Soup {
    /// An independent copy: what happens to either afterwards leaves the
    /// other as it was.
    fn clone(&self) -> (copy: Self)
        ensures
            copy@ == self@,
    {
        let expressions = self.expressions.clone();
        let reaction_rules = self.reaction_rules.clone();
        Soup {
            expressions,
            n_collisions: self.n_collisions,
            reaction_rules,
            reduction_limit: self.reduction_limit,
            size_limit: self.size_limit,
            maintain_constant_population_size: self.maintain_constant_population_size,
            discard_copy_actions: self.discard_copy_actions,
            discard_identity: self.discard_identity,
            discard_free_variable_expressions: self.discard_free_variable_expressions,
            discard_parents: self.discard_parents,
            rng: self.rng,
        }
    }
}

impl Soup {
    /// An empty reactor with the default settings and a seed that nobody can
    /// predict.
    pub fn new() -> (soup: Self)
        ensures
            soup@.wf(),
            soup@.expressions.len() == 0,
            soup@.n_collisions == 0,
            soup@.rules == seq![application_rule()],
            soup@.reduction_limit == 500,
            soup@.size_limit == 500,
            soup@.maintain_constant_population_size,
            soup@.discard_copy_actions,
            soup@.discard_identity,
            soup@.discard_free_variable_expressions,
            !soup@.discard_parents,
            soup@.pos == 0,
    {
        let cfg = Reactor::new();
        let mut rules: Vec<Term> = Vec::new();
        rules.push(apply_left_to_right());
        Soup {
            expressions: Vec::new(),
            n_collisions: 0,
            reaction_rules: rules,
            reduction_limit: cfg.reduction_cutoff,
            size_limit: cfg.size_cutoff,
            maintain_constant_population_size: cfg.maintain_constant_population_size,
            discard_copy_actions: cfg.discard_copy_actions,
            discard_identity: cfg.discard_identity,
            discard_free_variable_expressions: cfg.discard_free_variable_expressions,
            discard_parents: cfg.discard_parents,
            rng: ReactorRng::from_seed(cfg.seed.get()),
        }
    }

    /// Makes an empty reactor from settings, rules that are already terms, and
    /// a seed. The rule texts of `cfg` are not read.
    pub fn with_rules(cfg: &Reactor, rules: Vec<Term>, seed: [u8; 32]) -> (made: Result<
        Self,
        ConfigError,
    >)
        ensures
            match made {
                Ok(soup) => settings_fault(*cfg, rules@) is None && soup@ == initial_state(
                    *cfg,
                    rules@,
                    seed@,
                ) && soup@.wf(),
                Err(fault) => settings_fault(*cfg, rules@) == Some(fault),
            },
    {
        if cfg.reduction_cutoff == 0 {
            return Err(ConfigError::ZeroReductionCutoff);
        }
        if cfg.size_cutoff == 0 {
            return Err(ConfigError::ZeroSizeCutoff);
        }
        if rules.len() == 0 {
            return Err(ConfigError::NoRules);
        }
        let mut at: usize = 0;
        while at < rules.len()
            invariant
                at <= rules.len(),
                cfg.reduction_cutoff != 0,
                cfg.size_cutoff != 0,
                first_misfit(rules@, at as nat) == first_misfit(rules@, 0),
                forall|i: int| 0 <= i < at ==> is_binary_combinator(#[trigger] rules@[i]),
            decreases rules.len() - at,
        {
            if !binary_combinator(&rules[at]) {
                return Err(ConfigError::NotACombinator(at));
            }
            at = at + 1;
        }
        Ok(
            Soup {
                expressions: Vec::new(),
                n_collisions: 0,
                reaction_rules: rules,
                reduction_limit: cfg.reduction_cutoff,
                size_limit: cfg.size_cutoff,
                maintain_constant_population_size: cfg.maintain_constant_population_size,
                discard_copy_actions: cfg.discard_copy_actions,
                discard_identity: cfg.discard_identity,
                discard_free_variable_expressions: cfg.discard_free_variable_expressions,
                discard_parents: cfg.discard_parents,
                rng: ReactorRng::from_seed(seed),
            },
        )
    }

    /// Makes an empty reactor from a configuration: parses its rules, checks
    /// them and the cutoffs, and seeds the random stream. Where the
    /// configuration names no seed, one is taken from the operating system.
    pub fn from_config(cfg: &Reactor) -> (made: Result<Self, ConfigError>)
        ensures
            match made {
                Ok(soup) => {
                    &&& config_fault(*cfg) is None
                    &&& soup@.wf()
                    &&& soup@ == initial_state(*cfg, parsed_rules(cfg.rules@), soup@.seed)
                    &&& cfg.seed.0 matches Some(seed) ==> soup@.seed == seed@
                },
                Err(fault) => config_fault(*cfg) == Some(fault),
            },
    {
        let mut rules: Vec<Term> = Vec::new();
        let mut at: usize = 0;
        while at < cfg.rules.len()
            invariant
                at <= cfg.rules.len(),
                rules@.len() == at,
                first_unparsable(cfg.rules@, at as nat) == first_unparsable(cfg.rules@, 0),
                forall|i: int|
                    0 <= i < at ==> classic_parse(cfg.rules@[i]@) == Ok::<
                        Term,
                        lambda_calculus::parser::ParseError,
                    >(#[trigger] rules@[i]),
            decreases cfg.rules.len() - at,
        {
            match parse_classic(cfg.rules[at].as_str()) {
                Ok(rule) => {
                    rules.push(rule);
                },
                Err(_) => {
                    return Err(ConfigError::UnparsableRule(at));
                },
            }
            at = at + 1;
        }
        assert(rules@ =~= parsed_rules(cfg.rules@));
        Soup::with_rules(cfg, rules, cfg.seed.get())
    }

    /// Sets the number of reduction steps at which a collision is given up.
    pub fn set_limit(&mut self, limit: usize)
        requires
            limit > 0,
        ensures
            final(self)@ == (SoupState { reduction_limit: limit as nat, ..old(self)@ }),
    {
        self.reduction_limit = limit;
    }

    /// Offers expressions to the reactor, without reducing them. The closed
    /// ones join the population in their order; the others are turned away.
    pub fn perturb(&mut self, expressions: Vec<Term>)
        ensures
            final(self)@ == old(self)@.perturbed(expressions@),
            old(self)@.wf() ==> final(self)@.wf(),
    {
        let mut at: usize = 0;
        while at < expressions.len()
            invariant
                at <= expressions.len(),
                self@ == old(self)@.perturbed(expressions@.subrange(0, at as int)),
                old(self)@.wf() ==> self@.wf(),
            decreases expressions.len() - at,
        {
            assert(expressions@.subrange(0, at + 1).drop_last() =~= expressions@.subrange(
                0,
                at as int,
            ));
            if !expressions[at].has_free_variables() {
                self.expressions.push(expressions[at].clone());
            }
            at = at + 1;
        }
        assert(expressions@.subrange(0, at as int) =~= expressions@);
    }

    /// Puts a product to the filters, in their fixed order: a product
    /// isomorphic to the identity is rejected first, then one isomorphic to a
    /// parent, then one with free variables, each only where the reactor is
    /// set to discard it.
    pub fn screen(&self, product: &Term, left: &Term, right: &Term) -> (verdict: Option<
        ReactionError,
    >)
        ensures
            verdict == self@.screen(*product, *left, *right),
    {
        let same_as_identity = product.is_isomorphic_to(&identity());
        if same_as_identity && self.discard_identity {
            return Some(ReactionError::IsIdentity);
        }
        let is_copy_action = product.is_isomorphic_to(left) || product.is_isomorphic_to(right);
        if is_copy_action && self.discard_copy_actions {
            return Some(ReactionError::IsParent);
        }
        if product.has_free_variables() && self.discard_free_variable_expressions {
            return Some(ReactionError::HasFreeVariables);
        }
        None
    }

    /// Collides two parents under a rule: reduces `(rule left) right` within
    /// the reactor's limits and puts the result to the filters. Returns the
    /// product and the number of reduction steps, or the first reason against
    /// the product.
    pub fn collide(&self, rule: &Term, left: &Term, right: &Term) -> (outcome: Result<
        (Term, usize),
        ReactionError,
    >)
        requires
            is_closed(*rule),
            is_closed(*left),
            is_closed(*right),
        ensures
            match outcome {
                Ok(found) => self@.collide(*rule, *left, *right) == Ok::<
                    (Term, nat),
                    ReactionError,
                >((found.0, found.1 as nat)) && is_closed(found.0),
                Err(e) => self@.collide(*rule, *left, *right) == Err::<(Term, nat), ReactionError>(
                    e,
                ),
            },
    {
        let mut expr = lambda_calculus::term::app(
            lambda_calculus::term::app(rule.clone(), left.clone()),
            right.clone(),
        );
        assert(is_closed(expr)) by {
            reveal_with_fuel(has_free_under, 3);
        }
        let steps = match reduce_with_limit(&mut expr, self.reduction_limit, self.size_limit) {
            Ok(n) => n,
            Err(e) => {
                return Err(e);
            },
        };
        match self.screen(&expr, left, right) {
            Some(e) => Err(e),
            None => Ok((expr, steps)),
        }
    }

    /// Attempts one reaction.
    ///
    /// Draws two parents without replacement, collides them under every rule
    /// in order, and stops at the first rejection. Where every rule gives a
    /// product, the products join the population. The parents return to it
    /// unless parents are discarded. Where the population is held constant, a
    /// full reaction is followed by the removal of as many expressions, drawn
    /// at random, as there are rules.
    pub fn react(&mut self) -> (outcome: Result<ReactionResult, ReactionError>)
        requires
            old(self)@.wf(),
            old(self)@.n_collisions + old(self)@.rules.len() <= usize::MAX,
        ensures
            final(self)@ == old(self)@.reacted(),
            final(self)@.wf(),
            match outcome {
                Ok(report) => old(self)@.reaction() == Ok::<ReactionRecord, ReactionError>(
                    report@,
                ),
                Err(e) => old(self)@.reaction() == Err::<ReactionRecord, ReactionError>(e),
            },
    {
        let n_expr: usize = self.expressions.len();
        if n_expr < 2 {
            return Err(ReactionError::NotEnoughExpressions);
        }
        let ghost before = self@;
        let i: usize = self.rng.below(n_expr);
        let left = self.expressions.swap_remove(i);
        let left_size: u32 = term_depth(&left);
        let j: usize = self.rng.below(n_expr - 1);
        let right = self.expressions.swap_remove(j);
        let right_size: u32 = term_depth(&right);

        let n_rules: usize = self.reaction_rules.len();
        let mut products: Vec<Term> = Vec::new();
        let mut collision_results: Vec<CollisionResult> = Vec::new();
        let mut k: usize = 0;
        while k < n_rules
            invariant
                k <= n_rules,
                n_rules == self.reaction_rules.len(),
                before == old(self)@,
                before.wf(),
                before.expressions.len() >= 2,
                before.n_collisions + n_rules <= usize::MAX,
                left == before.left(),
                right == before.right(),
                is_closed(left),
                is_closed(right),
                self@ == (SoupState {
                    expressions: before.without_parents(),
                    n_collisions: before.n_collisions + k as nat,
                    pos: before.pos_after_parents(),
                    ..before
                }),
                all_closed(self.expressions@),
                before.first_rejection(k as nat) == before.first_rejection(0),
                products@.len() == k,
                collision_results@.len() == k,
                all_closed(products@),
                forall|m: int|
                    0 <= m < k ==> before.collision(m) == Ok::<(Term, nat), ReactionError>(
                        (#[trigger] products@[m], collision_results@[m].reductions as nat),
                    ),
                forall|m: int|
                    0 <= m < k ==> (#[trigger] collision_results@[m]).size == recorded_depth(
                        products@[m],
                    ),
            decreases n_rules - k,
        {
            let result = self.collide(&self.reaction_rules[k], &left, &right);
            self.n_collisions = self.n_collisions + 1;
            match result {
                Ok(found) => {
                    let datum = CollisionResult { reductions: found.1, size: term_depth(&found.0) };
                    collision_results.push(datum);
                    products.push(found.0);
                },
                Err(e) => {
                    if !self.discard_parents {
                        self.expressions.push(left);
                        self.expressions.push(right);
                    }
                    return Err(e);
                },
            }
            k = k + 1;
        }
        assert(collision_results@ =~= before.collision_records());

        self.expressions.append(&mut products);
        if !self.discard_parents {
            self.expressions.push(left);
            self.expressions.push(right);
        }
        assert(self.expressions@ =~= before.grown());

        if self.maintain_constant_population_size {
            let mut removed: usize = 0;
            while removed < n_rules
                invariant
                    removed <= n_rules,
                    self.expressions@.len() + removed == before.grown().len(),
                    before.grown().len() >= n_rules,
                    all_closed(self.expressions@),
                    self@ == (SoupState {
                        expressions: self.expressions@,
                        n_collisions: before.n_collisions + n_rules as nat,
                        pos: self.rng.pos(),
                        ..before
                    }),
                    thinned(
                        self.expressions@,
                        before.seed,
                        self.rng.pos(),
                        (n_rules - removed) as nat,
                    ) == thinned(
                        before.grown(),
                        before.seed,
                        before.pos_after_parents(),
                        n_rules as nat,
                    ),
                decreases n_rules - removed,
            {
                let at: usize = self.rng.below(self.expressions.len());
                self.expressions.swap_remove(at);
                removed = removed + 1;
            }
        }
        Ok(ReactionResult { collision_results, left_size, right_size })
    }

    /// Attempts `n` reactions and returns how many of them took place.
    pub fn simulate_for(&mut self, n: usize) -> (n_successes: usize)
        requires
            old(self)@.wf(),
            old(self)@.n_collisions + n * old(self)@.rules.len() <= usize::MAX,
        ensures
            final(self)@ == old(self)@.after(n as nat),
            final(self)@.wf(),
            n_successes == old(self)@.successes(n as nat),
    {
        let mut n_successes: usize = 0;
        let mut i: usize = 0;
        while i < n
            invariant
                i <= n,
                n_successes <= i,
                self@ == old(self)@.after(i as nat),
                self@.wf(),
                self@.rules.len() == old(self)@.rules.len(),
                self@.n_collisions + (n - i) * self@.rules.len() <= usize::MAX,
                n_successes == old(self)@.successes(i as nat),
            decreases n - i,
        {
            proof {
                lemma_budget_step(self@, (n - i) as nat);
            }
            let reaction = self.react();
            if reaction.is_ok() {
                n_successes = n_successes + 1;
            }
            i = i + 1;
        }
        n_successes
    }

    /// Attempts `n` reactions and polls the reactor after each reaction whose
    /// index is a multiple of `polling_interval`, the first one included.
    /// Returns what the polls gave, in their order.
    pub fn simulate_and_poll<F, T>(&mut self, n: usize, polling_interval: usize, poller: F) -> (data:
        Vec<T>) where F: Fn(&Soup) -> T
        requires
            old(self)@.wf(),
            old(self)@.n_collisions + n * old(self)@.rules.len() <= usize::MAX,
            polling_interval > 0,
            forall|soup: Soup| soup@.wf() ==> call_requires(poller, (&soup,)),
        ensures
            final(self)@ == old(self)@.after(n as nat),
            final(self)@.wf(),
            data@.len() == polls(n as nat, polling_interval as nat),
            forall|j: int|
                0 <= j < data@.len() ==> #[trigger] polled(
                    poller,
                    old(self)@.at_poll(j, polling_interval as nat),
                    data@[j],
                ),
    {
        let mut data: Vec<T> = Vec::new();
        let mut i: usize = 0;
        while i < n
            invariant
                i <= n,
                polling_interval > 0,
                self@ == old(self)@.after(i as nat),
                self@.wf(),
                self@.rules.len() == old(self)@.rules.len(),
                self@.n_collisions + (n - i) * self@.rules.len() <= usize::MAX,
                forall|soup: Soup| soup@.wf() ==> call_requires(poller, (&soup,)),
                data@.len() == polls(i as nat, polling_interval as nat),
                forall|j: int|
                    0 <= j < data@.len() ==> #[trigger] polled(
                        poller,
                        old(self)@.at_poll(j, polling_interval as nat),
                        data@[j],
                    ),
            decreases n - i,
        {
            proof {
                lemma_budget_step(self@, (n - i) as nat);
                lemma_polls_step(i as nat, polling_interval as nat);
            }
            let _ = self.react();
            if i % polling_interval == 0 {
                let datum = poller(self);
                data.push(datum);
            }
            i = i + 1;
        }
        data
    }

    /// As [`Soup::simulate_and_poll`], with a poll that can end the run: each
    /// poll gives a value and a flag, and a raised flag stops the run once its
    /// value is recorded.
    pub fn simulate_and_poll_with_killer<F, T>(
        &mut self,
        n: usize,
        polling_interval: usize,
        killpoller: F,
    ) -> (data: Vec<T>) where F: Fn(&Soup) -> (T, bool)
        requires
            old(self)@.wf(),
            old(self)@.n_collisions + n * old(self)@.rules.len() <= usize::MAX,
            polling_interval > 0,
            forall|soup: Soup| soup@.wf() ==> call_requires(killpoller, (&soup,)),
        ensures
            final(self)@.wf(),
            data@.len() <= polls(n as nat, polling_interval as nat),
            data@.len() == 0 ==> n == 0 && final(self)@ == old(self)@,
            forall|j: int|
                0 <= j < data@.len() - 1 ==> #[trigger] polled(
                    killpoller,
                    old(self)@.at_poll(j, polling_interval as nat),
                    (data@[j], false),
                ),
            data@.len() > 0 ==> {
                ||| {
                    &&& polled(
                        killpoller,
                        old(self)@.at_poll(data@.len() - 1, polling_interval as nat),
                        (data@[data@.len() - 1], true),
                    )
                    &&& final(self)@ == old(self)@.at_poll(
                        data@.len() - 1,
                        polling_interval as nat,
                    )
                }
                ||| {
                    &&& polled(
                        killpoller,
                        old(self)@.at_poll(data@.len() - 1, polling_interval as nat),
                        (data@[data@.len() - 1], false),
                    )
                    &&& final(self)@ == old(self)@.after(n as nat)
                    &&& data@.len() == polls(n as nat, polling_interval as nat)
                }
            },
    {
        let mut data: Vec<T> = Vec::new();
        let mut i: usize = 0;
        while i < n
            invariant
                i <= n,
                polling_interval > 0,
                self@ == old(self)@.after(i as nat),
                self@.wf(),
                self@.rules.len() == old(self)@.rules.len(),
                self@.n_collisions + (n - i) * self@.rules.len() <= usize::MAX,
                forall|soup: Soup| soup@.wf() ==> call_requires(killpoller, (&soup,)),
                data@.len() == polls(i as nat, polling_interval as nat),
                forall|j: int|
                    0 <= j < data@.len() ==> #[trigger] polled(
                        killpoller,
                        old(self)@.at_poll(j, polling_interval as nat),
                        (data@[j], false),
                    ),
            decreases n - i,
        {
            proof {
                lemma_budget_step(self@, (n - i) as nat);
                lemma_polls_step(i as nat, polling_interval as nat);
                lemma_polls_monotone((i + 1) as nat, n as nat, polling_interval as nat);
            }
            let _ = self.react();
            if i % polling_interval == 0 {
                let answer = killpoller(self);
                data.push(answer.0);
                if answer.1 {
                    return data;
                }
            }
            i = i + 1;
        }
        data
    }

    /// Attempts `n` reactions and records a copy of the reactor after each
    /// reaction whose index is a multiple of `polling_interval`, the first one
    /// included. The tape holds the copies and the reactor as it is at the end.
    pub fn simulate_and_record(&mut self, n: usize, polling_interval: usize) -> (tape: Tape)
        requires
            old(self)@.wf(),
            old(self)@.n_collisions + n * old(self)@.rules.len() <= usize::MAX,
            polling_interval > 0,
        ensures
            final(self)@ == old(self)@.after(n as nat),
            final(self)@.wf(),
            tape.wf(),
            tape.last() == old(self)@.after(n as nat),
            tape.interval() == polling_interval,
            tape.snapshots() == recording(old(self)@, n as nat, polling_interval as nat),
    {
        let mut history: Vec<Soup> = Vec::new();
        let mut i: usize = 0;
        while i < n
            invariant
                i <= n,
                polling_interval > 0,
                self@ == old(self)@.after(i as nat),
                self@.wf(),
                self@.rules.len() == old(self)@.rules.len(),
                self@.n_collisions + (n - i) * self@.rules.len() <= usize::MAX,
                history@.len() == polls(i as nat, polling_interval as nat),
                forall|j: int|
                    0 <= j < history@.len() ==> (#[trigger] history@[j])@ == old(self)@.at_poll(
                        j,
                        polling_interval as nat,
                    ),
                forall|j: int| 0 <= j < history@.len() ==> (#[trigger] history@[j])@.wf(),
            decreases n - i,
        {
            proof {
                lemma_budget_step(self@, (n - i) as nat);
                lemma_polls_step(i as nat, polling_interval as nat);
            }
            let _ = self.react();
            if i % polling_interval == 0 {
                history.push(self.clone());
            }
            i = i + 1;
        }
        let tape = Tape { soup: self.clone(), history, polling_interval };
        tape
    }

    /// The reaction rules, in the order in which they are applied.
    pub fn rules(&self) -> (all: &Vec<Term>)
        ensures
            all@ == self@.rules,
    {
        &self.reaction_rules
    }

    /// Tells whether the collision counter has room for `n` more reactions,
    /// which is what the drivers ask before they run.
    pub fn has_room_for(&self, n: usize) -> (yes: bool)
        ensures
            yes == (self@.n_collisions + n * self@.rules.len() <= usize::MAX),
    {
        match n.checked_mul(self.reaction_rules.len()) {
            Some(needed) => self.n_collisions.checked_add(needed).is_some(),
            None => {
                false
            },
        }
    }

    /// The expressions of the population.
    pub fn expressions(&self) -> (all: &Vec<Term>)
        ensures
            all@ == self@.expressions,
    {
        &self.expressions
    }

    /// The number of expressions in the population.
    pub fn len(&self) -> (n: usize)
        ensures
            n == self@.expressions.len(),
    {
        self.expressions.len()
    }

    /// The number of collisions attempted so far.
    pub fn collisions(&self) -> (n: usize)
        ensures
            n == self@.n_collisions,
    {
        self.n_collisions
    }
}

/// Whether `value` is what `poller` may give for a reactor in the state
/// `state`.
pub open spec fn polled<F: Fn(&Soup) -> T, T>(poller: F, state: SoupState, value: T) -> bool {
    exists|soup: Soup| soup@ == state && #[trigger] call_ensures(poller, (&soup,), value)
}

/// What a recording of `n` reactions holds: the reactor as it was at each
/// poll.
pub open spec fn recording(start: SoupState, n: nat, interval: nat) -> Seq<SoupState> {
    Seq::new(polls(n, interval), |j: int| start.at_poll(j, interval))
}

/// A record of a run: copies of the reactor taken at a fixed cadence, and the
/// reactor as it was at the end.
#[derive(Debug)]
pub struct Tape {
    soup: Soup,
    history: Vec<Soup>,
    polling_interval: usize,
}

impl Tape {
    /// The reactor at the end of the run, as a mathematical value.
    pub closed spec fn last(&self) -> SoupState {
        self.soup@
    }

    /// The copies, in the order in which they were taken.
    pub closed spec fn snapshots(&self) -> Seq<SoupState> {
        Seq::new(self.history@.len(), |j: int| self.history@[j]@)
    }

    /// The cadence of the copies.
    pub closed spec fn interval(&self) -> nat {
        self.polling_interval as nat
    }

    /// Every reactor on the tape is well formed.
    pub closed spec fn wf(&self) -> bool {
        &&& self.soup@.wf()
        &&& forall|j: int| 0 <= j < self.history@.len() ==> (#[trigger] self.history@[j])@.wf()
    }

    /// A tape of the given copies, cadence and final reactor.
    pub fn new(soup: Soup, history: Vec<Soup>, polling_interval: usize) -> (tape: Tape)
        ensures
            tape.last() == soup@,
            tape.interval() == polling_interval,
            tape.snapshots() == Seq::new(history@.len(), |j: int| history@[j]@),
            soup@.wf() && (forall|j: int| 0 <= j < history@.len() ==> (#[trigger] history@[j])@.wf())
                ==> tape.wf(),
    {
        Tape { soup, history, polling_interval }
    }

    /// The reactor as it was at the end of the run.
    pub fn final_state(&self) -> (soup: &Soup)
        ensures
            soup@ == self.last(),
            self.wf() ==> soup@.wf(),
    {
        &self.soup
    }

    /// The copies of the reactor, in the order in which they were taken.
    pub fn history(&self) -> (copies: &Vec<Soup>)
        ensures
            copies@.len() == self.snapshots().len(),
            forall|j: int| 0 <= j < copies@.len() ==> (#[trigger] copies@[j])@ == self.snapshots()[j],
            self.wf() ==> forall|j: int| 0 <= j < copies@.len() ==> (#[trigger] copies@[j])@.wf(),
    {
        &self.history
    }

    /// The number of reactions from one copy to the next.
    pub fn polling_interval(&self) -> (interval: usize)
        ensures
            interval == self.interval(),
    {
        self.polling_interval
    }
}

/// One more reaction fits the budget that is left for `left` of them, and
/// leaves the budget for the others.
proof fn lemma_budget_step(s: SoupState, left: nat)
    requires
        left > 0,
        s.n_collisions + left * s.rules.len() <= usize::MAX,
    ensures
        s.n_collisions + s.rules.len() <= usize::MAX,
        s.reacted().rules == s.rules,
        s.reacted().n_collisions + (left - 1) * s.rules.len() <= usize::MAX,
{
    lemma_collision_counter(s);
    assert(left * s.rules.len() == (left - 1) * s.rules.len() + s.rules.len())
        by (nonlinear_arith);
    assert((left - 1) * s.rules.len() >= 0) by (nonlinear_arith)
        requires
            left >= 1,
            s.rules.len() >= 0,
    ;
}

/// A poll follows the reaction with the index `i` exactly where `i` is a
/// multiple of the interval, and it is then the poll with the number
/// `i / interval`.
proof fn lemma_polls_step(i: nat, interval: nat)
    requires
        interval > 0,
    ensures
        polls(i + 1, interval) == polls(i, interval) + if i % interval == 0 {
            1nat
        } else {
            0nat
        },
        i % interval == 0 ==> polls(i, interval) * interval == i,
{
    if i > 0 {
        let d = interval as int;
        let a = i as int;
        assert(a / d == (a - 1) / d + if a % d == 0 {
            1int
        } else {
            0int
        } && (a % d == 0 ==> ((a - 1) / d + 1) * d == a)) by (nonlinear_arith)
            requires
                d > 0,
                a > 0,
        ;
    }
}

/// More reactions have at least as many polls.
proof fn lemma_polls_monotone(m: nat, n: nat, interval: nat)
    requires
        interval > 0,
        m <= n,
    ensures
        polls(m, interval) <= polls(n, interval),
{
    if m > 0 {
        let d = interval as int;
        let a = m as int;
        let b = n as int;
        assert((a - 1) / d <= (b - 1) / d) by (nonlinear_arith)
            requires
                d > 0,
                0 < a <= b,
        ;
    }
}

/// Where the collisions of a reaction are first rejected: not before `from`,
/// within the rules, at a rule whose collision is rejected, and after rules
/// whose collisions all gave a product.
pub proof fn lemma_first_rejection(s: SoupState, from: nat)
    ensures
        match s.first_rejection(from) {
            Some(k) => {
                &&& from <= k < s.rules.len()
                &&& s.collision(k as int) is Err
                &&& forall|m: int| from <= m < k ==> s.collision(m) is Ok
            },
            None => forall|m: int| from <= m < s.rules.len() ==> s.collision(m) is Ok,
        },
    decreases s.rules.len() - from,
{
    if from < s.rules.len() && s.collision(from as int) is Ok {
        lemma_first_rejection(s, from + 1);
    }
}

/// The collision counter never goes back. A reaction in which every rule
/// gives a product advances it by the number of rules; one in which the rule
/// with the index `k`, counted from zero, is the first to reject advances it
/// by `k + 1`; one that finds fewer than two expressions leaves it alone.
pub proof fn lemma_collision_counter(s: SoupState)
    ensures
        s.reacted().rules == s.rules,
        s.reacted().n_collisions >= s.n_collisions,
        s.reacted().n_collisions <= s.n_collisions + s.rules.len(),
        s.reaction() is Ok ==> s.reacted().n_collisions == s.n_collisions + s.rules.len(),
        s.expressions.len() < 2 ==> s.reacted().n_collisions == s.n_collisions,
        s.expressions.len() >= 2 ==> (s.first_rejection(0) matches Some(k) ==> {
            &&& k < s.rules.len()
            &&& s.reaction() == Err::<ReactionRecord, ReactionError>(s.collision(k as int)->Err_0)
            &&& s.reacted().n_collisions == s.n_collisions + k + 1
        }),
{
    lemma_first_rejection(s, 0);
}

/// Only closed terms pass `closed_only`.
pub proof fn lemma_closed_only(terms: Seq<Term>)
    ensures
        all_closed(closed_only(terms)),
        closed_only(terms).len() <= terms.len(),
    decreases terms.len(),
{
    if terms.len() > 0 {
        lemma_closed_only(terms.drop_last());
    }
}

/// Removing terms at random leaves closed what was closed, and takes away
/// exactly as many terms as were to be removed.
pub proof fn lemma_thinned(terms: Seq<Term>, seed: Seq<u8>, pos: nat, count: nat)
    requires
        count <= terms.len(),
    ensures
        thinned(terms, seed, pos, count).0.len() == terms.len() - count,
        all_closed(terms) ==> all_closed(thinned(terms, seed, pos, count).0),
    decreases count,
{
    if count > 0 {
        let at = drawn(seed, pos, terms.len()) as int;
        let fewer = swap_removed(terms, at);
        assert(all_closed(terms) ==> all_closed(fewer)) by {
            if all_closed(terms) {
                assert forall|i: int| 0 <= i < fewer.len() implies is_closed(#[trigger] fewer[i]) by {
                    if i == at {
                        assert(is_closed(terms[terms.len() - 1]));
                    } else {
                        assert(is_closed(terms[i]));
                    }
                }
            }
        }
        lemma_thinned(fewer, seed, pos_after(seed, pos, terms.len()), (count - 1) as nat);
    }
}

/// Where products with free variables are discarded, a reaction leaves a
/// well-formed reactor well formed: whatever it admits is closed, so every
/// expression of the population stays closed.
pub proof fn lemma_reaction_keeps_closure(s: SoupState)
    requires
        s.wf(),
        s.discard_free_variable_expressions,
    ensures
        s.reacted().wf(),
{
    if s.expressions.len() >= 2 {
        lemma_first_rejection(s, 0);
        let n = s.expressions.len() as int;
        let once = s.without_left();
        let twice = s.without_parents();
        assert(all_closed(once)) by {
            assert forall|i: int| 0 <= i < once.len() implies is_closed(#[trigger] once[i]) by {
                if i == s.left_index() {
                    assert(is_closed(s.expressions[n - 1]));
                } else {
                    assert(is_closed(s.expressions[i]));
                }
            }
        }
        assert(all_closed(twice)) by {
            assert forall|i: int| 0 <= i < twice.len() implies is_closed(#[trigger] twice[i]) by {
                if i == s.right_index() {
                    assert(is_closed(once[n - 2]));
                } else {
                    assert(is_closed(once[i]));
                }
            }
        }
        if s.first_rejection(0) is None {
            let grown = s.grown();
            assert(all_closed(grown)) by {
                assert forall|i: int| 0 <= i < grown.len() implies is_closed(#[trigger] grown[i]) by {
                    if i < twice.len() {
                        assert(is_closed(twice[i]));
                    } else if i < twice.len() + s.rules.len() {
                        let k = i - twice.len();
                        assert(s.collision(k) is Ok);
                        assert(grown[i] == s.products()[k]);
                    }
                }
            }
            if s.maintain_constant_population_size {
                lemma_thinned(grown, s.seed, s.pos_after_parents(), s.rules.len());
            }
        }
    }
}

/// Where products with free variables are discarded, every expression of the
/// population is closed at every point of a run.
pub proof fn lemma_run_keeps_closure(s: SoupState, n: nat)
    requires
        s.wf(),
        s.discard_free_variable_expressions,
    ensures
        s.after(n).wf(),
        s.after(n).discard_free_variable_expressions,
        all_closed(s.after(n).expressions),
    decreases n,
{
    if n > 0 {
        lemma_run_keeps_closure(s, (n - 1) as nat);
        lemma_reaction_keeps_closure(s.after((n - 1) as nat));
    }
}

/// Offering expressions to a well-formed reactor leaves it well formed:
/// whatever the offer holds, only closed expressions join the population.
pub proof fn lemma_perturb_keeps_closure(s: SoupState, terms: Seq<Term>)
    requires
        s.wf(),
    ensures
        s.perturbed(terms).wf(),
        all_closed(s.perturbed(terms).expressions),
{
    lemma_closed_only(terms);
}

/// The size of the population after a reaction.
///
/// A reaction that finds fewer than two expressions changes nothing. One that
/// is rejected leaves the size as it was where the parents return, and takes
/// two away where they are discarded. One in which every rule gives a product
/// adds as many expressions as there are rules, takes the parents away where
/// they are discarded, and takes as many expressions away as there are rules
/// where the size is held constant: with parents kept and the size held
/// constant, the population is exactly as large afterwards as before.
pub proof fn lemma_population_size(s: SoupState)
    requires
        s.rules.len() > 0,
    ensures
        s.expressions.len() < 2 ==> s.reacted().expressions.len() == s.expressions.len(),
        s.reaction() is Err && !s.discard_parents ==> s.reacted().expressions.len()
            == s.expressions.len(),
        s.reaction() is Err && s.discard_parents && s.expressions.len() >= 2
            ==> s.reacted().expressions.len() == s.expressions.len() - 2,
        s.reaction() is Ok ==> s.reacted().expressions.len() == s.expressions.len() + (
        if s.maintain_constant_population_size {
            0
        } else {
            s.rules.len() as int
        }) - (if s.discard_parents {
            2int
        } else {
            0int
        }),
        s.reaction() is Ok && s.maintain_constant_population_size && !s.discard_parents
            ==> s.reacted().expressions.len() == s.expressions.len(),
{
    if s.expressions.len() >= 2 {
        lemma_first_rejection(s, 0);
        if s.first_rejection(0) is None && s.maintain_constant_population_size {
            lemma_thinned(s.grown(), s.seed, s.pos_after_parents(), s.rules.len());
        }
    }
}

/// A run is a function of where it starts. Two reactors made from the same
/// configuration and seed, and offered the same expressions in the same
/// order, are the same reactor; after the same number of reactions they are
/// still the same, as many of their reactions took place, and recordings of
/// them at the same cadence hold the same snapshots.
pub proof fn lemma_runs_are_reproducible(
    first: SoupState,
    second: SoupState,
    batches: Seq<Seq<Term>>,
    n: nat,
    interval: nat,
)
    requires
        first == second,
    ensures
        first.perturbed_by(batches) == second.perturbed_by(batches),
        first.perturbed_by(batches).after(n) == second.perturbed_by(batches).after(n),
        first.perturbed_by(batches).successes(n) == second.perturbed_by(batches).successes(n),
        recording(first.perturbed_by(batches), n, interval) == recording(
            second.perturbed_by(batches),
            n,
            interval,
        ),
{
}

impl Default for Soup {
    fn default() -> (soup: Self)
        ensures
            soup@.wf(),
            soup@.expressions.len() == 0,
            soup@.n_collisions == 0,
            soup@.rules == seq![application_rule()],
    {
        Soup::new()
    }
}

} // verus!
