//! Random lambda expressions to seed a reactor with.

use crate::config;
use crate::config::{Config, GenConfig, Generator, Probability};
use crate::rng::{range_draw, ratio_draw, shuffle_draw, ReactorRng};
use crate::soup::{config_fault, initial_state, parsed_rules, ConfigError, Soup, SoupState};
use crate::term::{
    abstracted, app_of, excess, has_zero, is_closed, lemma_excess_under_binder,
    lemma_free_is_excess, size_of,
};
use lambda_calculus::Term;
use vstd::multiset::Multiset;
use vstd::prelude::*;

verus! {

/// How a generated expression is closed.
#[derive(Debug, Clone, Copy, PartialEq, Eq, Structural)]
pub enum Standardization {
    /// Abstractions are put in front until no variable is free.
    Prefix,
    /// Abstractions are put behind. Not provided.
    Postfix,
    /// The expression is left as it is.
    Unchanged,
}

/// A binary search tree of numbers. A number that is not greater than a node
/// goes to its left, a greater one to its right.
#[derive(Debug)]
pub struct BTree {
    pub n: u32,
    pub left: Option<Box<BTree>>,
    pub right: Option<Box<BTree>>,
}

impl BTree {
    /// The tree after `n` is inserted: a new leaf at the place to which the
    /// comparisons lead.
    pub open spec fn inserted(self, n: u32) -> BTree
        decreases self,
    {
        if n <= self.n {
            match self.left {
                None => BTree { left: Some(Box::new(BTree::leaf(n))), ..self },
                Some(t) => BTree { left: Some(Box::new(t.inserted(n))), ..self },
            }
        } else {
            match self.right {
                None => BTree { right: Some(Box::new(BTree::leaf(n))), ..self },
                Some(t) => BTree { right: Some(Box::new(t.inserted(n))), ..self },
            }
        }
    }

    /// The tree of one node.
    pub open spec fn leaf(n: u32) -> BTree {
        BTree { n, left: None, right: None }
    }

    /// The number of nodes of the tree.
    pub open spec fn nodes(self) -> nat
        decreases self,
    {
        1 + (match self.left {
            None => 0nat,
            Some(t) => t.nodes(),
        }) + (match self.right {
            None => 0nat,
            Some(t) => t.nodes(),
        })
    }

    /// The keys of the tree, each as often as the tree holds it.
    pub open spec fn keys(self) -> Multiset<u32>
        decreases self,
    {
        (match self.left {
            None => Multiset::empty(),
            Some(t) => t.keys(),
        }).add(
            match self.right {
                None => Multiset::empty(),
                Some(t) => t.keys(),
            },
        ).insert(self.n)
    }

    /// Whether the tree is a search tree whose keys lie above `low` and not
    /// above `high`: at every node the keys to the left are not greater than
    /// the node, and the keys to the right are greater.
    pub open spec fn ordered_within(self, low: int, high: int) -> bool
        decreases self,
    {
        &&& low < self.n <= high
        &&& match self.left {
            None => true,
            Some(t) => t.ordered_within(low, self.n as int),
        }
        &&& match self.right {
            None => true,
            Some(t) => t.ordered_within(self.n as int, high),
        }
    }

    /// Whether the tree is a search tree.
    pub open spec fn is_search_tree(self) -> bool {
        self.ordered_within(-1, u32::MAX as int)
    }

    /// The lambda expression with the shape of the tree, and the position of
    /// the random stream once it is made.
    ///
    /// A node with two children is an application, a node with one child is
    /// an abstraction, and a leaf is a variable. With the probability
    /// `chance`, and always where no abstraction stands above it, a leaf is
    /// one of `max_free_vars` free variables; otherwise it is bound by one of
    /// the `depth` abstractions above it.
    pub open spec fn lambda_of(
        self,
        seed: Seq<u8>,
        pos: nat,
        chance: Probability,
        max_free_vars: u32,
        depth: nat,
    ) -> (Term, nat)
        decreases self,
    {
        match self.left {
            None => match self.right {
                None => {
                    let coin = ratio_draw(
                        seed,
                        pos,
                        chance.numerator as nat,
                        chance.denominator as nat,
                    );
                    if coin.0 || depth == 0 {
                        let pick = range_draw(seed, coin.1, 1, max_free_vars as nat);
                        (Term::Var((depth + pick.0) as usize), pick.1)
                    } else {
                        let pick = range_draw(seed, coin.1, 1, depth);
                        (Term::Var(pick.0 as usize), pick.1)
                    }
                },
                Some(t) => {
                    let inner = t.lambda_of(seed, pos, chance, max_free_vars, depth + 1);
                    (Term::Abs(Box::new(inner.0)), inner.1)
                },
            },
            Some(l) => match self.right {
                None => {
                    let inner = l.lambda_of(seed, pos, chance, max_free_vars, depth + 1);
                    (Term::Abs(Box::new(inner.0)), inner.1)
                },
                Some(r) => {
                    let first = l.lambda_of(seed, pos, chance, max_free_vars, depth);
                    let second = r.lambda_of(seed, first.1, chance, max_free_vars, depth);
                    (app_of(first.0, second.0), second.1)
                },
            },
        }
    }

    /// A tree of one node.
    pub fn new(n: u32) -> (tree: BTree)
        ensures
            tree == BTree::leaf(n),
    {
        BTree { n, left: None, right: None }
    }

    /// Inserts a number as a new leaf.
    pub fn insert(&mut self, n: u32)
        ensures
            *final(self) == old(self).inserted(n),
        decreases *old(self),
    {
        if n <= self.n {
            match &mut self.left {
                None => {
                    self.left = Some(Box::new(BTree::new(n)));
                },
                Some(t) => {
                    t.insert(n);
                },
            }
        } else {
            match &mut self.right {
                None => {
                    self.right = Some(Box::new(BTree::new(n)));
                },
                Some(t) => {
                    t.insert(n);
                },
            }
        }
    }
}

impl BTree {
    /// Turns the tree into a lambda expression of its shape, drawing the
    /// variables from `rng`.
    pub fn to_lambda_h(
        &self,
        rng: &mut ReactorRng,
        chance: Probability,
        max_free_vars: u32,
        depth: u32,
    ) -> (t: Term)
        requires
            chance.valid(),
            max_free_vars >= 1,
            depth + self.nodes() + max_free_vars <= u32::MAX,
        ensures
            (t, final(rng).pos()) == self.lambda_of(
                old(rng).seed(),
                old(rng).pos(),
                chance,
                max_free_vars,
                depth as nat,
            ),
            final(rng).seed() == old(rng).seed(),
            !has_zero(t),
            size_of(t) == self.nodes(),
        decreases *self,
    {
        match (&self.left, &self.right) {
            (None, None) => {
                let free = rng.chance(chance.numerator, chance.denominator);
                let var: u32 = if free || depth == 0 {
                    depth + rng.between(1, max_free_vars)
                } else {
                    rng.between(1, depth)
                };
                Term::Var(var as usize)
            },
            (Some(t), None) => lambda_calculus::term::abs(
                t.to_lambda_h(rng, chance, max_free_vars, depth + 1),
            ),
            (None, Some(t)) => lambda_calculus::term::abs(
                t.to_lambda_h(rng, chance, max_free_vars, depth + 1),
            ),
            (Some(l), Some(r)) => {
                let left = l.to_lambda_h(rng, chance, max_free_vars, depth);
                let right = r.to_lambda_h(rng, chance, max_free_vars, depth);
                lambda_calculus::term::app(left, right)
            },
        }
    }

    /// Turns the tree into a lambda expression of its shape, with no
    /// abstraction above it.
    pub fn to_lambda(&self, rng: &mut ReactorRng, chance: Probability, max_free_vars: u32) -> (t:
        Term)
        requires
            chance.valid(),
            max_free_vars >= 1,
            self.nodes() + max_free_vars <= u32::MAX,
        ensures
            (t, final(rng).pos()) == self.lambda_of(
                old(rng).seed(),
                old(rng).pos(),
                chance,
                max_free_vars,
                0,
            ),
            final(rng).seed() == old(rng).seed(),
            !has_zero(t),
            size_of(t) == self.nodes(),
    {
        self.to_lambda_h(rng, chance, max_free_vars, 0)
    }
}

/// The numbers below `n` in ascending order.
pub open spec fn ascending(n: nat) -> Seq<u32> {
    Seq::new(n, |i: int| i as u32)
}

/// The search tree that grows when the keys are inserted one after the other,
/// the first one as the root.
pub open spec fn tree_of(keys: Seq<u32>) -> BTree
    decreases keys.len(),
{
    if keys.len() <= 1 {
        BTree::leaf(keys[0])
    } else {
        tree_of(keys.drop_last()).inserted(keys.last())
    }
}

/// An insertion into a search tree gives a search tree, which holds the new
/// key beside the keys it held.
pub proof fn lemma_inserted_ordered(tree: BTree, n: u32, low: int, high: int)
    requires
        tree.ordered_within(low, high),
        low < n <= high,
    ensures
        tree.inserted(n).ordered_within(low, high),
        tree.inserted(n).keys() == tree.keys().insert(n),
    decreases tree,
{
    broadcast use vstd::multiset::group_multiset_properties;

    let grown = tree.inserted(n);
    assert(BTree::leaf(n).ordered_within(low, high));
    assert(BTree::leaf(n).keys() =~= Multiset::empty().insert(n));
    if n <= tree.n {
        assert(grown.right == tree.right);
        match tree.left {
            Some(t) => {
                lemma_inserted_ordered(*t, n, low, tree.n as int);
                assert(grown.left == Some(Box::new(t.inserted(n))));
            },
            None => {
                assert(grown.left == Some(Box::new(BTree::leaf(n))));
                assert(BTree::leaf(n).ordered_within(low, tree.n as int));
            },
        }
    } else {
        assert(grown.left == tree.left);
        match tree.right {
            Some(t) => {
                lemma_inserted_ordered(*t, n, tree.n as int, high);
                assert(grown.right == Some(Box::new(t.inserted(n))));
            },
            None => {
                assert(grown.right == Some(Box::new(BTree::leaf(n))));
                assert(BTree::leaf(n).ordered_within(tree.n as int, high));
            },
        }
    }
    assert(grown.keys() =~= tree.keys().insert(n));
}

/// The tree that grows from a list of keys is a search tree that holds
/// exactly these keys and has a node for each.
pub proof fn lemma_tree_of(keys: Seq<u32>)
    requires
        keys.len() > 0,
    ensures
        tree_of(keys).is_search_tree(),
        tree_of(keys).keys() == keys.to_multiset(),
        tree_of(keys).nodes() == keys.len(),
    decreases keys.len(),
{
    broadcast use vstd::seq_lib::group_to_multiset_ensures;
    broadcast use vstd::multiset::group_multiset_properties;

    if keys.len() == 1 {
        assert(keys =~= Seq::empty().push(keys[0]));
        assert(BTree::leaf(keys[0]).keys() =~= Multiset::empty().insert(keys[0]));
        assert(Seq::<u32>::empty().to_multiset() =~= Multiset::empty());
    } else {
        let front = keys.drop_last();
        lemma_tree_of(front);
        lemma_inserted_ordered(tree_of(front), keys.last(), -1, u32::MAX as int);
        lemma_inserted_nodes(tree_of(front), keys.last());
        assert(front.push(keys.last()) =~= keys);
    }
}

/// Every insertion adds one node.
pub proof fn lemma_inserted_nodes(tree: BTree, n: u32)
    ensures
        tree.inserted(n).nodes() == tree.nodes() + 1,
    decreases tree,
{
    let grown = tree.inserted(n);
    assert(BTree::leaf(n).nodes() == 1);
    if n <= tree.n {
        assert(grown.right == tree.right);
        match tree.left {
            Some(t) => {
                lemma_inserted_nodes(*t, n);
                assert(grown.left == Some(Box::new(t.inserted(n))));
            },
            None => {
                assert(grown.left == Some(Box::new(BTree::leaf(n))));
            },
        }
    } else {
        assert(grown.left == tree.left);
        match tree.right {
            Some(t) => {
                lemma_inserted_nodes(*t, n);
                assert(grown.right == Some(Box::new(t.inserted(n))));
            },
            None => {
                assert(grown.right == Some(Box::new(BTree::leaf(n))));
            },
        }
    }
}

/// A generator of the binary tree kind as a mathematical value.
pub struct GeneratorState {
    /// The number of nodes of every tree.
    pub size: u32,
    /// The probability that a leaf becomes a free variable.
    pub chance: Probability,
    /// The number of different free variables.
    pub max_free_vars: u32,
    /// How generated expressions are closed.
    pub standardization: Standardization,
    /// The seed of the random stream.
    pub seed: Seq<u8>,
    /// The number of words of the stream consumed so far.
    pub pos: nat,
}

impl GeneratorState {
    /// The settings with which the generator can work: trees have a node,
    /// the probability is one, there is a free variable to pick, depth and
    /// free variables together fit an index, and expressions are not to be
    /// closed by abstractions behind, which is not provided.
    pub open spec fn wf(self) -> bool {
        &&& self.size > 0
        &&& self.chance.valid()
        &&& self.max_free_vars >= 1
        &&& self.size + self.max_free_vars <= u32::MAX
        &&& self.standardization != Standardization::Postfix
    }

    /// The expression as the tree gives it, before it is closed, and the
    /// position of the stream afterwards: the numbers below `size` are
    /// shuffled and inserted into a search tree, and the tree is turned into
    /// an expression.
    pub open spec fn raw(self) -> (Term, nat) {
        let shuffled = shuffle_draw(self.seed, self.pos, ascending(self.size as nat));
        tree_of(shuffled.0).lambda_of(self.seed, shuffled.1, self.chance, self.max_free_vars, 0)
    }

    /// The next expression of the generator.
    pub open spec fn produced(self) -> Term {
        if self.standardization == Standardization::Prefix {
            abstracted(self.raw().0, excess(self.raw().0, 0))
        } else {
            self.raw().0
        }
    }

    /// The generator once it has produced its next expression.
    pub open spec fn advanced(self) -> GeneratorState {
        GeneratorState { pos: self.raw().1, ..self }
    }

    /// The generator once it has produced `count` expressions.
    pub open spec fn after(self, count: nat) -> GeneratorState
        decreases count,
    {
        if count == 0 {
            self
        } else {
            self.after((count - 1) as nat).advanced()
        }
    }

    /// The next `count` expressions of the generator.
    pub open spec fn batch(self, count: nat) -> Seq<Term> {
        Seq::new(count, |i: int| self.after(i as nat).produced())
    }
}

/// The generator that a configuration and a seed make.
pub open spec fn generator_state(cfg: config::BTreeGen, seed: Seq<u8>) -> GeneratorState {
    GeneratorState {
        size: cfg.size,
        chance: cfg.freevar_generation_probability,
        max_free_vars: cfg.n_max_free_vars,
        standardization: cfg.standardization,
        seed,
        pos: 0,
    }
}

/// A generator of random lambda expressions that shapes them after random
/// binary search trees.
#[derive(Debug)]
pub struct BTreeGen {
    n: u32,
    freevar_p: Probability,
    max_free_vars: u32,
    std: Standardization,
    seed: [u8; 32],
    rng: ReactorRng,
}

impl View for BTreeGen {
    type V = GeneratorState;

    closed spec fn view(&self) -> GeneratorState {
        GeneratorState {
            size: self.n,
            chance: self.freevar_p,
            max_free_vars: self.max_free_vars,
            standardization: self.std,
            seed: self.rng.seed(),
            pos: self.rng.pos(),
        }
    }
}

impl BTreeGen {
    /// A generator with the default settings and a seed that nobody can
    /// predict.
    pub fn new() -> (gen: BTreeGen)
        ensures
            gen@.wf(),
            gen@ == generator_state(
                config::BTreeGen {
                    seed: config::ConfigSeed(None),
                    size: 20,
                    freevar_generation_probability: Probability { numerator: 1, denominator: 5 },
                    n_max_free_vars: 6,
                    standardization: Standardization::Prefix,
                },
                gen@.seed,
            ),
    {
        let cfg = <config::BTreeGen as GenConfig>::new();
        BTreeGen::from_config(&cfg)
    }

    /// A generator with the settings of `cfg`, at the start of its stream.
    /// Where `cfg` names no seed, one is taken from the operating system.
    pub fn from_config(cfg: &config::BTreeGen) -> (gen: BTreeGen)
        ensures
            gen@ == generator_state(*cfg, gen@.seed),
            cfg.seed.0 matches Some(seed) ==> gen@.seed == seed@,
    {
        let seed = cfg.seed.get();
        BTreeGen {
            n: cfg.size,
            freevar_p: cfg.freevar_generation_probability,
            max_free_vars: cfg.n_max_free_vars,
            std: cfg.standardization,
            seed,
            rng: ReactorRng::from_seed(seed),
        }
    }

    /// Tells whether the generator can work with its settings.
    pub fn ready(&self) -> (yes: bool)
        ensures
            yes == self@.wf(),
    {
        self.n > 0 && self.freevar_p.is_valid() && self.max_free_vars >= 1 && self.max_free_vars
            <= u32::MAX - self.n && !matches!(self.std, Standardization::Postfix)
    }

    /// Produces the next expression.
    pub fn generate(&mut self) -> (t: Term)
        requires
            old(self)@.wf(),
        ensures
            t == old(self)@.produced(),
            final(self)@ == old(self)@.advanced(),
            final(self)@.wf(),
            old(self)@.standardization == Standardization::Prefix ==> is_closed(t),
            !has_zero(t),
    {
        let n: u32 = self.n;
        let mut permutation: Vec<u32> = Vec::new();
        let mut i: u32 = 0;
        while i < n
            invariant
                i <= n,
                permutation@ == ascending(i as nat),
            decreases n - i,
        {
            permutation.push(i);
            i = i + 1;
        }
        self.rng.shuffle(&mut permutation);
        let mut tree = BTree::new(permutation[0]);
        let mut at: usize = 1;
        while at < permutation.len()
            invariant
                1 <= at <= permutation@.len(),
                permutation@.len() == n,
                tree == tree_of(permutation@.subrange(0, at as int)),
                tree.nodes() == at,
            decreases permutation@.len() - at,
        {
            proof {
                lemma_inserted_nodes(tree, permutation@[at as int]);
                assert(permutation@.subrange(0, at + 1).drop_last() =~= permutation@.subrange(
                    0,
                    at as int,
                ));
            }
            tree.insert(permutation[at]);
            at = at + 1;
        }
        assert(permutation@.subrange(0, at as int) =~= permutation@);
        let lambda = tree.to_lambda(&mut self.rng, self.freevar_p, self.max_free_vars);
        match self.std {
            Standardization::Prefix => BTreeGen::prefix_standardize(lambda),
            _ => lambda,
        }
    }

    /// Produces the next `n` expressions.
    pub fn generate_n(&mut self, n: usize) -> (batch: Vec<Term>)
        requires
            old(self)@.wf(),
        ensures
            batch@ == old(self)@.batch(n as nat),
            final(self)@ == old(self)@.after(n as nat),
            final(self)@.wf(),
            old(self)@.standardization == Standardization::Prefix ==> forall|i: int|
                0 <= i < batch@.len() ==> is_closed(#[trigger] batch@[i]),
    {
        let mut batch: Vec<Term> = Vec::new();
        let mut i: usize = 0;
        while i < n
            invariant
                i <= n,
                self@.wf(),
                self@ == old(self)@.after(i as nat),
                self@.standardization == old(self)@.standardization,
                batch@ == old(self)@.batch(i as nat),
                old(self)@.standardization == Standardization::Prefix ==> forall|k: int|
                    0 <= k < batch@.len() ==> is_closed(#[trigger] batch@[k]),
            decreases n - i,
        {
            batch.push(self.generate());
            i = i + 1;
        }
        batch
    }

    /// Puts abstractions in front of an expression until no variable of it is
    /// free: exactly as many as it lacks.
    pub fn prefix_standardize(t: Term) -> (closed: Term)
        requires
            !has_zero(t),
        ensures
            closed == abstracted(t, excess(t, 0)),
            is_closed(closed),
            !has_zero(closed),
    {
        let mut t = t;
        let ghost start = t;
        while t.has_free_variables()
            invariant
                !has_zero(t),
                abstracted(t, excess(t, 0)) == abstracted(start, excess(start, 0)),
            decreases excess(t, 0),
        {
            proof {
                lemma_free_is_excess(t, 0);
                lemma_excess_under_binder(t, 0);
            }
            t = lambda_calculus::term::abs(t);
        }
        proof {
            lemma_free_is_excess(t, 0);
        }
        t
    }
}

/// Whether the binary tree generator can work with a configuration.
pub open spec fn usable(cfg: config::BTreeGen) -> bool {
    generator_state(cfg, Seq::empty()).wf()
}

/// Tells whether the binary tree generator can work with a configuration.
pub fn usable_generator(cfg: &config::BTreeGen) -> (yes: bool)
    ensures
        yes == usable(*cfg),
{
    cfg.size > 0 && cfg.freevar_generation_probability.is_valid() && cfg.n_max_free_vars >= 1
        && cfg.n_max_free_vars <= u32::MAX - cfg.size && !matches!(
        cfg.standardization,
        Standardization::Postfix
    )
}

/// The expressions that the configured generator produces to seed a reactor,
/// where `seed` is the seed of its stream. Fontana's generator produces none.
pub open spec fn seed_expressions(cfg: Config, seed: Seq<u8>) -> Seq<Term> {
    match cfg.generator_config {
        Generator::BTree(tree) => generator_state(tree, seed).batch(cfg.sample_size as nat),
        Generator::Fontana(_) => Seq::empty(),
    }
}

/// The reactor that a configuration makes once it is seeded with the
/// expressions of its generator, where `generator_seed` and `reactor_seed` are
/// the seeds of the two random streams.
pub open spec fn seeded_state(cfg: Config, generator_seed: Seq<u8>, reactor_seed: Seq<u8>) -> SoupState {
    initial_state(
        cfg.reactor_config,
        parsed_rules(cfg.reactor_config.rules@),
        reactor_seed,
    ).perturbed(seed_expressions(cfg, generator_seed))
}

/// Whether `soup` is the reactor that a configuration makes when the stream
/// of its generator has the seed `generator_seed`, which is the configured
/// one where the configuration fixes it.
pub open spec fn seeded_with(cfg: Config, generator_seed: Seq<u8>, soup: SoupState) -> bool {
    &&& soup == seeded_state(cfg, generator_seed, soup.seed)
    &&& generator_seed_of(cfg) matches Some(seed) ==> generator_seed == seed@
}

/// The seed that a configuration fixes for its generator, if it fixes one.
pub open spec fn generator_seed_of(cfg: Config) -> Option<[u8; 32]> {
    match cfg.generator_config {
        Generator::BTree(tree) => tree.seed.0,
        Generator::Fontana(fontana) => fontana.seed.0,
    }
}

/// Generates the seed expressions that a configuration asks for and makes a
/// reactor that holds them. The configured generator must be usable.
pub fn generate_expressions_and_seed_soup(cfg: &Config) -> (made: Result<Soup, ConfigError>)
    requires
        cfg.generator_config matches Generator::BTree(tree) ==> usable(tree),
    ensures
        made is Ok <==> config_fault(cfg.reactor_config) is None,
        made matches Err(fault) ==> config_fault(cfg.reactor_config) == Some(fault),
        made matches Ok(soup) ==> soup@.wf(),
        made matches Ok(soup) ==> exists|generator_seed: Seq<u8>| #[trigger]
            seeded_with(*cfg, generator_seed, soup@),
        made matches Ok(soup) ==> (cfg.reactor_config.seed.0 matches Some(seed) ==> soup@.seed
            == seed@),
{
    let ghost mut generator_seed: Seq<u8> = Seq::empty();
    let expressions = match &cfg.generator_config {
        Generator::BTree(gen_cfg) => {
            let mut gen = BTreeGen::from_config(gen_cfg);
            proof {
                generator_seed = gen@.seed;
            }
            gen.generate_n(cfg.sample_size)
        },
        Generator::Fontana(gen_cfg) => {
            let gen = FontanaGen::from_config(gen_cfg);
            let mut none: Vec<Term> = Vec::new();
            let mut i: usize = 0;
            while i < cfg.sample_size
                invariant
                    none@.len() == 0,
                decreases cfg.sample_size - i,
            {
                match gen.generate() {
                    Some(t) => {
                        none.push(t);
                    },
                    None => {
                        break ;
                    },
                }
                i = i + 1;
            }
            proof {
                if let Some(seed) = gen_cfg.seed.0 {
                    generator_seed = seed@;
                }
            }
            none
        },
    };
    match Soup::from_config(&cfg.reactor_config) {
        Ok(soup) => {
            let mut soup = soup;
            soup.perturb(expressions);
            let made: Result<Soup, ConfigError> = Ok(soup);
            assert(seeded_with(*cfg, generator_seed, made->Ok_0@));
            made
        },
        Err(fault) => Err(fault),
    }
}

/// Fontana's generator of random lambda expressions.
#[derive(Debug)]
pub struct FontanaGen {
    abs_range: (Probability, Probability),
    app_range: (Probability, Probability),
    depth_cutoff: u32,
    free_vars_count: u32,
    seed: [u8; 32],
    rng: ReactorRng,
}

/// Fontana's generator as a mathematical value.
pub struct FontanaState {
    /// The probability of an abstraction, at the root and at the largest
    /// depth.
    pub abstraction_range: (Probability, Probability),
    /// The probability of an application, at the root and at the largest
    /// depth.
    pub application_range: (Probability, Probability),
    /// The largest depth of an expression.
    pub max_depth: u32,
    /// The number of different free variables.
    pub max_free_vars: u32,
    /// The seed of the random stream.
    pub seed: Seq<u8>,
    /// The number of words of the stream consumed so far.
    pub pos: nat,
}

impl View for FontanaGen {
    type V = FontanaState;

    closed spec fn view(&self) -> FontanaState {
        FontanaState {
            abstraction_range: self.abs_range,
            application_range: self.app_range,
            max_depth: self.depth_cutoff,
            max_free_vars: self.free_vars_count,
            seed: self.rng.seed(),
            pos: self.rng.pos(),
        }
    }
}

impl FontanaGen {
    /// A generator with the settings of `cfg`, at the start of its stream.
    /// Where `cfg` names no seed, one is taken from the operating system.
    pub fn from_config(cfg: &config::FontanaGen) -> (gen: FontanaGen)
        ensures
            gen@ == (FontanaState {
                abstraction_range: cfg.abstraction_prob_range,
                application_range: cfg.application_prob_range,
                max_depth: cfg.max_depth,
                max_free_vars: cfg.n_max_free_vars,
                seed: gen@.seed,
                pos: 0,
            }),
            cfg.seed.0 matches Some(seed) ==> gen@.seed == seed@,
    {
        let seed = cfg.seed.get();
        FontanaGen {
            abs_range: cfg.abstraction_prob_range,
            app_range: cfg.application_prob_range,
            depth_cutoff: cfg.max_depth,
            free_vars_count: cfg.n_max_free_vars,
            seed,
            rng: ReactorRng::from_seed(seed),
        }
    }

    /// Produces the next expression. This generator produces none.
    pub fn generate(&self) -> (t: Option<Term>)
        ensures
            t is None,
    {
        None
    }
}

} // verus!
