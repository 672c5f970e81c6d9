//! Configuration of the reactor.

use crate::generators::Standardization;
use crate::rng::entropy_seed;
use vstd::prelude::*;

verus! {

/// The seed of a random stream in a configuration: 32 bytes, or nothing, in
/// which case a fresh seed is taken from the operating system each time the
/// seed is asked for.
#[derive(Debug, Clone, Copy)]
pub struct ConfigSeed(pub Option<[u8; 32]>);

impl ConfigSeed {
    /// A configured seed.
    pub fn new(seed: [u8; 32]) -> (config_seed: Self)
        ensures
            config_seed.0 == Some(seed),
    {
        ConfigSeed(Some(seed))
    }

    /// The seed as text: 64 hexadecimal digits in lower case, or nothing where
    /// no seed is configured.
    pub fn to_hex(&self) -> (text: Option<Vec<u8>>)
        ensures
            match self.0 {
                Some(seed) => (text matches Some(digits) && digits@ == hex_of(seed@)),
                None => text is None,
            },
    {
        match self.0 {
            None => None,
            Some(seed) => {
                let mut digits: Vec<u8> = Vec::new();
                let mut k: usize = 0;
                while k < 32
                    invariant
                        k <= 32,
                        digits@.len() == 2 * k,
                        forall|i: int| 0 <= i < 2 * k ==> digits@[i] == hex_of(seed@)[i],
                    decreases 32 - k,
                {
                    digits.push(digit_of(seed[k] / 16));
                    digits.push(digit_of(seed[k] % 16));
                    k = k + 1;
                }
                Some(digits)
            },
        }
    }

    /// Reads a seed from text. The text must be 64 hexadecimal digits, in
    /// either case; any other text gives nothing.
    pub fn from_hex(text: &[u8]) -> (read: Option<ConfigSeed>)
        ensures
            match read {
                Some(config_seed) => {
                    &&& is_seed_text(text@)
                    &&& config_seed.0 matches Some(seed) && seed@ == seed_of_text(text@)
                },
                None => !is_seed_text(text@),
            },
    {
        if text.len() != 64 {
            return None;
        }
        let mut seed: [u8; 32] = [0; 32];
        let mut k: usize = 0;
        while k < 32
            invariant
                k <= 32,
                text@.len() == 64,
                forall|i: int| 0 <= i < 2 * k ==> hex_value(#[trigger] text@[i]) is Some,
                forall|m: int| 0 <= m < k ==> seed@[m] == seed_of_text(text@)[m],
            decreases 32 - k,
        {
            let high = match value_of(text[2 * k]) {
                Some(v) => v,
                None => {
                    return None;
                },
            };
            let low = match value_of(text[2 * k + 1]) {
                Some(v) => v,
                None => {
                    return None;
                },
            };
            seed[k] = 16 * high + low;
            assert forall|i: int| 0 <= i < 2 * (k + 1) implies hex_value(
                #[trigger] text@[i],
            ) is Some by {
                if i >= 2 * k {
                    assert(i == 2 * k || i == 2 * k + 1);
                }
            }
            k = k + 1;
        }
        Some(ConfigSeed(Some(seed)))
    }

    /// The seed to start a stream with: the configured one where there is
    /// one, else 32 bytes that nobody can predict.
    pub fn get(&self) -> (seed: [u8; 32])
        ensures
            self.0 matches Some(configured) ==> seed == configured,
    {
        match self.0 {
            Some(configured) => configured,
            None => entropy_seed(),
        }
    }
}

/// The hexadecimal digit, in lower case, of a number below 16.
pub open spec fn hex_digit(nibble: int) -> u8 {
    if nibble < 10 {
        (48 + nibble) as u8
    } else {
        (87 + nibble) as u8
    }
}

/// The number that a hexadecimal digit in either case stands for, or nothing
/// for a byte that is no such digit.
pub open spec fn hex_value(digit: u8) -> Option<int> {
    if 48 <= digit <= 57 {
        Some(digit - 48)
    } else if 97 <= digit <= 102 {
        Some(digit - 87)
    } else if 65 <= digit <= 70 {
        Some(digit - 55)
    } else {
        None
    }
}

/// Bytes written as hexadecimal digits, two for each byte, the high half
/// first.
pub open spec fn hex_of(bytes: Seq<u8>) -> Seq<u8> {
    Seq::new(
        2 * bytes.len(),
        |i: int|
            if i % 2 == 0 {
                hex_digit(bytes[i / 2] as int / 16)
            } else {
                hex_digit(bytes[i / 2] as int % 16)
            },
    )
}

/// Whether a text is made of exactly 64 hexadecimal digits.
pub open spec fn is_seed_text(text: Seq<u8>) -> bool {
    &&& text.len() == 64
    &&& forall|i: int| 0 <= i < 64 ==> hex_value(#[trigger] text[i]) is Some
}

/// The 32 bytes that a text of 64 hexadecimal digits stands for.
pub open spec fn seed_of_text(text: Seq<u8>) -> Seq<u8> {
    Seq::new(32, |k: int| (16 * hex_value(text[2 * k])->Some_0 + hex_value(text[2 * k + 1])->Some_0) as u8)
}

/// The hexadecimal digit of a number below 16.
fn digit_of(nibble: u8) -> (digit: u8)
    requires
        nibble < 16,
    ensures
        digit == hex_digit(nibble as int),
{
    if nibble < 10 {
        48 + nibble
    } else {
        87 + nibble
    }
}

/// The number that a hexadecimal digit stands for.
fn value_of(digit: u8) -> (value: Option<u8>)
    ensures
        match value {
            Some(v) => hex_value(digit) == Some(v as int) && v < 16,
            None => hex_value(digit) is None,
        },
{
    if 48 <= digit && digit <= 57 {
        Some(digit - 48)
    } else if 97 <= digit && digit <= 102 {
        Some(digit - 87)
    } else if 65 <= digit && digit <= 70 {
        Some(digit - 55)
    } else {
        None
    }
}

/// A seed that is written as text and read back is the seed it was.
pub proof fn lemma_hex_round_trip(seed: Seq<u8>)
    requires
        seed.len() == 32,
    ensures
        is_seed_text(hex_of(seed)),
        seed_of_text(hex_of(seed)) == seed,
{
    let text = hex_of(seed);
    assert forall|i: int| 0 <= i < 64 implies hex_value(#[trigger] text[i]) is Some by {
        let nibble = if i % 2 == 0 {
            seed[i / 2] as int / 16
        } else {
            seed[i / 2] as int % 16
        };
        assert(0 <= nibble < 16);
        assert(text[i] == hex_digit(nibble));
    }
    assert forall|k: int| 0 <= k < 32 implies seed_of_text(text)[k] == seed[k] by {
        let high = seed[k] as int / 16;
        let low = seed[k] as int % 16;
        assert(text[2 * k] == hex_digit(high));
        assert(text[2 * k + 1] == hex_digit(low));
        assert(hex_value(hex_digit(high)) == Some(high));
        assert(hex_value(hex_digit(low)) == Some(low));
    }
    assert(seed_of_text(text) =~= seed);
}

/// A probability as a ratio of two whole numbers.
#[derive(Debug, Clone, Copy, PartialEq, Eq, Structural)]
pub struct Probability {
    pub numerator: u32,
    pub denominator: u32,
}

impl Probability {
    /// Whether the ratio lies between zero and one.
    pub open spec fn valid(self) -> bool {
        self.denominator > 0 && self.numerator <= self.denominator
    }

    /// The probability `numerator / denominator`.
    pub fn new(numerator: u32, denominator: u32) -> (p: Self)
        ensures
            p == (Probability { numerator, denominator }),
    {
        Probability { numerator, denominator }
    }

    /// Tells whether the ratio lies between zero and one.
    pub fn is_valid(&self) -> (yes: bool)
        ensures
            yes == self.valid(),
    {
        self.denominator > 0 && self.numerator <= self.denominator
    }
}

/// A configuration that has default values.
pub trait GenConfig: Sized {
    /// The configuration with its default values.
    fn new() -> Self;
}

/// Configuration of the generator that shapes expressions after random
/// binary trees.
#[derive(Debug, Clone, Copy)]
pub struct BTreeGen {
    /// The seed of the generator's random stream.
    pub seed: ConfigSeed,
    /// The number of nodes of the binary tree.
    pub size: u32,
    /// The probability that a leaf becomes a free variable.
    pub freevar_generation_probability: Probability,
    /// The number of different free variables.
    pub n_max_free_vars: u32,
    /// How generated expressions are closed.
    pub standardization: Standardization,
}

/// Configuration of Fontana's generator.
#[derive(Debug, Clone, Copy)]
pub struct FontanaGen {
    /// The seed of the generator's random stream.
    pub seed: ConfigSeed,
    /// The probability of an abstraction, at the root and at the largest
    /// depth; in between it changes linearly.
    pub abstraction_prob_range: (Probability, Probability),
    /// The probability of an application, at the root and at the largest
    /// depth; in between it changes linearly.
    pub application_prob_range: (Probability, Probability),
    /// The largest depth of a generated expression.
    pub max_depth: u32,
    /// The number of different free variables.
    pub n_max_free_vars: u32,
}

impl GenConfig for BTreeGen {
    /// Trees of 20 nodes, a fifth of the leaves free, six free variables,
    /// closed by abstractions in front, no fixed seed.
    fn new() -> (cfg: Self)
        ensures
            cfg.size == 20,
            cfg.freevar_generation_probability == (Probability { numerator: 1, denominator: 5 }),
            cfg.standardization == Standardization::Prefix,
            cfg.n_max_free_vars == 6,
            cfg.seed.0 is None,
    {
        BTreeGen {
            size: 20,
            freevar_generation_probability: Probability { numerator: 1, denominator: 5 },
            standardization: Standardization::Prefix,
            n_max_free_vars: 6,
            seed: ConfigSeed(None),
        }
    }
}

impl GenConfig for FontanaGen {
    /// Depth up to 10, six free variables, applications from three in ten to
    /// one in two, abstractions from one in two to three in ten, no fixed
    /// seed.
    fn new() -> (cfg: Self)
        ensures
            cfg.max_depth == 10,
            cfg.n_max_free_vars == 6,
            cfg.application_prob_range == (
                Probability { numerator: 3, denominator: 10 },
                Probability { numerator: 1, denominator: 2 },
            ),
            cfg.abstraction_prob_range == (
                Probability { numerator: 1, denominator: 2 },
                Probability { numerator: 3, denominator: 10 },
            ),
            cfg.seed.0 is None,
    {
        FontanaGen {
            max_depth: 10,
            n_max_free_vars: 6,
            application_prob_range: (
                Probability { numerator: 3, denominator: 10 },
                Probability { numerator: 1, denominator: 2 },
            ),
            abstraction_prob_range: (
                Probability { numerator: 1, denominator: 2 },
                Probability { numerator: 3, denominator: 10 },
            ),
            seed: ConfigSeed(None),
        }
    }
}

/// Which generator seeds the reactor, and how it is set.
#[derive(Debug, Clone, Copy)]
pub enum Generator {
    /// The generator that shapes expressions after random binary trees.
    BTree(BTreeGen),
    /// Fontana's generator.
    Fontana(FontanaGen),
}

/// The rule every reactor has unless told otherwise: `λx.λy.x y`, which
/// applies the left parent to the right one.
pub open spec fn default_rule_text() -> Seq<char> {
    "\\x.\\y.x y"@
}

/// Configuration of a reactor.
#[derive(Debug)]
pub struct Reactor {
    /// The reaction rules, in classic notation. Each must be a closed lambda
    /// expression of two arguments.
    pub rules: Vec<String>,
    /// Reject every product that is isomorphic to one of its parents.
    pub discard_copy_actions: bool,
    /// Reject every product that is isomorphic to the identity function.
    pub discard_identity: bool,
    /// Reject every product that has free variables.
    pub discard_free_variable_expressions: bool,
    /// Drop the parents of a reaction instead of returning them to the soup.
    pub discard_parents: bool,
    /// After a reaction, remove as many expressions at random as the reaction
    /// produced.
    pub maintain_constant_population_size: bool,
    /// The number of reduction steps at which a collision is given up.
    pub reduction_cutoff: usize,
    /// The largest number of nodes an expression may have during reduction.
    pub size_cutoff: usize,
    /// The seed of the reactor's random stream.
    pub seed: ConfigSeed,
}

impl Reactor {
    /// The default configuration: the single rule `λx.λy.x y`; copies of a
    /// parent, the identity and open products rejected; parents kept; the
    /// population held constant; both cutoffs at 500; no fixed seed.
    pub fn new() -> (cfg: Self)
        ensures
            cfg.rules@.len() == 1,
            cfg.rules@[0]@ == default_rule_text(),
            cfg.discard_copy_actions,
            cfg.discard_identity,
            cfg.discard_free_variable_expressions,
            cfg.maintain_constant_population_size,
            !cfg.discard_parents,
            cfg.reduction_cutoff == 500,
            cfg.size_cutoff == 500,
            cfg.seed.0 is None,
    {
        let mut rules: Vec<String> = Vec::new();
        rules.push("\\x.\\y.x y".to_owned());
        Reactor {
            rules,
            discard_copy_actions: true,
            discard_identity: true,
            discard_free_variable_expressions: true,
            maintain_constant_population_size: true,
            discard_parents: false,
            reduction_cutoff: 500,
            size_cutoff: 500,
            seed: ConfigSeed(None),
        }
    }
}

/// The configuration of a whole run.
#[derive(Debug)]
pub struct Config {
    /// The number of reactions of the run.
    pub run_limit: usize,
    /// The number of expressions the reactor is seeded with.
    pub sample_size: usize,
    /// The number of reactions from one poll to the next, or nothing where the
    /// run is not polled.
    pub polling_interval: Option<usize>,
    /// Whether every reaction is logged.
    pub verbose_logging: bool,
    /// The generator of the seed expressions.
    pub generator_config: Generator,
    /// The reactor.
    pub reactor_config: Reactor,
}

impl Config {
    /// The default configuration: the default reactor, the binary tree
    /// generator with its defaults, 100000 reactions, 1000 seed expressions,
    /// no polling, no logging.
    pub fn new() -> (cfg: Self)
        ensures
            cfg.run_limit == 100000,
            cfg.sample_size == 1000,
            cfg.polling_interval is None,
            !cfg.verbose_logging,
            cfg.generator_config matches Generator::BTree(tree) && {
                &&& tree.size == 20
                &&& tree.freevar_generation_probability == (Probability {
                    numerator: 1,
                    denominator: 5,
                })
                &&& tree.standardization == Standardization::Prefix
                &&& tree.n_max_free_vars == 6
                &&& tree.seed.0 is None
            },
            cfg.reactor_config.rules@.len() == 1,
            cfg.reactor_config.rules@[0]@ == default_rule_text(),
            cfg.reactor_config.discard_copy_actions,
            cfg.reactor_config.discard_identity,
            cfg.reactor_config.discard_free_variable_expressions,
            cfg.reactor_config.maintain_constant_population_size,
            !cfg.reactor_config.discard_parents,
            cfg.reactor_config.reduction_cutoff == 500,
            cfg.reactor_config.size_cutoff == 500,
            cfg.reactor_config.seed.0 is None,
    {
        Config {
            reactor_config: Reactor::new(),
            generator_config: Generator::BTree(BTreeGen::new()),
            run_limit: 100000,
            sample_size: 1000,
            polling_interval: None,
            verbose_logging: false,
        }
    }

    /// Sets the number of reduction steps at which a collision is given up.
    pub fn set_reduction_cutoff(&mut self, cutoff: usize)
        ensures
            final(self).reactor_config.reduction_cutoff == cutoff,
            final(self).reactor_config.rules == old(self).reactor_config.rules,
            final(self).reactor_config.discard_copy_actions
                == old(self).reactor_config.discard_copy_actions,
            final(self).reactor_config.discard_identity == old(self).reactor_config.discard_identity,
            final(self).reactor_config.discard_free_variable_expressions
                == old(self).reactor_config.discard_free_variable_expressions,
            final(self).reactor_config.discard_parents == old(self).reactor_config.discard_parents,
            final(self).reactor_config.maintain_constant_population_size
                == old(self).reactor_config.maintain_constant_population_size,
            final(self).reactor_config.size_cutoff == old(self).reactor_config.size_cutoff,
            final(self).reactor_config.seed == old(self).reactor_config.seed,
            final(self).run_limit == old(self).run_limit,
            final(self).sample_size == old(self).sample_size,
            final(self).polling_interval == old(self).polling_interval,
            final(self).verbose_logging == old(self).verbose_logging,
            final(self).generator_config == old(self).generator_config,
    {
        self.reactor_config.reduction_cutoff = cutoff;
    }

    /// Sets the number of reactions of the run.
    pub fn set_run_limit(&mut self, limit: usize)
        ensures
            *final(self) == (Config { run_limit: limit, ..*old(self) }),
    {
        self.run_limit = limit;
    }

    /// Sets the number of reactions from one poll to the next, or switches
    /// polling off.
    pub fn set_polling_interval(&mut self, interval: Option<usize>)
        ensures
            *final(self) == (Config { polling_interval: interval, ..*old(self) }),
    {
        self.polling_interval = interval;
    }

    /// Switches the logging of every reaction on or off.
    pub fn set_verbose_logging(&mut self, logging: bool)
        ensures
            *final(self) == (Config { verbose_logging: logging, ..*old(self) }),
    {
        self.verbose_logging = logging;
    }
}

impl Default for Reactor {
    fn default() -> (cfg: Self)
        ensures
            cfg.rules@.len() == 1,
            cfg.rules@[0]@ == default_rule_text(),
            cfg.discard_copy_actions,
            cfg.discard_identity,
            cfg.discard_free_variable_expressions,
            cfg.maintain_constant_population_size,
            !cfg.discard_parents,
            cfg.reduction_cutoff == 500,
            cfg.size_cutoff == 500,
            cfg.seed.0 is None,
    {
        Reactor::new()
    }
}

} // verus!
