use alchemy::config::{
    BTreeGen as BTreeGenConfig, Config, ConfigSeed, FontanaGen as FontanaGenConfig, GenConfig,
    Generator, Probability, Reactor,
};
use alchemy::generators::{
    generate_expressions_and_seed_soup, usable_generator, BTree, BTreeGen, FontanaGen,
    Standardization,
};
use alchemy::rng::ReactorRng;
use alchemy::soup::ConfigError;
use alchemy::term::term_size;
use lambda_calculus::{abs, app, Term};
use rand::seq::SliceRandom;
use rand::{Rng, SeedableRng};
use rand_chacha::ChaCha8Rng;

fn seeded(seed: u8, standardization: Standardization) -> BTreeGenConfig {
    let mut cfg = <BTreeGenConfig as GenConfig>::new();
    cfg.seed = ConfigSeed::new([seed; 32]);
    cfg.standardization = standardization;
    cfg
}

fn in_order(tree: &BTree, keys: &mut Vec<u32>) {
    if let Some(left) = &tree.left {
        in_order(left, keys);
    }
    keys.push(tree.n);
    if let Some(right) = &tree.right {
        in_order(right, keys);
    }
}

fn leaf(n: u32) -> Option<Box<BTree>> {
    Some(Box::new(BTree::new(n)))
}

#[test]
fn generator_configurations_have_the_documented_defaults() {
    let tree = <BTreeGenConfig as GenConfig>::new();
    assert_eq!(tree.size, 20);
    assert_eq!(tree.freevar_generation_probability, Probability::new(1, 5));
    assert_eq!(tree.n_max_free_vars, 6);
    assert_eq!(tree.standardization, Standardization::Prefix);
    assert!(tree.seed.0.is_none());
    let fontana = <FontanaGenConfig as GenConfig>::new();
    assert_eq!(fontana.max_depth, 10);
    assert_eq!(fontana.n_max_free_vars, 6);
    assert_eq!(
        fontana.application_prob_range,
        (Probability::new(3, 10), Probability::new(1, 2))
    );
    assert_eq!(
        fontana.abstraction_prob_range,
        (Probability::new(1, 2), Probability::new(3, 10))
    );
}

#[test]
fn run_configuration_has_the_documented_defaults() {
    let cfg = Config::new();
    assert_eq!(cfg.run_limit, 100000);
    assert_eq!(cfg.sample_size, 1000);
    assert_eq!(cfg.polling_interval, None);
    assert!(!cfg.verbose_logging);
    assert!(matches!(cfg.generator_config, Generator::BTree(_)));
    assert_eq!(cfg.reactor_config.rules, Reactor::new().rules);
    assert_eq!(cfg.reactor_config.reduction_cutoff, 500);
}

#[test]
fn setters_change_one_setting() {
    let mut cfg = Config::new();
    cfg.set_reduction_cutoff(7);
    cfg.set_run_limit(11);
    cfg.set_polling_interval(Some(13));
    cfg.set_verbose_logging(true);
    assert_eq!(cfg.reactor_config.reduction_cutoff, 7);
    assert_eq!(cfg.reactor_config.size_cutoff, 500);
    assert_eq!(cfg.run_limit, 11);
    assert_eq!(cfg.polling_interval, Some(13));
    assert!(cfg.verbose_logging);
    assert_eq!(cfg.sample_size, 1000);
    cfg.set_polling_interval(None);
    assert_eq!(cfg.polling_interval, None);
}

#[test]
fn probabilities_are_ratios_between_zero_and_one() {
    assert!(Probability::new(0, 1).is_valid());
    assert!(Probability::new(1, 5).is_valid());
    assert!(Probability::new(5, 5).is_valid());
    assert!(!Probability::new(6, 5).is_valid());
    assert!(!Probability::new(0, 0).is_valid());
}

#[test]
fn insertion_goes_left_for_keys_that_are_not_greater() {
    let mut tree = BTree::new(5);
    tree.insert(3);
    tree.insert(8);
    tree.insert(5);
    tree.insert(4);
    tree.insert(9);
    assert_eq!(tree.n, 5);
    let left = tree.left.as_ref().unwrap();
    assert_eq!(left.n, 3);
    assert!(left.left.is_none());
    let left_right = left.right.as_ref().unwrap();
    assert_eq!(left_right.n, 5);
    assert_eq!(left_right.left.as_ref().unwrap().n, 4);
    assert!(left_right.right.is_none());
    let right = tree.right.as_ref().unwrap();
    assert_eq!(right.n, 8);
    assert!(right.left.is_none());
    assert_eq!(right.right.as_ref().unwrap().n, 9);
}

#[test]
fn a_tree_gives_an_expression_of_its_shape() {
    let tree = BTree {
        n: 4,
        left: Some(Box::new(BTree { n: 2, left: leaf(1), right: leaf(3) })),
        right: Some(Box::new(BTree { n: 6, left: None, right: leaf(7) })),
    };
    let mut rng = ReactorRng::from_seed([5; 32]);
    // With a probability of zero a leaf is free only where nothing binds.
    let t = tree.to_lambda(&mut rng, Probability::new(0, 1), 1);
    assert_eq!(t, app(app(Term::Var(1), Term::Var(1)), abs(Term::Var(1))));
    assert_eq!(term_size(&t), Some(6));
    let mut rng = ReactorRng::from_seed([5; 32]);
    // With a probability of one every leaf is free.
    let t = tree.to_lambda(&mut rng, Probability::new(1, 1), 1);
    assert_eq!(t, app(app(Term::Var(1), Term::Var(1)), abs(Term::Var(2))));
}

#[test]
fn leaves_follow_the_random_stream() {
    let tree = BTree { n: 1, left: leaf(0), right: leaf(2) };
    let seed = [21u8; 32];
    let mut reference = ChaCha8Rng::from_seed(seed);
    let mut expected = Vec::new();
    for _ in 0..2 {
        let _ = reference.gen_ratio(1, 5);
        expected.push(Term::Var(reference.gen_range(1..=6u32) as usize));
    }
    let mut rng = ReactorRng::from_seed(seed);
    let t = tree.to_lambda(&mut rng, Probability::new(1, 5), 6);
    assert_eq!(t, app(expected[0].clone(), expected[1].clone()));
}

#[test]
fn shuffle_follows_the_random_stream() {
    let seed = [3u8; 32];
    let mut reference = ChaCha8Rng::from_seed(seed);
    let mut expected: Vec<u32> = (0..50).collect();
    expected.shuffle(&mut reference);
    let next: usize = reference.gen_range(0..1000);
    let mut rng = ReactorRng::from_seed(seed);
    let mut items: Vec<u32> = (0..50).collect();
    rng.shuffle(&mut items);
    assert_eq!(items, expected);
    assert_ne!(items, (0..50).collect::<Vec<u32>>());
    assert_eq!(rng.below(1000), next);
}

#[test]
fn chance_and_range_follow_the_random_stream() {
    let seed = [8u8; 32];
    let mut reference = ChaCha8Rng::from_seed(seed);
    let mut rng = ReactorRng::from_seed(seed);
    for round in 0..300u32 {
        assert_eq!(rng.chance(round % 7, 7), reference.gen_ratio(round % 7, 7));
        let high = 1 + round % 13;
        assert_eq!(rng.between(1, high), reference.gen_range(1..=high));
    }
    assert!(rng.chance(4, 4));
    assert!(!rng.chance(0, 4));
    assert_eq!(rng.between(9, 9), 9);
}

#[test]
fn generated_expressions_have_the_size_of_the_tree() {
    let mut gen = BTreeGen::from_config(&seeded(0, Standardization::Unchanged));
    assert!(gen.ready());
    for _ in 0..50 {
        let t = gen.generate();
        assert_eq!(term_size(&t), Some(20));
    }
}

#[test]
fn prefix_standardization_closes_every_expression() {
    let mut gen = BTreeGen::from_config(&seeded(0, Standardization::Prefix));
    let batch = gen.generate_n(200);
    assert_eq!(batch.len(), 200);
    assert!(batch.iter().all(|t| !t.has_free_variables()));
    assert!(batch.iter().any(|t| term_size(t) != Some(20)));
}

#[test]
fn prefix_standardization_adds_exactly_the_missing_abstractions() {
    let open = app(Term::Var(3), abs(Term::Var(2)));
    assert_eq!(BTreeGen::prefix_standardize(open.clone()), abs(abs(abs(open))));
    let closed = abs(Term::Var(1));
    assert_eq!(BTreeGen::prefix_standardize(closed.clone()), closed);
}

#[test]
fn standardization_only_wraps_the_raw_expression() {
    let mut raw = BTreeGen::from_config(&seeded(4, Standardization::Unchanged));
    let mut closed = BTreeGen::from_config(&seeded(4, Standardization::Prefix));
    for _ in 0..20 {
        assert_eq!(closed.generate(), BTreeGen::prefix_standardize(raw.generate()));
    }
}

#[test]
fn equal_seeds_give_equal_expressions() {
    let mut a = BTreeGen::from_config(&seeded(1, Standardization::Prefix));
    let mut b = BTreeGen::from_config(&seeded(1, Standardization::Prefix));
    let mut c = BTreeGen::from_config(&seeded(2, Standardization::Prefix));
    let from_a = a.generate_n(30);
    assert_eq!(from_a, b.generate_n(30));
    assert_ne!(from_a, c.generate_n(30));
}

#[test]
fn unusable_settings_are_recognised() {
    let mut cfg = seeded(0, Standardization::Prefix);
    cfg.size = 0;
    assert!(!BTreeGen::from_config(&cfg).ready());
    let mut cfg = seeded(0, Standardization::Prefix);
    cfg.n_max_free_vars = 0;
    assert!(!BTreeGen::from_config(&cfg).ready());
    let mut cfg = seeded(0, Standardization::Prefix);
    cfg.freevar_generation_probability = Probability::new(3, 2);
    assert!(!BTreeGen::from_config(&cfg).ready());
    assert!(!BTreeGen::from_config(&seeded(0, Standardization::Postfix)).ready());
    let mut cfg = seeded(0, Standardization::Prefix);
    cfg.size = u32::MAX;
    assert!(!BTreeGen::from_config(&cfg).ready());
    assert!(BTreeGen::new().ready());
}

#[test]
fn fontana_generator_produces_nothing() {
    let gen = FontanaGen::from_config(&<FontanaGenConfig as GenConfig>::new());
    assert_eq!(gen.generate(), None);
}

#[test]
fn seeding_fills_the_soup_with_the_sample() {
    let mut cfg = Config::new();
    cfg.sample_size = 40;
    cfg.generator_config = Generator::BTree(seeded(0, Standardization::Prefix));
    cfg.reactor_config.seed = ConfigSeed::new([0; 32]);
    let soup = generate_expressions_and_seed_soup(&cfg).unwrap();
    let mut gen = BTreeGen::from_config(&seeded(0, Standardization::Prefix));
    assert_eq!(soup.expressions(), &gen.generate_n(40));
    cfg.generator_config = Generator::Fontana(<FontanaGenConfig as GenConfig>::new());
    assert_eq!(generate_expressions_and_seed_soup(&cfg).unwrap().len(), 0);
    cfg.reactor_config.rules = Vec::new();
    assert_eq!(generate_expressions_and_seed_soup(&cfg).err(), Some(ConfigError::NoRules));
}

#[test]
fn a_ratio_draws_as_the_probability_it_stands_for() {
    let seed = [13u8; 32];
    let mut reference = ChaCha8Rng::from_seed(seed);
    let mut fifths = ReactorRng::from_seed(seed);
    let mut billionths = ReactorRng::from_seed(seed);
    for _ in 0..500 {
        let expected = reference.gen_bool(0.2);
        assert_eq!(fifths.chance(1, 5), expected);
        assert_eq!(billionths.chance(200_000_000, 1_000_000_000), expected);
    }
}

#[test]
fn usable_settings_are_told_from_the_configuration() {
    assert!(usable_generator(&seeded(0, Standardization::Prefix)));
    assert!(usable_generator(&seeded(0, Standardization::Unchanged)));
    assert!(!usable_generator(&seeded(0, Standardization::Postfix)));
    let mut cfg = seeded(0, Standardization::Prefix);
    cfg.size = 0;
    assert!(!usable_generator(&cfg));
}

#[test]
fn the_tree_of_a_permutation_is_a_search_tree() {
    let mut rng = ReactorRng::from_seed([6; 32]);
    let mut keys: Vec<u32> = (0..64).collect();
    rng.shuffle(&mut keys);
    let mut tree = BTree::new(keys[0]);
    for key in &keys[1..] {
        tree.insert(*key);
    }
    let mut sorted = Vec::new();
    in_order(&tree, &mut sorted);
    assert_eq!(sorted, (0..64).collect::<Vec<u32>>());
}
