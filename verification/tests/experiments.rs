use alchemy::analysis::frequency_series;
use alchemy::config::{ConfigSeed, Reactor};
use alchemy::experiments::{
    experiment_reactor, holds_isomorphic, not_xorset_test, pairwise_compare, seed_of_id,
    xorset_test,
};
use alchemy::soup::Soup;
use lambda_calculus::{parse, Classic, Term};

fn term(text: &str) -> Term {
    parse(text, Classic).unwrap()
}

fn soup_of(terms: Vec<Term>) -> Soup {
    let mut cfg = Reactor::new();
    cfg.seed = ConfigSeed::new([0; 32]);
    let mut soup = Soup::from_config(&cfg).unwrap();
    soup.perturb(terms);
    soup
}

#[test]
fn experiment_reactor_has_the_settings_of_the_experiments() {
    let cfg = experiment_reactor([4; 32]);
    assert_eq!(cfg.rules, vec![String::from("\\x.\\y.x y")]);
    assert!(!cfg.discard_copy_actions);
    assert!(!cfg.discard_identity);
    assert!(cfg.discard_free_variable_expressions);
    assert!(cfg.maintain_constant_population_size);
    assert!(!cfg.discard_parents);
    assert_eq!(cfg.reduction_cutoff, 512);
    assert_eq!(cfg.size_cutoff, 1024);
    assert_eq!(cfg.seed.0, Some([4; 32]));
    assert!(Soup::from_config(&cfg).is_ok());
}

#[test]
fn seed_of_id_holds_the_id_lowest_byte_first() {
    assert_eq!(seed_of_id(0), [0u8; 32]);
    let seed = seed_of_id(0x0102_0304);
    assert_eq!(&seed[..5], &[4, 3, 2, 1, 0]);
    assert!(seed[5..].iter().all(|b| *b == 0));
    let id = usize::MAX;
    let mut expected = [0u8; 32];
    let bytes = id.to_le_bytes();
    expected[..bytes.len()].copy_from_slice(&bytes);
    assert_eq!(seed_of_id(id), expected);
    let mut expected = [0u8; 32];
    let bytes = 999usize.to_le_bytes();
    expected[..bytes.len()].copy_from_slice(&bytes);
    assert_eq!(seed_of_id(999), expected);
}

#[test]
fn holds_isomorphic_finds_an_expression_of_the_population() {
    let soup = soup_of(vec![term("\\x.\\y.x"), term("\\x.x x")]);
    assert!(holds_isomorphic(&soup, &term("\\a.a a")));
    assert!(!holds_isomorphic(&soup, &term("\\a.a")));
}

#[test]
fn xorset_needs_two_different_expressions() {
    let a = term("\\x.\\y.x");
    assert!(!xorset_test(&a, &a));
    assert!(!not_xorset_test(&a, &a));
}

#[test]
fn truth_values_form_no_xorset() {
    // `f f` gives the identity, which is neither of the two.
    let t = term("\\x.\\y.x");
    let f = term("\\x.\\y.y");
    assert!(!xorset_test(&f, &t));
    assert!(!xorset_test(&t, &f));
    assert!(!not_xorset_test(&f, &t));
    assert!(!not_xorset_test(&t, &f));
}

#[test]
fn pairwise_compare_returns_the_first_pair_that_passes() {
    let terms = vec![term("\\x.x"), term("\\x.\\y.x"), term("\\x.\\y.y")];
    let different = |a: &Term, b: &Term| !a.is_isomorphic_to(b);
    assert_eq!(
        pairwise_compare(&terms, different, false),
        Some((terms[0].clone(), terms[1].clone()))
    );
    assert_eq!(
        pairwise_compare(&terms, different, true),
        Some((terms[1].clone(), terms[0].clone()))
    );
    assert_eq!(pairwise_compare(&terms, |_: &Term, _: &Term| false, false), None);
    assert_eq!(pairwise_compare(&Vec::new(), |_: &Term, _: &Term| true, false), None);
}

#[test]
fn symmetric_comparison_looks_at_half_of_the_pairs() {
    let terms = vec![term("\\x.x"), term("\\x.\\y.x"), term("\\x.\\y.y")];
    let seen = std::cell::RefCell::new(Vec::new());
    let spy = |a: &Term, b: &Term| {
        seen.borrow_mut().push((a.clone(), b.clone()));
        false
    };
    assert_eq!(pairwise_compare(&terms, &spy, true), None);
    assert_eq!(seen.borrow().len(), 6);
    assert_eq!(seen.borrow()[1], (terms[1].clone(), terms[0].clone()));
    assert_eq!(seen.borrow()[2], (terms[1].clone(), terms[1].clone()));
    seen.borrow_mut().clear();
    assert_eq!(pairwise_compare(&terms, &spy, false), None);
    assert_eq!(seen.borrow().len(), 9);
}

#[test]
fn frequency_series_lines_the_polls_up() {
    let a = term("\\x.\\y.x");
    let b = term("\\x.\\y.y");
    let c = term("\\x.x x");
    let polls = vec![
        soup_of(vec![a.clone(), a.clone(), b.clone()]).expression_counts(),
        soup_of(vec![c.clone(), a.clone()]).expression_counts(),
        soup_of(Vec::new()).expression_counts(),
        soup_of(vec![b.clone(), b.clone(), b.clone(), c.clone()]).expression_counts(),
    ];
    let table = frequency_series(&polls);
    assert_eq!(table.len(), 3);
    assert_eq!(table.term(0), &a);
    assert_eq!(table.term(1), &b);
    assert_eq!(table.term(2), &c);
    assert_eq!(table.series(0), &vec![2, 1, 0, 0]);
    assert_eq!(table.series(1), &vec![1, 0, 0, 3]);
    assert_eq!(table.series(2), &vec![0, 1, 0, 1]);
    assert_eq!(frequency_series(&Vec::new()).len(), 0);
}
