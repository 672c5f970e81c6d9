use alchemy::config::{ConfigSeed, Reactor};
use alchemy::soup::Soup;
use lambda_calculus::{abs, app, parse, Classic, Term};

fn term(text: &str) -> Term {
    parse(text, Classic).unwrap()
}

fn soup_of(terms: Vec<Term>) -> Soup {
    let mut cfg = Reactor::new();
    cfg.seed = ConfigSeed::new([0; 32]);
    let mut soup = Soup::from_config(&cfg).unwrap();
    soup.perturb(terms);
    soup
}

fn numeral(n: usize) -> Term {
    let mut body = Term::Var(1);
    for _ in 0..n {
        body = app(Term::Var(2), body);
    }
    abs(abs(body))
}

fn entropy(soup: &Soup) -> f32 {
    let counts = soup.expression_counts();
    let n = soup.len() as f32;
    let mut h = 0.0f32;
    for i in 0..counts.len() {
        let p = counts.entry(i).1 as f32 / n;
        h -= p * p.log10();
    }
    h
}

fn sample() -> Soup {
    let a = term("\\x.\\y.x");
    let b = term("\\x.\\y.y");
    let c = term("\\x.x x");
    let d = term("\\x.\\y.\\z.z");
    // a: 2, b: 3, c: 3, d: 1; first seen in the order b, a, c, d.
    soup_of(vec![
        b.clone(),
        a.clone(),
        c.clone(),
        b.clone(),
        c.clone(),
        d,
        a,
        c,
        b,
    ])
}

#[test]
fn unique_expressions_keep_the_order_of_first_sight() {
    assert_eq!(
        sample().unique_expressions(),
        vec![term("\\x.\\y.y"), term("\\x.\\y.x"), term("\\x.x x"), term("\\x.\\y.\\z.z")]
    );
    assert_eq!(soup_of(Vec::new()).unique_expressions(), Vec::<Term>::new());
}

#[test]
fn expression_counts_are_exact() {
    let soup = sample();
    let counts = soup.expression_counts();
    assert_eq!(counts.len(), 4);
    assert_eq!(counts.get(&term("\\x.\\y.x")), 2);
    assert_eq!(counts.get(&term("\\x.\\y.y")), 3);
    assert_eq!(counts.get(&term("\\x.x x")), 3);
    assert_eq!(counts.get(&term("\\x.\\y.\\z.z")), 1);
    assert_eq!(counts.get(&term("\\x.x")), 0);
    assert_eq!(counts.entry(0), (&term("\\x.\\y.y"), 3));
    assert_eq!(counts.entry(3), (&term("\\x.\\y.\\z.z"), 1));
    let total: u32 = (0..counts.len()).map(|i| counts.entry(i).1).sum();
    assert_eq!(total as usize, soup.len());
}

#[test]
fn most_frequent_expressions_are_ranked_by_count_then_first_sight() {
    let soup = sample();
    let b = term("\\x.\\y.y");
    let c = term("\\x.x x");
    let a = term("\\x.\\y.x");
    let d = term("\\x.\\y.\\z.z");
    assert_eq!(soup.k_most_frequent_exprs(0), Vec::<Term>::new());
    assert_eq!(soup.k_most_frequent_exprs(1), vec![b.clone()]);
    assert_eq!(soup.k_most_frequent_exprs(2), vec![b.clone(), c.clone()]);
    assert_eq!(soup.k_most_frequent_exprs(3), vec![b.clone(), c.clone(), a.clone()]);
    assert_eq!(soup.k_most_frequent_exprs(4), vec![b.clone(), c.clone(), a.clone(), d.clone()]);
    assert_eq!(soup.k_most_frequent_exprs(10), vec![b, c, a, d]);
}

#[test]
fn top_k_is_a_prefix_of_the_ranking() {
    let mut terms = Vec::new();
    for n in 0..12 {
        for _ in 0..(1 + (n * 5) % 7) {
            terms.push(numeral(n));
        }
    }
    let soup = soup_of(terms);
    let counts = soup.expression_counts();
    let all = soup.k_most_frequent_exprs(12);
    assert_eq!(all.len(), 12);
    for k in 0..=12 {
        assert_eq!(soup.k_most_frequent_exprs(k), all[..k].to_vec());
    }
    for pair in all.windows(2) {
        assert!(counts.get(&pair[0]) >= counts.get(&pair[1]));
    }
}

#[test]
fn shared_expressions_count_the_multiset_intersection() {
    let a = term("\\x.\\y.x");
    let b = term("\\x.\\y.y");
    let c = term("\\x.x x");
    let left = soup_of(vec![a.clone(), a.clone(), a.clone(), b.clone(), c.clone()]);
    let right = soup_of(vec![a.clone(), b.clone(), b.clone(), b.clone()]);
    assert_eq!(left.shared_expressions(&right), 2);
    assert_eq!(right.shared_expressions(&left), 2);
    assert_eq!(left.shared_expressions(&left), 5);
    assert_eq!(right.shared_expressions(&right), 4);
    let empty = soup_of(Vec::new());
    assert_eq!(left.shared_expressions(&empty), 0);
    assert_eq!(empty.shared_expressions(&left), 0);
    let apart = soup_of(vec![term("\\x.\\y.\\z.z")]);
    assert_eq!(left.shared_expressions(&apart), 0);
}

#[test]
fn jaccard_index_lies_between_zero_and_a_half() {
    let a = term("\\x.\\y.x");
    let b = term("\\x.\\y.y");
    let left = soup_of(vec![a.clone(), a.clone(), b.clone()]);
    let right = soup_of(vec![a.clone(), b.clone(), b.clone(), b.clone()]);
    let index = |x: &Soup, y: &Soup| x.shared_expressions(y) as f32 / (x.len() + y.len()) as f32;
    assert_eq!(index(&left, &right), 2.0 / 7.0);
    assert_eq!(index(&left, &right), index(&right, &left));
    assert_eq!(index(&left, &left), 0.5);
    assert!(index(&left, &right) >= 0.0 && index(&left, &right) <= 0.5);
}

#[test]
fn entropy_of_uniform_soup() {
    let soup = soup_of((0..100).map(numeral).collect());
    let counts = soup.expression_counts();
    assert_eq!(counts.len(), 100);
    for i in 0..100 {
        assert_eq!(counts.entry(i).1, 1);
    }
    assert!((entropy(&soup) - 2.0).abs() < 1e-4);
}

#[test]
fn entropy_is_zero_when_all_expressions_are_the_same() {
    let soup = soup_of(vec![numeral(3); 50]);
    assert_eq!(soup.unique_expressions().len(), 1);
    assert_eq!(entropy(&soup), 0.0);
}

#[test]
fn entropy_is_bounded_by_the_logarithm_of_the_unique_expressions() {
    let soup = sample();
    let h = entropy(&soup);
    let bound = (soup.unique_expressions().len() as f32).log10();
    assert!(h >= 0.0 && h <= bound + 1e-6);
    let expected = -(2.0f32 / 9.0 * (2.0f32 / 9.0).log10()
        + 2.0 * (3.0f32 / 9.0 * (3.0f32 / 9.0).log10())
        + 1.0f32 / 9.0 * (1.0f32 / 9.0).log10());
    assert!((h - expected).abs() < 1e-6);
}
