use alchemy::config::{ConfigSeed, Reactor};
use alchemy::reaction::ReactionError;
use alchemy::soup::{Soup, Tape};
use lambda_calculus::{abs, app, parse, Classic, Term};

fn term(text: &str) -> Term {
    parse(text, Classic).unwrap()
}

fn default_config() -> Reactor {
    let mut cfg = Reactor::new();
    cfg.seed = ConfigSeed::new([0; 32]);
    cfg
}

fn soup_of(cfg: &Reactor, terms: Vec<Term>) -> Soup {
    let mut soup = Soup::from_config(cfg).unwrap();
    soup.perturb(terms);
    soup
}

fn sorted(terms: &[Term]) -> Vec<String> {
    let mut names: Vec<String> = terms.iter().map(|t| format!("{:?}", t)).collect();
    names.sort();
    names
}

/// A family of different closed terms in normal form.
fn numeral(n: usize) -> Term {
    let mut body = Term::Var(1);
    for _ in 0..n {
        body = app(Term::Var(2), body);
    }
    abs(abs(body))
}

#[test]
fn identity_rejection() {
    let mut soup = soup_of(&default_config(), vec![term("\\x.x"), term("\\x.x")]);
    let outcome = soup.react();
    assert_eq!(outcome.err(), Some(ReactionError::IsIdentity));
    assert_eq!(soup.len(), 2);
    assert_eq!(sorted(soup.expressions()), sorted(&[term("\\x.x"), term("\\x.x")]));
    assert_eq!(soup.collisions(), 1);
}

#[test]
fn identity_takes_precedence_over_parent() {
    let soup = soup_of(&default_config(), Vec::new());
    let rule = term("\\x.\\y.x y");
    let left = term("\\x.\\y.y");
    let right = term("\\x.x");
    assert_eq!(soup.collide(&rule, &left, &right).err(), Some(ReactionError::IsIdentity));
    assert_eq!(
        soup.screen(&term("\\y.y"), &left, &right),
        Some(ReactionError::IsIdentity)
    );
}

#[test]
fn parent_rejection() {
    let soup = soup_of(&default_config(), Vec::new());
    let rule = term("\\x.\\y.x y");
    let left = term("\\x.x");
    let right = term("\\x.\\y.y");
    assert_eq!(soup.collide(&rule, &left, &right).err(), Some(ReactionError::IsParent));
    let mut cfg = default_config();
    cfg.discard_copy_actions = false;
    let lenient = soup_of(&cfg, Vec::new());
    let (product, steps) = lenient.collide(&rule, &left, &right).unwrap();
    assert_eq!(product, right);
    assert!(steps >= 1);
}

#[test]
fn identity_rejection_comes_before_parent_rejection_in_a_reaction() {
    // The product of `\\x.\\y.y` applied to `\\x.x` is the identity and a copy of the right parent.
    let mut soup = soup_of(&default_config(), vec![term("\\x.x"), term("\\x.\\y.y")]);
    assert_eq!(soup.react().err(), Some(ReactionError::IsIdentity));
    assert_eq!(soup.len(), 2);
    assert_eq!(soup.collisions(), 1);
    // With the parents the other way round the product is a copy of the right parent only.
    let mut swapped = soup_of(&default_config(), vec![term("\\x.\\y.y"), term("\\x.x")]);
    assert_eq!(swapped.react().err(), Some(ReactionError::IsParent));
    assert_eq!(swapped.len(), 2);
}

#[test]
fn free_variable_rejection() {
    let soup = soup_of(&default_config(), Vec::new());
    let left = term("\\x.\\y.x");
    let right = term("\\x.\\y.\\z.x");
    let open = abs(Term::Var(2));
    assert_eq!(soup.screen(&open, &left, &right), Some(ReactionError::HasFreeVariables));
    assert_eq!(soup.screen(&term("\\x.x x"), &left, &right), None);
    let mut cfg = default_config();
    cfg.discard_free_variable_expressions = false;
    assert_eq!(soup_of(&cfg, Vec::new()).screen(&open, &left, &right), None);
}

#[test]
fn filters_can_be_switched_off() {
    let mut cfg = default_config();
    cfg.discard_identity = false;
    cfg.discard_copy_actions = false;
    let soup = soup_of(&cfg, Vec::new());
    let id = term("\\x.x");
    assert_eq!(soup.screen(&id, &id, &id), None);
    cfg.discard_copy_actions = true;
    let soup = soup_of(&cfg, Vec::new());
    assert_eq!(soup.screen(&id, &id, &term("\\x.\\y.x")), Some(ReactionError::IsParent));
    assert_eq!(soup.screen(&id, &term("\\x.\\y.x"), &id), Some(ReactionError::IsParent));
}

#[test]
fn reduction_limit() {
    let mut cfg = default_config();
    cfg.reduction_cutoff = 1;
    let mut soup = soup_of(&cfg, vec![term("\\x.\\y.x"), term("\\x.\\y.\\z.x")]);
    assert_eq!(soup.react().err(), Some(ReactionError::ExceedsReductionLimit));
    assert_eq!(soup.len(), 2);
}

#[test]
fn size_limit() {
    let mut cfg = default_config();
    cfg.size_cutoff = 1;
    let mut soup = soup_of(&cfg, vec![term("\\x.\\y.x"), term("\\x.\\y.\\z.x")]);
    assert_eq!(soup.react().err(), Some(ReactionError::ExceedsDepthLimit));
    assert_eq!(soup.len(), 2);
}

#[test]
fn not_enough_expressions() {
    let mut soup = soup_of(&default_config(), Vec::new());
    assert_eq!(soup.react().err(), Some(ReactionError::NotEnoughExpressions));
    soup.perturb(vec![term("\\x.x")]);
    assert_eq!(soup.react().err(), Some(ReactionError::NotEnoughExpressions));
    assert_eq!(soup.len(), 1);
    assert_eq!(soup.collisions(), 0);
}

#[test]
fn successful_reaction_reports_its_collisions() {
    let mut cfg = default_config();
    cfg.maintain_constant_population_size = false;
    // K applied to S gives `\y.S`, which is neither parent nor the identity.
    let k = term("\\x.\\y.x");
    let mut soup = soup_of(&cfg, vec![k.clone(), k.clone()]);
    let report = soup.react().unwrap();
    assert_eq!(report.collision_results.len(), 1);
    assert_eq!(report.left_size, 2);
    assert_eq!(report.right_size, 2);
    assert_eq!(report.collision_results[0].size, 3);
    assert!(report.collision_results[0].reductions >= 1);
    assert_eq!(soup.len(), 3);
    assert_eq!(soup.collisions(), 1);
    assert_eq!(
        sorted(soup.expressions()),
        sorted(&[k.clone(), k.clone(), term("\\y.\\a.\\b.a")])
    );
}

#[test]
fn population_size_is_constant_when_parents_are_kept() {
    let k = term("\\x.\\y.x");
    let mut soup = soup_of(&default_config(), vec![k.clone(), k.clone(), k.clone(), k.clone()]);
    for _ in 0..20 {
        let before = soup.len();
        let _ = soup.react();
        assert_eq!(soup.len(), before);
    }
}

#[test]
fn discarded_parents_leave_the_population() {
    let mut cfg = default_config();
    cfg.discard_parents = true;
    let k = term("\\x.\\y.x");
    let mut soup = soup_of(&cfg, vec![k.clone(), k.clone(), k.clone(), k.clone()]);
    assert!(soup.react().is_ok());
    assert_eq!(soup.len(), 2);
    let mut failing = soup_of(&cfg, vec![term("\\x.x"), term("\\x.x"), term("\\x.x")]);
    assert_eq!(failing.react().err(), Some(ReactionError::IsIdentity));
    assert_eq!(failing.len(), 1);
}

#[test]
fn population_grows_by_the_rules_when_it_is_not_held_constant() {
    let mut cfg = default_config();
    cfg.maintain_constant_population_size = false;
    cfg.rules = vec![String::from("\\x.\\y.x y"), String::from("\\x.\\y.y x")];
    let k = term("\\x.\\y.x");
    let mut soup = soup_of(&cfg, vec![k.clone(), k.clone(), k.clone()]);
    assert!(soup.react().is_ok());
    assert_eq!(soup.len(), 5);
    assert_eq!(soup.collisions(), 2);
}

#[test]
fn collision_counter_counts_rule_applications() {
    let mut cfg = default_config();
    cfg.rules = vec![
        String::from("\\x.\\y.x y"),
        String::from("\\x.\\y.\\z.z"),
        String::from("\\x.\\y.x y"),
    ];
    let k = term("\\x.\\y.x");
    // The second rule ignores its parents and gives the identity.
    let mut soup = soup_of(&cfg, vec![k.clone(), k.clone()]);
    assert_eq!(soup.react().err(), Some(ReactionError::IsIdentity));
    assert_eq!(soup.collisions(), 2);
    assert_eq!(soup.react().err(), Some(ReactionError::IsIdentity));
    assert_eq!(soup.collisions(), 4);
    cfg.discard_identity = false;
    let mut lenient = soup_of(&cfg, vec![k.clone(), k.clone()]);
    assert!(lenient.react().is_ok());
    assert_eq!(lenient.collisions(), 3);
    assert_eq!(lenient.len(), 2);
}

#[test]
fn population_stays_closed() {
    let mut soup = soup_of(&default_config(), (0..30).map(numeral).collect());
    for _ in 0..200 {
        let _ = soup.react();
        assert!(soup.expressions().iter().all(|t| !t.has_free_variables()));
    }
}

#[test]
fn simulate_for_counts_the_reactions_that_took_place() {
    let mut first = soup_of(&default_config(), (0..30).map(numeral).collect());
    let mut second = soup_of(&default_config(), (0..30).map(numeral).collect());
    let successes = first.simulate_for(100);
    let mut counted = 0;
    for _ in 0..100 {
        if second.react().is_ok() {
            counted += 1;
        }
    }
    assert_eq!(successes, counted);
    assert_eq!(first.expressions(), second.expressions());
    assert_eq!(first.collisions(), 100);
    assert_eq!(first.len(), 30);
}

#[test]
fn snapshot_cadence() {
    let mut soup = soup_of(&default_config(), (0..30).map(numeral).collect());
    let mut shadow = soup_of(&default_config(), (0..30).map(numeral).collect());
    let tape = soup.simulate_and_record(10, 3);
    assert_eq!(tape.history().len(), 4);
    assert_eq!(tape.polling_interval(), 3);
    let mut done = 0;
    for (j, snapshot) in tape.history().iter().enumerate() {
        let upto = j * 3 + 1;
        shadow.simulate_for(upto - done);
        done = upto;
        assert_eq!(snapshot.expressions(), shadow.expressions());
        assert_eq!(snapshot.collisions(), upto);
    }
    assert_eq!(tape.final_state().expressions(), soup.expressions());
    assert_eq!(tape.final_state().collisions(), 10);
}

#[test]
fn snapshots_are_independent_copies() {
    let mut soup = soup_of(&default_config(), (0..30).map(numeral).collect());
    let tape = soup.simulate_and_record(4, 2);
    let first: Vec<Term> = tape.history()[0].expressions().clone();
    soup.simulate_for(50);
    soup.perturb(vec![numeral(77)]);
    assert_eq!(tape.history()[0].expressions(), &first);
    assert_eq!(tape.final_state().len(), 30);
    assert_eq!(soup.len(), 31);
}

#[test]
fn recording_nothing_gives_an_empty_history() {
    let mut soup = soup_of(&default_config(), (0..5).map(numeral).collect());
    let tape = soup.simulate_and_record(0, 3);
    assert_eq!(tape.history().len(), 0);
    assert_eq!(tape.final_state().expressions(), soup.expressions());
}

#[test]
fn runs_are_reproducible() {
    let mut first = soup_of(&default_config(), (0..40).map(numeral).collect());
    let mut second = soup_of(&default_config(), (0..40).map(numeral).collect());
    let a = first.simulate_and_record(60, 7);
    let b = second.simulate_and_record(60, 7);
    assert_eq!(a.history().len(), b.history().len());
    for (x, y) in a.history().iter().zip(b.history().iter()) {
        assert_eq!(x.expressions(), y.expressions());
        assert_eq!(x.collisions(), y.collisions());
    }
    let mut cfg = default_config();
    cfg.seed = ConfigSeed::new([1; 32]);
    let mut third = soup_of(&cfg, (0..40).map(numeral).collect());
    third.simulate_for(60);
    assert_ne!(first.expressions(), third.expressions());
}

#[test]
fn polls_follow_the_cadence() {
    let mut soup = soup_of(&default_config(), (0..30).map(numeral).collect());
    let seen = soup.simulate_and_poll(10, 3, |s: &Soup| s.collisions());
    assert_eq!(seen, vec![1, 4, 7, 10]);
    let seen = soup.simulate_and_poll(7, 1, |s: &Soup| s.len());
    assert_eq!(seen, vec![30; 7]);
    let seen = soup.simulate_and_poll(3, 5, |s: &Soup| s.collisions());
    assert_eq!(seen, vec![18]);
    let seen = soup.simulate_and_poll(0, 5, |s: &Soup| s.collisions());
    assert_eq!(seen, Vec::<usize>::new());
}

#[test]
fn killer_stops_the_run() {
    let mut soup = soup_of(&default_config(), (0..30).map(numeral).collect());
    let seen = soup.simulate_and_poll_with_killer(100, 2, |s: &Soup| {
        (s.collisions(), s.collisions() >= 5)
    });
    assert_eq!(seen, vec![1, 3, 5]);
    assert_eq!(soup.collisions(), 5);
    let mut calm = soup_of(&default_config(), (0..30).map(numeral).collect());
    let seen = calm.simulate_and_poll_with_killer(6, 2, |s: &Soup| (s.collisions(), false));
    assert_eq!(seen, vec![1, 3, 5]);
    assert_eq!(calm.collisions(), 6);
}

#[test]
fn set_limit_changes_the_reduction_limit() {
    let k = term("\\x.\\y.x");
    let mut soup = soup_of(&default_config(), vec![k.clone(), k.clone()]);
    soup.set_limit(1);
    assert_eq!(soup.react().err(), Some(ReactionError::ExceedsReductionLimit));
    soup.set_limit(500);
    assert!(soup.react().is_ok());
}

#[test]
fn clone_is_independent() {
    let mut soup = soup_of(&default_config(), (0..10).map(numeral).collect());
    let copy = soup.clone();
    soup.simulate_for(5);
    assert_eq!(copy.collisions(), 0);
    assert_eq!(copy.len(), 10);
    let mut replay = copy.clone();
    replay.simulate_for(5);
    assert_eq!(replay.expressions(), soup.expressions());
}

#[test]
fn a_tape_holds_what_it_is_made_of() {
    let mut soup = soup_of(&default_config(), (0..10).map(numeral).collect());
    let first = soup.clone();
    soup.simulate_for(3);
    let tape = Tape::new(soup.clone(), vec![first.clone()], 3);
    assert_eq!(tape.polling_interval(), 3);
    assert_eq!(tape.history().len(), 1);
    assert_eq!(tape.history()[0].collisions(), 0);
    assert_eq!(tape.history()[0].expressions(), first.expressions());
    assert_eq!(tape.final_state().collisions(), 3);
    assert_eq!(tape.final_state().expressions(), soup.expressions());
}
