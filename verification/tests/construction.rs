use alchemy::config::{ConfigSeed, Reactor};
use alchemy::soup::{ConfigError, Soup};
use lambda_calculus::{abs, app, parse, Classic, Term};

fn seeded() -> Reactor {
    let mut cfg = Reactor::new();
    cfg.seed = ConfigSeed::new([0; 32]);
    cfg
}

#[test]
fn default_configuration_has_the_documented_values() {
    let cfg = Reactor::new();
    assert_eq!(cfg.rules, vec![String::from("\\x.\\y.x y")]);
    assert!(cfg.discard_copy_actions);
    assert!(cfg.discard_identity);
    assert!(cfg.discard_free_variable_expressions);
    assert!(cfg.maintain_constant_population_size);
    assert!(!cfg.discard_parents);
    assert_eq!(cfg.reduction_cutoff, 500);
    assert_eq!(cfg.size_cutoff, 500);
    assert!(cfg.seed.0.is_none());
}

#[test]
fn configured_seed_is_returned() {
    let mut seed = [0u8; 32];
    seed[0] = 7;
    seed[31] = 9;
    assert_eq!(ConfigSeed::new(seed).get(), seed);
}

#[test]
fn default_rule_text_parses_to_the_default_rule() {
    let parsed = parse("\\x.\\y.x y", Classic).unwrap();
    assert_eq!(parsed, abs(abs(app(Term::Var(2), Term::Var(1)))));
    assert_eq!(alchemy::term::apply_left_to_right(), parsed);
}

#[test]
fn new_soup_is_empty() {
    let soup = Soup::new();
    assert_eq!(soup.len(), 0);
    assert_eq!(soup.collisions(), 0);
}

#[test]
fn from_config_rejects_an_unparsable_rule() {
    let mut cfg = seeded();
    cfg.rules = vec![String::from("\\x.\\y.x y"), String::from("\\x.(")];
    assert_eq!(Soup::from_config(&cfg).err(), Some(ConfigError::UnparsableRule(1)));
}

#[test]
fn from_config_rejects_zero_cutoffs_and_empty_rules() {
    let mut cfg = seeded();
    cfg.reduction_cutoff = 0;
    assert_eq!(Soup::from_config(&cfg).err(), Some(ConfigError::ZeroReductionCutoff));
    let mut cfg = seeded();
    cfg.size_cutoff = 0;
    assert_eq!(Soup::from_config(&cfg).err(), Some(ConfigError::ZeroSizeCutoff));
    let mut cfg = seeded();
    cfg.rules = Vec::new();
    assert_eq!(Soup::from_config(&cfg).err(), Some(ConfigError::NoRules));
}

#[test]
fn from_config_rejects_a_rule_of_one_argument() {
    let mut cfg = seeded();
    cfg.rules = vec![String::from("\\x.x")];
    assert_eq!(Soup::from_config(&cfg).err(), Some(ConfigError::NotACombinator(0)));
}

#[test]
fn perturb_turns_open_terms_away() {
    let mut soup = Soup::from_config(&seeded()).unwrap();
    let closed = abs(Term::Var(1));
    let open = abs(Term::Var(2));
    soup.perturb(vec![closed.clone(), open, Term::Var(0), closed.clone()]);
    assert_eq!(soup.len(), 2);
    assert_eq!(soup.expressions(), &vec![closed.clone(), closed]);
}

#[test]
fn from_config_parses_every_rule() {
    let mut cfg = seeded();
    cfg.rules = vec![String::from("\\x.\\y.y x"), String::from("λa.λb.λc.a")];
    let soup = Soup::from_config(&cfg).unwrap();
    assert_eq!(
        soup.rules(),
        &vec![
            abs(abs(app(Term::Var(1), Term::Var(2)))),
            abs(abs(abs(Term::Var(3)))),
        ]
    );
}

#[test]
fn from_config_rejects_a_rule_with_a_free_variable() {
    let cfg = seeded();
    let open = abs(abs(app(Term::Var(3), Term::Var(1))));
    assert_eq!(
        Soup::with_rules(&cfg, vec![open], [0; 32]).err(),
        Some(ConfigError::NotACombinator(0))
    );
    let fine = abs(abs(app(Term::Var(2), Term::Var(1))));
    assert_eq!(
        Soup::with_rules(&cfg, vec![fine.clone(), abs(Term::Var(1))], [0; 32]).err(),
        Some(ConfigError::NotACombinator(1))
    );
    assert!(Soup::with_rules(&cfg, vec![fine], [0; 32]).is_ok());
}

#[test]
fn budget_for_reactions_is_checked_against_the_counter() {
    let soup = Soup::from_config(&seeded()).unwrap();
    assert!(soup.has_room_for(0));
    assert!(soup.has_room_for(usize::MAX));
    let mut cfg = seeded();
    cfg.rules = vec![String::from("\\x.\\y.x y"), String::from("\\x.\\y.y x")];
    let two = Soup::from_config(&cfg).unwrap();
    assert!(two.has_room_for(usize::MAX / 2));
    assert!(!two.has_room_for(usize::MAX / 2 + 1));
}

#[test]
fn seed_text_is_64_hexadecimal_digits() {
    let mut seed = [0u8; 32];
    seed[0] = 0xab;
    seed[1] = 0x01;
    seed[31] = 0xf0;
    let text = ConfigSeed::new(seed).to_hex().unwrap();
    assert_eq!(text.len(), 64);
    assert_eq!(&text[..4], b"ab01");
    assert_eq!(&text[62..], b"f0");
    assert_eq!(ConfigSeed::from_hex(&text).unwrap().0, Some(seed));
    assert_eq!(ConfigSeed(None).to_hex(), None);
}

#[test]
fn seed_text_is_read_in_either_case_and_checked() {
    let lower = [b'c'; 64];
    let upper = [b'C'; 64];
    assert_eq!(ConfigSeed::from_hex(&lower).unwrap().0, Some([0xcc; 32]));
    assert_eq!(ConfigSeed::from_hex(&upper).unwrap().0, Some([0xcc; 32]));
    assert!(ConfigSeed::from_hex(&[b'0'; 63]).is_none());
    assert!(ConfigSeed::from_hex(&[b'0'; 65]).is_none());
    let mut wrong = [b'0'; 64];
    wrong[63] = b'g';
    assert!(ConfigSeed::from_hex(&wrong).is_none());
    assert!(ConfigSeed::from_hex(b"").is_none());
}

#[test]
fn an_absent_seed_gives_fresh_bytes_each_time() {
    let absent = ConfigSeed(None);
    assert_ne!(absent.get(), absent.get());
}

#[test]
fn the_default_soup_has_the_default_rule() {
    let soup = Soup::default();
    assert_eq!(soup.len(), 0);
    assert_eq!(soup.rules(), &vec![abs(abs(app(Term::Var(2), Term::Var(1))))]);
    assert!(soup.has_room_for(1));
}
