use prosocial::resilience::{decide_truthful, needs_label as status_label, truthful_given};
use prosocial::snapshot::{bar, census, Character, Conduct};
use rand::rngs::StdRng;
use rand::SeedableRng;

fn character(altruistic: bool, honest: bool, level: u8) -> Character {
    Character { altruistic, honest_by_default: honest, needs_met_level: level }
}

#[test]
fn helping_needs_altruism_and_security() {
    assert!(character(true, true, 3).conduct(false).likely_to_help);
    assert!(character(true, true, 5).conduct(false).likely_to_help);
    assert!(!character(true, true, 2).conduct(false).likely_to_help);
    assert!(!character(true, true, 1).conduct(true).likely_to_help);
    assert!(!character(false, true, 5).conduct(true).likely_to_help);
}

#[test]
fn empathy_can_make_up_for_dishonesty() {
    assert!(character(false, true, 1).conduct(false).likely_truthful);
    assert!(character(false, false, 1).conduct(true).likely_truthful);
    assert!(!character(false, false, 5).conduct(false).likely_truthful);
}

#[test]
fn snapshot_labels() {
    let names: Vec<&str> = (0..=6u8).map(|l| character(true, true, l).needs_label()).collect();
    assert_eq!(
        names,
        vec!["unknown", "physiological", "safety", "belonging", "esteem", "self-actualize", "unknown"]
    );
}

#[test]
fn bar_fills_then_pads() {
    assert_eq!(bar(3, 5), "###--");
    assert_eq!(bar(0, 5), "-----");
    assert_eq!(bar(5, 5), "#####");
    assert_eq!(bar(9, 5), "#####");
    assert_eq!(bar(4, 0), "");
}

#[test]
fn drawn_characters_have_valid_levels() {
    let mut rng = StdRng::seed_from_u64(3);
    let mut altruists = 0;
    for _ in 0..1000 {
        let c = Character::draw(&mut rng);
        assert!((1..=5).contains(&c.needs_met_level));
        if c.altruistic {
            altruists += 1;
        }
    }
    // chance 3/5: far from both 0 and 1000
    assert!(altruists > 450 && altruists < 750, "{}", altruists);
}

#[test]
fn census_counts_each_kind() {
    let chars = vec![
        character(true, true, 5),
        character(true, false, 1),
        character(false, true, 3),
        character(true, true, 2),
    ];
    let conduct: Vec<Conduct> = chars.iter().map(|c| c.conduct(false)).collect();
    let well_connected = vec![true, true, false, false];
    let c = census(&chars, &conduct, &well_connected);
    assert_eq!(c.people, 4);
    assert_eq!(c.altruists, 3);
    assert_eq!(c.honest, 3);
    assert_eq!(c.helpers, 1);
    assert_eq!(c.connected_but_stretched, 1);
}

#[test]
fn status_model_labels() {
    let names: Vec<&str> = (0..=6u8).map(status_label).collect();
    assert_eq!(
        names,
        vec!["Unknown", "Survival", "Safety", "Belonging", "Esteem", "Actualized", "Unknown"]
    );
}

#[test]
fn truthfulness_table() {
    assert!(truthful_given(true, false, false));
    assert!(truthful_given(true, true, false));
    assert!(!truthful_given(false, false, true));
    assert!(!truthful_given(false, true, false));
    assert!(truthful_given(false, true, true));
}

#[test]
fn truthfulness_coin_only_tossed_when_needed() {
    let mut a = StdRng::seed_from_u64(11);
    let b = StdRng::seed_from_u64(11);
    assert!(decide_truthful(&mut a, true, true));
    assert!(!decide_truthful(&mut a, false, false));
    assert!(a == b);
    let mut yes = 0;
    for _ in 0..1000 {
        if decide_truthful(&mut a, false, true) {
            yes += 1;
        }
    }
    assert!(a != b);
    // chance 7/10
    assert!(yes > 600 && yes < 800, "{}", yes);
}
