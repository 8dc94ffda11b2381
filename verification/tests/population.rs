use prosocial::society::{
    decide_honesty, draw_observed, mutual_pairs, needs_label, round_schedule, target_for_draw, Filter, MemberFilter, Society, Tally,
};
use rand::rngs::StdRng;
use rand::SeedableRng;

fn everything() -> Filter {
    Filter { rounds: None, observed: None, same_group: None, helper: None }
}

fn populated(n: usize, seed: u64) -> (Society, StdRng) {
    let mut rng = StdRng::seed_from_u64(seed);
    let mut s = Society::new(3);
    for id in 0..n {
        assert_eq!(s.enroll(&mut rng), id);
    }
    (s, rng)
}

#[test]
fn enrolled_members_are_numbered_and_grouped() {
    let (s, _) = populated(24, 1);
    assert_eq!(s.members().len(), 24);
    for (i, m) in s.members().iter().enumerate() {
        assert_eq!(m.id, i);
        assert!(m.group_id < 3);
        assert!((1..=5).contains(&m.needs_met));
        assert_eq!(m.tally.helped_count, 0);
        assert_eq!(m.tally.refused_by_count, 0);
    }
    assert!(s.exchanges().is_empty());
}

#[test]
fn pairs_are_distinct_members() {
    let (s, mut rng) = populated(24, 2);
    let mut firsts = [false; 24];
    for _ in 0..2000 {
        let (a, b) = s.pick_pair(&mut rng);
        assert!(a < 24 && b < 24 && a != b);
        firsts[a] = true;
    }
    assert!(firsts.iter().all(|x| *x));
    let (two, mut rng2) = populated(2, 9);
    for _ in 0..50 {
        let (a, b) = two.pick_pair(&mut rng2);
        assert_eq!(a + b, 1);
    }
}

#[test]
fn recording_updates_both_tallies_and_log() {
    let (mut s, _) = populated(4, 3);
    let same = s.same_group(0, 1);
    let e = s.record(2, 0, 1, true, true, true);
    assert_eq!(e.round, 2);
    assert_eq!(e.same_group, same);
    let e2 = s.record(2, 0, 2, false, false, false);
    assert!(!e2.helped);
    s.record(3, 3, 0, true, true, false);
    let h = s.members()[0].tally;
    assert_eq!(h.helped_count, 1);
    assert_eq!(h.refused_count, 1);
    assert_eq!(h.observed_helped, 1);
    assert_eq!(h.anonymous_refused, 1);
    assert_eq!(h.helped_by_count, 1);
    assert_eq!(s.members()[1].tally.helped_by_count, 1);
    assert_eq!(s.members()[2].tally.refused_by_count, 1);
    assert_eq!(s.members()[3].tally.anonymous_helped, 1);
    assert_eq!(s.exchanges().len(), 3);
}

#[test]
fn helps_given_equal_helps_received() {
    let (mut s, mut rng) = populated(24, 4);
    for round in 0..10 {
        for k in 0..50 {
            let (a, b) = s.pick_pair(&mut rng);
            let observed = draw_observed(&mut rng);
            s.record(round, a, b, (a + b + k) % 3 != 0, true, observed);
        }
    }
    let given: u32 = s.members().iter().map(|m| m.tally.helped_count).sum();
    let received: u32 = s.members().iter().map(|m| m.tally.helped_by_count).sum();
    let all = s.count(&everything());
    assert_eq!(all.total, 500);
    assert_eq!(given as usize, all.helped);
    assert_eq!(received as usize, all.helped);
    for m in s.members() {
        let t = m.tally;
        assert_eq!(t.observed_helped + t.anonymous_helped, t.helped_count);
        assert_eq!(t.observed_refused + t.anonymous_refused, t.refused_count);
    }
}

#[test]
fn counts_split_by_observation_group_and_round() {
    let (mut s, mut rng) = populated(10, 5);
    for round in 0..10 {
        for k in 0..20 {
            let (a, b) = s.pick_pair(&mut rng);
            let observed = draw_observed(&mut rng);
            s.record(round, a, b, (k + round) % 2 == 0, true, observed);
        }
    }
    let all = s.count(&everything());
    let obs = s.count(&Filter { observed: Some(true), ..everything() });
    let anon = s.count(&Filter { observed: Some(false), ..everything() });
    assert_eq!(obs.total + anon.total, all.total);
    assert_eq!(obs.helped + anon.helped, all.helped);
    let same = s.count(&Filter { same_group: Some(true), ..everything() });
    let diff = s.count(&Filter { same_group: Some(false), ..everything() });
    assert_eq!(same.total + diff.total, all.total);
    let early = s.count(&Filter { rounds: Some((0, 5)), ..everything() });
    let late = s.count(&Filter { rounds: Some((5, 10)), ..everything() });
    assert_eq!(early.total, 100);
    assert_eq!(late.total, 100);
    assert_eq!(early.helped + late.helped, all.helped);
    let round3 = s.count(&Filter { rounds: Some((3, 4)), ..everything() });
    assert_eq!(round3.total, 20);
    assert_eq!(round3.helped, 10);
    for p in 0..10 {
        let mine = s.count(&Filter { helper: Some(p), ..everything() });
        let t = s.members()[p].tally;
        assert_eq!(mine.total as u32, t.helped_count + t.refused_count);
        assert_eq!(mine.helped as u32, t.helped_count);
    }
}

#[test]
fn member_selection_by_group_and_needs() {
    let (s, _) = populated(30, 6);
    let low = s.member_ids(&MemberFilter { group: None, needs_at_most: Some(2), needs_at_least: None });
    for id in &low {
        assert!(s.members()[*id].needs_met <= 2);
    }
    let expected: Vec<usize> =
        s.members().iter().filter(|m| m.needs_met <= 2).map(|m| m.id).collect();
    assert_eq!(low, expected);
    let mut total = 0;
    for g in 0..3 {
        let ids = s.member_ids(&MemberFilter { group: Some(g), needs_at_most: None, needs_at_least: None });
        total += ids.len();
    }
    assert_eq!(total, 30);
    let high = s.member_ids(&MemberFilter { group: None, needs_at_most: None, needs_at_least: Some(4) });
    assert!(high.iter().all(|id| s.members()[*id].needs_met >= 4));
}

#[test]
fn tally_ratios() {
    let mut t = Tally::new();
    assert_eq!(t.help_ratio(), None);
    assert_eq!(t.observed_help_ratio(), None);
    t.record_action(true, true);
    t.record_action(false, true);
    t.record_action(true, false);
    assert_eq!(t.help_ratio(), Some((2, 3)));
    assert_eq!(t.observed_help_ratio(), Some((1, 2)));
    assert_eq!(t.anonymous_help_ratio(), Some((1, 1)));
    t.record_received(false);
    assert_eq!(t.refused_by_count, 1);
    assert_eq!(t.helped_by_count, 0);
}

#[test]
fn honesty_with_protective_lies() {
    // Honesty covering the cost: the truth, unless the protective override applies.
    assert!(decide_honesty(true, 5, true, true));
    assert!(decide_honesty(true, 2, false, true));
    assert!(decide_honesty(true, 2, true, false));
    assert!(!decide_honesty(true, 2, true, true));
    assert!(!decide_honesty(true, 1, true, true));
    // Honesty not covering the cost: a lie in every case.
    assert!(!decide_honesty(false, 5, false, false));
    assert!(!decide_honesty(false, 2, true, true));
    assert!(!decide_honesty(false, 3, true, true));
}

#[test]
fn society_labels() {
    assert_eq!(needs_label(1), "physiological");
    assert_eq!(needs_label(5), "self-actualize");
    assert_eq!(needs_label(0), "?");
    assert_eq!(needs_label(9), "?");
}

#[test]
fn observation_coin_shows_both_faces() {
    let mut rng = StdRng::seed_from_u64(8);
    let seen: usize = (0..400).filter(|_| draw_observed(&mut rng)).count();
    assert!(seen > 120 && seen < 280, "{}", seen);
}

#[test]
fn mutual_pairs_need_warmth_both_ways() {
    let t = true;
    let f = false;
    let warm = vec![
        vec![f, t, t, f],
        vec![t, f, f, t],
        vec![f, f, t, t],
        vec![t, t, t, f],
    ];
    assert_eq!(mutual_pairs(&warm), vec![(0, 1), (1, 3), (2, 3)]);
    assert_eq!(mutual_pairs(&vec![]), vec![]);
    assert_eq!(mutual_pairs(&vec![vec![true]]), vec![]);
}

#[test]
fn every_member_turns_up_as_target() {
    let (s, mut rng) = populated(24, 12);
    let mut targets = [false; 24];
    let mut helpers_of_zero = [false; 24];
    for _ in 0..3000 {
        let (a, b) = s.pick_pair(&mut rng);
        targets[b] = true;
        if a == 0 {
            helpers_of_zero[b] = true;
        }
    }
    assert!(targets.iter().all(|x| *x));
    assert!(helpers_of_zero[1..].iter().filter(|x| **x).count() >= 20);
}

#[test]
fn draws_map_onto_the_other_members_once() {
    assert_eq!(target_for_draw(0, 0), 1);
    assert_eq!(target_for_draw(3, 2), 2);
    assert_eq!(target_for_draw(3, 3), 4);
    for n in 2..8u32 {
        for a in 0..n {
            let mut hit: Vec<u32> = (0..n - 1).map(|r| target_for_draw(a, r)).collect();
            hit.sort();
            let others: Vec<u32> = (0..n).filter(|b| *b != a).collect();
            assert_eq!(hit, others);
        }
    }
}

#[test]
fn round_schedule_lists_each_round_per_round_times() {
    let s = round_schedule(10, 50);
    assert_eq!(s.len(), 500);
    assert_eq!(s[0], 0);
    assert_eq!(s[49], 0);
    assert_eq!(s[50], 1);
    assert_eq!(s[499], 9);
    for (k, r) in s.iter().enumerate() {
        assert_eq!(*r, k / 50);
    }
    assert_eq!(round_schedule(3, 2), vec![0, 0, 1, 1, 2, 2]);
    assert!(round_schedule(0, 5).is_empty());
    assert!(round_schedule(4, 0).is_empty());
}
