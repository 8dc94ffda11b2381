//! A population whose members repeatedly decide whether to help one another.
//!
//! The library keeps the integer side of the model: who belongs to which
//! group, each member's needs level, the counters of what each member did and
//! received, and the log of every exchange. Its central promise is that these
//! counters always agree with the log.

use vstd::prelude::*;
use rand::rngs::StdRng;
use crate::chance::{random_below, random_ratio};
use crate::needs::{draw_weighted_level, valid_level, VULNERABLE_LEVEL};
use vstd::arithmetic::div_mod::lemma_fundamental_div_mod_converse;

verus! {

// ───────────────────────────── Counters ─────────────────────────────

/// What a member has done and received so far.
#[derive(Clone, Copy, Debug)]
pub struct Tally {
    pub helped_count: u32,
    pub refused_count: u32,
    pub helped_by_count: u32,
    pub refused_by_count: u32,
    pub observed_helped: u32,
    pub observed_refused: u32,
    pub anonymous_helped: u32,
    pub anonymous_refused: u32,
}

/// The tally with every counter at zero.
pub open spec fn empty_tally() -> Tally {
    Tally {
        helped_count: 0,
        refused_count: 0,
        helped_by_count: 0,
        refused_by_count: 0,
        observed_helped: 0,
        observed_refused: 0,
        anonymous_helped: 0,
        anonymous_refused: 0,
    }
}

/// The tally after its owner helped (or refused), watched (or not).
pub open spec fn after_action(t: Tally, helped: bool, observed: bool) -> Tally {
    if helped {
        Tally {
            helped_count: (t.helped_count + 1) as u32,
            observed_helped: if observed { (t.observed_helped + 1) as u32 } else { t.observed_helped },
            anonymous_helped: if observed { t.anonymous_helped } else { (t.anonymous_helped + 1) as u32 },
            ..t
        }
    } else {
        Tally {
            refused_count: (t.refused_count + 1) as u32,
            observed_refused: if observed { (t.observed_refused + 1) as u32 } else { t.observed_refused },
            anonymous_refused: if observed { t.anonymous_refused } else { (t.anonymous_refused + 1) as u32 },
            ..t
        }
    }
}

/// The tally after its owner was helped (or refused).
pub open spec fn after_receipt(t: Tally, helped: bool) -> Tally {
    if helped {
        Tally { helped_by_count: (t.helped_by_count + 1) as u32, ..t }
    } else {
        Tally { refused_by_count: (t.refused_by_count + 1) as u32, ..t }
    }
}

/// The counters that `after_action` raises still fit in a `u32`.
pub open spec fn action_fits(t: Tally, helped: bool, observed: bool) -> bool {
    if helped {
        t.helped_count < u32::MAX && (if observed {
            t.observed_helped < u32::MAX
        } else {
            t.anonymous_helped < u32::MAX
        })
    } else {
        t.refused_count < u32::MAX && (if observed {
            t.observed_refused < u32::MAX
        } else {
            t.anonymous_refused < u32::MAX
        })
    }
}

/// `helped` out of `helped + refused`, or nothing when the total is zero.
pub open spec fn ratio_of(helped: u32, refused: u32) -> Option<(u32, u32)> {
    if helped + refused == 0 {
        None
    } else {
        Some((helped, (helped + refused) as u32))
    }
}

impl Tally {
    /// A tally with every counter at zero.
    pub fn new() -> (t: Tally)
        ensures
            t == empty_tally(),
    {
        Tally {
            helped_count: 0,
            refused_count: 0,
            helped_by_count: 0,
            refused_by_count: 0,
            observed_helped: 0,
            observed_refused: 0,
            anonymous_helped: 0,
            anonymous_refused: 0,
        }
    }

    /// Counts one helping decision of this member, split by whether anyone
    /// was watching.
    pub fn record_action(&mut self, helped: bool, observed: bool)
        requires
            action_fits(*old(self), helped, observed),
        ensures
            *final(self) == after_action(*old(self), helped, observed),
    {
        if helped {
            self.helped_count = self.helped_count + 1;
            if observed {
                self.observed_helped = self.observed_helped + 1;
            } else {
                self.anonymous_helped = self.anonymous_helped + 1;
            }
        } else {
            self.refused_count = self.refused_count + 1;
            if observed {
                self.observed_refused = self.observed_refused + 1;
            } else {
                self.anonymous_refused = self.anonymous_refused + 1;
            }
        }
    }

    /// Counts one decision that another member made about this one.
    pub fn record_received(&mut self, helped: bool)
        requires
            helped ==> old(self).helped_by_count < u32::MAX,
            !helped ==> old(self).refused_by_count < u32::MAX,
        ensures
            *final(self) == after_receipt(*old(self), helped),
    {
        if helped {
            self.helped_by_count = self.helped_by_count + 1;
        } else {
            self.refused_by_count = self.refused_by_count + 1;
        }
    }

    /// Helps given out of all decisions taken; `None` before any decision.
    pub fn help_ratio(&self) -> (r: Option<(u32, u32)>)
        requires
            self.helped_count + self.refused_count <= u32::MAX,
        ensures
            r == ratio_of(self.helped_count, self.refused_count),
    {
        let total = self.helped_count + self.refused_count;
        if total == 0 {
            None
        } else {
            Some((self.helped_count, total))
        }
    }

    /// Helps given out of decisions taken while observed; `None` before any.
    pub fn observed_help_ratio(&self) -> (r: Option<(u32, u32)>)
        requires
            self.observed_helped + self.observed_refused <= u32::MAX,
        ensures
            r == ratio_of(self.observed_helped, self.observed_refused),
    {
        let total = self.observed_helped + self.observed_refused;
        if total == 0 {
            None
        } else {
            Some((self.observed_helped, total))
        }
    }

    /// Helps given out of decisions taken unobserved; `None` before any.
    pub fn anonymous_help_ratio(&self) -> (r: Option<(u32, u32)>)
        requires
            self.anonymous_helped + self.anonymous_refused <= u32::MAX,
        ensures
            r == ratio_of(self.anonymous_helped, self.anonymous_refused),
    {
        let total = self.anonymous_helped + self.anonymous_refused;
        if total == 0 {
            None
        } else {
            Some((self.anonymous_helped, total))
        }
    }
}

// ───────────────────────────── Members and exchanges ─────────────────────────────

/// The integer side of a person: identity, group, needs level and counters.
#[derive(Clone, Copy, Debug)]
pub struct Member {
    pub id: usize,
    pub group_id: u32,
    pub needs_met: u8,
    pub tally: Tally,
}

/// One helping decision: who decided about whom, in which round, and how.
#[derive(Clone, Copy, Debug)]
pub struct Exchange {
    pub round: usize,
    pub helper_id: usize,
    pub target_id: usize,
    pub helped: bool,
    pub was_honest: bool,
    pub same_group: bool,
    pub observed: bool,
}

impl Member {
    /// A new member: a weighted needs level, then a group drawn uniformly
    /// from `0..groups`, and no history.
    pub fn draw(id: usize, groups: u32, rng: &mut StdRng) -> (m: Member)
        requires
            groups > 0,
        ensures
            m.id == id,
            m.group_id < groups,
            valid_level(m.needs_met),
            m.tally == empty_tally(),
    {
        let needs_met = draw_weighted_level(rng);
        let group_id = random_below(rng, groups);
        Member { id, group_id, needs_met, tally: Tally::new() }
    }
}

/// The needs label of the population report.
pub open spec fn level_name(level: u8) -> Seq<char> {
    if level == 1 {
        "physiological"@
    } else if level == 2 {
        "safety"@
    } else if level == 3 {
        "belonging"@
    } else if level == 4 {
        "esteem"@
    } else if level == 5 {
        "self-actualize"@
    } else {
        "?"@
    }
}

/// The name of a needs level, `"?"` outside 1..=5.
pub fn needs_label(level: u8) -> (label: &'static str)
    ensures
        label@ == level_name(level),
{
    match level {
        1 => "physiological",
        2 => "safety",
        3 => "belonging",
        4 => "esteem",
        5 => "self-actualize",
        _ => "?",
    }
}


// ───────────────────────────── Decisions ─────────────────────────────

/// Whether anyone is watching an exchange: a fair coin.
pub fn draw_observed(rng: &mut StdRng) -> bool {
    random_ratio(rng, 1, 2)
}

/// The honesty decision with its prosocial-deception override: a person tells
/// the truth when their honesty covers its cost, except that high empathy
/// toward a vulnerable target (needs level at most 2) facing a costly truth
/// overrides that: they lie to protect the target.
///
/// `honest_enough`, `truth_is_costly` and `empathic` are the outcomes of the
/// model's threshold comparisons on its real-valued traits.
pub fn decide_honesty(
    honest_enough: bool,
    target_needs: u8,
    truth_is_costly: bool,
    empathic: bool,
) -> (was_honest: bool)
    ensures
        was_honest == (honest_enough && !(target_needs <= VULNERABLE_LEVEL && truth_is_costly
            && empathic)),
        target_needs > VULNERABLE_LEVEL ==> was_honest == honest_enough,
{
    let protecting_vulnerable = target_needs <= VULNERABLE_LEVEL && truth_is_costly;
    let prosocial_lie = protecting_vulnerable && empathic;
    honest_enough && !prosocial_lie
}

// ───────────────────────────── Counting over the log ─────────────────────────────

/// How many exchanges of `s` satisfy `pred`.
pub open spec fn count_where(s: Seq<Exchange>, pred: spec_fn(Exchange) -> bool) -> nat
    decreases s.len(),
{
    if s.len() == 0 {
        0
    } else {
        count_where(s.drop_last(), pred) + if pred(s.last()) {
            1nat
        } else {
            0nat
        }
    }
}

/// `p` helped.
pub open spec fn gave(p: usize) -> spec_fn(Exchange) -> bool {
    |e: Exchange| e.helper_id == p && e.helped
}

/// `p` refused.
pub open spec fn withheld(p: usize) -> spec_fn(Exchange) -> bool {
    |e: Exchange| e.helper_id == p && !e.helped
}

/// `p` was helped.
pub open spec fn received(p: usize) -> spec_fn(Exchange) -> bool {
    |e: Exchange| e.target_id == p && e.helped
}

/// `p` was refused.
pub open spec fn denied(p: usize) -> spec_fn(Exchange) -> bool {
    |e: Exchange| e.target_id == p && !e.helped
}

/// `p` helped or refused while observed (`watched`) or unobserved.
pub open spec fn acted_seen(p: usize, helped: bool, watched: bool) -> spec_fn(Exchange) -> bool {
    |e: Exchange| e.helper_id == p && e.helped == helped && e.observed == watched
}

/// The member's counters are exactly what the log says of member `p`.
pub open spec fn tally_matches(t: Tally, s: Seq<Exchange>, p: usize) -> bool {
    &&& t.helped_count == count_where(s, gave(p))
    &&& t.refused_count == count_where(s, withheld(p))
    &&& t.helped_by_count == count_where(s, received(p))
    &&& t.refused_by_count == count_where(s, denied(p))
    &&& t.observed_helped == count_where(s, acted_seen(p, true, true))
    &&& t.observed_refused == count_where(s, acted_seen(p, false, true))
    &&& t.anonymous_helped == count_where(s, acted_seen(p, true, false))
    &&& t.anonymous_refused == count_where(s, acted_seen(p, false, false))
}

/// Appending one exchange adds one to the count exactly when it qualifies.
pub proof fn lemma_count_push(s: Seq<Exchange>, e: Exchange, pred: spec_fn(Exchange) -> bool)
    ensures
        count_where(s.push(e), pred) == count_where(s, pred) + if pred(e) {
            1nat
        } else {
            0nat
        },
{
    assert(s.push(e).drop_last() =~= s);
}

/// A count never exceeds the length of the log.
pub proof fn lemma_count_bounded(s: Seq<Exchange>, pred: spec_fn(Exchange) -> bool)
    ensures
        count_where(s, pred) <= s.len(),
    decreases s.len(),
{
    if s.len() > 0 {
        lemma_count_bounded(s.drop_last(), pred);
    }
}

/// A predicate that no exchange satisfies counts zero.
pub proof fn lemma_count_none(s: Seq<Exchange>, pred: spec_fn(Exchange) -> bool)
    requires
        forall|i: int| 0 <= i < s.len() ==> !pred(#[trigger] s[i]),
    ensures
        count_where(s, pred) == 0,
    decreases s.len(),
{
    if s.len() > 0 {
        lemma_count_none(s.drop_last(), pred);
    }
}

/// When `whole` is the disjoint union of `left` and `right`, its count is the
/// sum of theirs.
pub proof fn lemma_count_split(
    s: Seq<Exchange>,
    whole: spec_fn(Exchange) -> bool,
    left: spec_fn(Exchange) -> bool,
    right: spec_fn(Exchange) -> bool,
)
    requires
        forall|e: Exchange| #[trigger] whole(e) == (left(e) || right(e)),
        forall|e: Exchange| !(#[trigger] left(e) && right(e)),
    ensures
        count_where(s, whole) == count_where(s, left) + count_where(s, right),
    decreases s.len(),
{
    if s.len() > 0 {
        lemma_count_split(s.drop_last(), whole, left, right);
        let e = s.last();
        assert(whole(e) == (left(e) || right(e)));
        assert(!(left(e) && right(e)));
    }
}



// ───────────────────────────── Choosing a partner ─────────────────────────────

/// The member that draw `r` selects as partner of `a`: draws below `a` keep
/// their number, the others skip past `a`.
pub open spec fn target_of_draw(a: int, r: int) -> int {
    if r >= a {
        r + 1
    } else {
        r
    }
}

/// Some draw below `n - 1` selects `b` as partner of `a`.
pub open spec fn selected_by_a_draw(a: int, n: int, b: int) -> bool {
    exists|r: int| 0 <= r < n - 1 && #[trigger] target_of_draw(a, r) == b
}

/// The target that draw `r` (uniform below `n - 1`) selects for helper `a`;
/// every member other than `a` is selected by exactly one draw
/// (`law_target_draws_cover_others_once`).
pub fn target_for_draw(a: u32, r: u32) -> (b: u32)
    requires
        r < u32::MAX,
    ensures
        b == target_of_draw(a as int, r as int),
        b != a,
{
    if r >= a {
        r + 1
    } else {
        r
    }
}

/// For a helper `a < n`, the draws `0..n-1` map one-to-one onto the other
/// members `0..n` except `a`: each draw selects a member in range other than
/// `a`, no two draws select the same member, and every other member is selected.
pub proof fn law_target_draws_cover_others_once(a: int, n: int)
    requires
        0 <= a < n,
    ensures
        forall|r: int|
            0 <= r < n - 1 ==> 0 <= #[trigger] target_of_draw(a, r) < n && target_of_draw(a, r)
                != a,
        forall|r1: int, r2: int|
            0 <= r1 < n - 1 && 0 <= r2 < n - 1 && #[trigger] target_of_draw(a, r1)
                == #[trigger] target_of_draw(a, r2) ==> r1 == r2,
        forall|b: int| 0 <= b < n && b != a ==> #[trigger] selected_by_a_draw(a, n, b),
{
    assert forall|b: int| 0 <= b < n && b != a implies #[trigger] selected_by_a_draw(a, n, b) by {
        let r = if b > a {
            b - 1
        } else {
            b
        };
        assert(target_of_draw(a, r) == b);
    }
}


// ───────────────────────────── The round schedule ─────────────────────────────

/// The rounds of a run of `rounds` rounds with `per_round` exchanges each:
/// entry `k` is the round of the `k`-th exchange, that is `k / per_round`.
pub fn round_schedule(rounds: usize, per_round: usize) -> (schedule: Vec<usize>)
    requires
        rounds * per_round <= usize::MAX,
    ensures
        schedule@.len() == rounds * per_round,
        forall|k: int| 0 <= k < schedule@.len() ==> #[trigger] schedule@[k] == k / per_round as int,
{
    let mut schedule: Vec<usize> = Vec::new();
    let mut round: usize = 0;
    while round < rounds
        invariant
            round <= rounds,
            rounds * per_round <= usize::MAX,
            schedule@.len() == round * per_round,
            forall|k: int| 0 <= k < schedule@.len() ==> #[trigger] schedule@[k] == k / per_round as int,
        decreases rounds - round,
    {
        let mut j: usize = 0;
        while j < per_round
            invariant
                round < rounds,
                j <= per_round,
                rounds * per_round <= usize::MAX,
                schedule@.len() == round * per_round + j,
                forall|k: int| 0 <= k < schedule@.len() ==> #[trigger] schedule@[k] == k / per_round as int,
            decreases per_round - j,
        {
            proof {
                lemma_fundamental_div_mod_converse(
                    (round * per_round + j) as int,
                    per_round as int,
                    round as int,
                    j as int,
                );
                assert(round * per_round + j < rounds * per_round) by (nonlinear_arith)
                    requires
                        round < rounds,
                        j < per_round,
                ;
            }
            schedule.push(round);
            j = j + 1;
        }
        proof {
            assert((round + 1) * per_round == round * per_round + per_round) by (nonlinear_arith);
        }
        round = round + 1;
    }
    schedule
}

// ───────────────────────────── The population ─────────────────────────────

/// A population and the log of its exchanges.
pub struct Society {
    groups: u32,
    members: Vec<Member>,
    exchanges: Vec<Exchange>,
}

impl Society {
    /// The number of groups members are drawn into.
    pub closed spec fn group_count(&self) -> u32 {
        self.groups
    }

    /// The members, member `i` at index `i`.
    pub closed spec fn people(&self) -> Seq<Member> {
        self.members@
    }

    /// Every exchange so far, oldest first.
    pub closed spec fn log(&self) -> Seq<Exchange> {
        self.exchanges@
    }

    /// The population's invariant: members are numbered by position, sit in
    /// a valid group at a valid needs level, every exchange is between two
    /// distinct members and records whether they share a group, and every
    /// member's counters agree with the log.
    pub open spec fn wf(&self) -> bool {
        let ms = self.people();
        let s = self.log();
        &&& self.group_count() > 0
        &&& ms.len() <= usize::MAX
        &&& forall|i: int|
            0 <= i < ms.len() ==> {
                &&& (#[trigger] ms[i]).id == i
                &&& ms[i].group_id < self.group_count()
                &&& valid_level(ms[i].needs_met)
                &&& tally_matches(ms[i].tally, s, i as usize)
            }
        &&& forall|j: int|
            0 <= j < s.len() ==> {
                &&& (#[trigger] s[j]).helper_id < ms.len()
                &&& s[j].target_id < ms.len()
                &&& s[j].helper_id != s[j].target_id
                &&& s[j].same_group == (ms[s[j].helper_id as int].group_id
                    == ms[s[j].target_id as int].group_id)
            }
    }

    /// An empty population whose members will be drawn into `groups` groups.
    pub fn new(groups: u32) -> (society: Society)
        requires
            groups > 0,
        ensures
            society.wf(),
            society.group_count() == groups,
            society.people() == Seq::<Member>::empty(),
            society.log() == Seq::<Exchange>::empty(),
    {
        Society { groups, members: Vec::new(), exchanges: Vec::new() }
    }

    /// Draws a new member (see `Member::draw`), numbered after the existing
    /// ones, and returns its number.
    pub fn enroll(&mut self, rng: &mut StdRng) -> (id: usize)
        requires
            old(self).wf(),
            old(self).people().len() < usize::MAX,
        ensures
            final(self).wf(),
            id == old(self).people().len(),
            final(self).people().len() == id + 1,
            final(self).people().subrange(0, id as int) == old(self).people(),
            final(self).people()[id as int].id == id,
            final(self).people()[id as int].tally == empty_tally(),
            final(self).group_count() == old(self).group_count(),
            final(self).log() == old(self).log(),
    {
        let id = self.members.len();
        let m = Member::draw(id, self.groups, rng);
        let ghost s = self.exchanges@;
        proof {
            assert forall|j: int| 0 <= j < s.len() implies (#[trigger] s[j]).helper_id != id
                && s[j].target_id != id by {
                assert(old(self).wf());
                assert(s == old(self).log());
                assert(old(self).log()[j].helper_id < old(self).people().len());
            }
            lemma_count_none(s, gave(id));
            lemma_count_none(s, withheld(id));
            lemma_count_none(s, received(id));
            lemma_count_none(s, denied(id));
            lemma_count_none(s, acted_seen(id, true, true));
            lemma_count_none(s, acted_seen(id, false, true));
            lemma_count_none(s, acted_seen(id, true, false));
            lemma_count_none(s, acted_seen(id, false, false));
        }
        self.members.push(m);
        proof {
            let ms = old(self).members@;
            let ms2 = self.members@;
            assert(ms2.subrange(0, id as int) =~= ms);
            assert forall|i: int| 0 <= i < ms2.len() implies {
                &&& (#[trigger] ms2[i]).id == i
                &&& ms2[i].group_id < self.groups
                &&& valid_level(ms2[i].needs_met)
                &&& tally_matches(ms2[i].tally, s, i as usize)
            } by {
                if i < id {
                    assert(ms2[i] == ms[i]);
                }
            }
            assert forall|j: int| 0 <= j < s.len() implies {
                &&& (#[trigger] s[j]).helper_id < ms2.len()
                &&& s[j].target_id < ms2.len()
                &&& s[j].helper_id != s[j].target_id
                &&& s[j].same_group == (ms2[s[j].helper_id as int].group_id
                    == ms2[s[j].target_id as int].group_id)
            } by {
                assert(old(self).log()[j] == s[j]);
                assert(ms2[s[j].helper_id as int] == ms[s[j].helper_id as int]);
                assert(ms2[s[j].target_id as int] == ms[s[j].target_id as int]);
            }
        }
        id
    }

    /// Whether members `a` and `b` belong to the same group.
    pub fn same_group(&self, a: usize, b: usize) -> (same: bool)
        requires
            a < self.people().len(),
            b < self.people().len(),
        ensures
            same == (self.people()[a as int].group_id == self.people()[b as int].group_id),
    {
        self.members[a].group_id == self.members[b].group_id
    }

    /// The members, for reading.
    pub fn members(&self) -> (ms: &Vec<Member>)
        ensures
            ms@ == self.people(),
    {
        &self.members
    }

    /// The log of exchanges, for reading.
    pub fn exchanges(&self) -> (es: &Vec<Exchange>)
        ensures
            es@ == self.log(),
    {
        &self.exchanges
    }

    /// Picks a helper and a target uniformly among distinct pairs of members:
    /// the helper is drawn below `n`, then a draw below `n - 1` selects the
    /// target among the other members (see `target_for_draw`).
    pub fn pick_pair(&self, rng: &mut StdRng) -> (pair: (usize, usize))
        requires
            2 <= self.people().len() <= u32::MAX,
        ensures
            pair.0 < self.people().len(),
            pair.1 < self.people().len(),
            pair.0 != pair.1,
            exists|r: int|
                0 <= r < self.people().len() - 1 && pair.1 == target_of_draw(pair.0 as int, r),
    {
        let n = self.members.len() as u32;
        let a = random_below(rng, n);
        let r = random_below(rng, n - 1);
        let b = target_for_draw(a, r);
        (a as usize, b as usize)
    }

    /// Records that `helper` decided about `target` in `round`: appends the
    /// exchange to the log (noting whether the two share a group), counts the
    /// decision in the helper's tally and its outcome in the target's.
    pub fn record(
        &mut self,
        round: usize,
        helper: usize,
        target: usize,
        helped: bool,
        was_honest: bool,
        observed: bool,
    ) -> (exchange: Exchange)
        requires
            old(self).wf(),
            helper < old(self).people().len(),
            target < old(self).people().len(),
            helper != target,
            old(self).log().len() < u32::MAX,
        ensures
            final(self).wf(),
            exchange == (Exchange {
                round,
                helper_id: helper,
                target_id: target,
                helped,
                was_honest,
                same_group: old(self).people()[helper as int].group_id
                    == old(self).people()[target as int].group_id,
                observed,
            }),
            final(self).log() == old(self).log().push(exchange),
            final(self).people() == old(self).people().update(
                helper as int,
                Member {
                    tally: after_action(old(self).people()[helper as int].tally, helped, observed),
                    ..old(self).people()[helper as int]
                },
            ).update(
                target as int,
                Member {
                    tally: after_receipt(old(self).people()[target as int].tally, helped),
                    ..old(self).people()[target as int]
                },
            ),
            final(self).group_count() == old(self).group_count(),
    {
        let ghost s = self.exchanges@;
        let ghost ms = self.members@;
        let same_group = self.members[helper].group_id == self.members[target].group_id;
        let exchange = Exchange {
            round,
            helper_id: helper,
            target_id: target,
            helped,
            was_honest,
            same_group,
            observed,
        };
        let mut h = self.members[helper];
        let mut t = self.members[target];
        proof {
            lemma_count_bounded(s, gave(helper));
            lemma_count_bounded(s, withheld(helper));
            lemma_count_bounded(s, acted_seen(helper, true, true));
            lemma_count_bounded(s, acted_seen(helper, false, true));
            lemma_count_bounded(s, acted_seen(helper, true, false));
            lemma_count_bounded(s, acted_seen(helper, false, false));
            lemma_count_bounded(s, received(target));
            lemma_count_bounded(s, denied(target));
        }
        h.tally.record_action(helped, observed);
        t.tally.record_received(helped);
        self.members.set(helper, h);
        self.members.set(target, t);
        self.exchanges.push(exchange);
        proof {
            let s2 = self.exchanges@;
            let ms2 = self.members@;
            assert(s2 == s.push(exchange));
            assert forall|i: int| 0 <= i < ms2.len() implies {
                &&& (#[trigger] ms2[i]).id == i
                &&& ms2[i].group_id < self.groups
                &&& valid_level(ms2[i].needs_met)
                &&& tally_matches(ms2[i].tally, s2, i as usize)
            } by {
                let p = i as usize;
                lemma_count_push(s, exchange, gave(p));
                lemma_count_push(s, exchange, withheld(p));
                lemma_count_push(s, exchange, received(p));
                lemma_count_push(s, exchange, denied(p));
                lemma_count_push(s, exchange, acted_seen(p, true, true));
                lemma_count_push(s, exchange, acted_seen(p, false, true));
                lemma_count_push(s, exchange, acted_seen(p, true, false));
                lemma_count_push(s, exchange, acted_seen(p, false, false));
                assert(ms[i].id == i);
                assert(tally_matches(ms[i].tally, s, p));
            }
            assert forall|j: int| 0 <= j < s2.len() implies {
                &&& (#[trigger] s2[j]).helper_id < ms2.len()
                &&& s2[j].target_id < ms2.len()
                &&& s2[j].helper_id != s2[j].target_id
                &&& s2[j].same_group == (ms2[s2[j].helper_id as int].group_id
                    == ms2[s2[j].target_id as int].group_id)
            } by {
                if j < s.len() {
                    assert(s2[j] == s[j]);
                }
            }
        }
        exchange
    }
}


// ───────────────────────────── Queries over the log ─────────────────────────────

/// Which exchanges a report looks at; `None` places no condition.
#[derive(Clone, Copy, Debug)]
pub struct Filter {
    /// Rounds `from..to` (half open).
    pub rounds: Option<(usize, usize)>,
    pub observed: Option<bool>,
    pub same_group: Option<bool>,
    pub helper: Option<usize>,
}

impl Filter {
    /// Whether the filter lets exchange `e` through.
    pub open spec fn admits(self, e: Exchange) -> bool {
        &&& (self.rounds matches Some((from, to)) ==> from <= e.round < to)
        &&& (self.observed matches Some(o) ==> e.observed == o)
        &&& (self.same_group matches Some(g) ==> e.same_group == g)
        &&& (self.helper matches Some(h) ==> e.helper_id == h)
    }

    /// The exchanges the filter lets through.
    pub open spec fn selects(self) -> spec_fn(Exchange) -> bool {
        |e: Exchange| self.admits(e)
    }

    /// The exchanges the filter lets through in which the helper helped.
    pub open spec fn selects_helped(self) -> spec_fn(Exchange) -> bool {
        |e: Exchange| self.admits(e) && e.helped
    }

    /// Checks one exchange against the filter.
    pub fn lets_through(&self, e: &Exchange) -> (ok: bool)
        ensures
            ok == self.admits(*e),
    {
        let in_rounds = match self.rounds {
            Some((from, to)) => from <= e.round && e.round < to,
            None => true,
        };
        let seen = match self.observed {
            Some(o) => e.observed == o,
            None => true,
        };
        let grouped = match self.same_group {
            Some(g) => e.same_group == g,
            None => true,
        };
        let by_helper = match self.helper {
            Some(h) => e.helper_id == h,
            None => true,
        };
        in_rounds && seen && grouped && by_helper
    }
}

/// How many exchanges a filter selected, and how many of those were helps.
#[derive(Clone, Copy, Debug)]
pub struct HelpCount {
    pub total: usize,
    pub helped: usize,
}

/// Counts the exchanges of `exchanges` that `filter` selects, and the helps among them.
fn count_help(exchanges: &Vec<Exchange>, filter: &Filter) -> (c: HelpCount)
    ensures
        c.total == count_where(exchanges@, filter.selects()),
        c.helped == count_where(exchanges@, filter.selects_helped()),
        c.helped <= c.total,
        c.total <= exchanges@.len(),
{
    let mut total: usize = 0;
    let mut helped: usize = 0;
    let n = exchanges.len();
    let mut i: usize = 0;
    while i < n
        invariant
            n == exchanges@.len(),
            i <= n,
            total == count_where(exchanges@.take(i as int), filter.selects()),
            helped == count_where(exchanges@.take(i as int), filter.selects_helped()),
            helped <= total <= i,
        decreases n - i,
    {
        let e = exchanges[i];
        proof {
            assert(exchanges@.take(i + 1) =~= exchanges@.take(i as int).push(e));
            lemma_count_push(exchanges@.take(i as int), e, filter.selects());
            lemma_count_push(exchanges@.take(i as int), e, filter.selects_helped());
        }
        if filter.lets_through(&e) {
            total = total + 1;
            if e.helped {
                helped = helped + 1;
            }
        }
        i = i + 1;
    }
    proof {
        assert(exchanges@.take(n as int) =~= exchanges@);
    }
    HelpCount { total, helped }
}

/// Which members a report looks at; `None` places no condition.
#[derive(Clone, Copy, Debug)]
pub struct MemberFilter {
    pub group: Option<u32>,
    pub needs_at_most: Option<u8>,
    pub needs_at_least: Option<u8>,
}

impl MemberFilter {
    /// Whether the filter lets member `m` through.
    pub open spec fn admits(self, m: Member) -> bool {
        &&& (self.group matches Some(g) ==> m.group_id == g)
        &&& (self.needs_at_most matches Some(hi) ==> m.needs_met <= hi)
        &&& (self.needs_at_least matches Some(lo) ==> lo <= m.needs_met)
    }

    /// Checks one member against the filter.
    pub fn lets_through(&self, m: &Member) -> (ok: bool)
        ensures
            ok == self.admits(*m),
    {
        let in_group = match self.group {
            Some(g) => m.group_id == g,
            None => true,
        };
        let below = match self.needs_at_most {
            Some(hi) => m.needs_met <= hi,
            None => true,
        };
        let above = match self.needs_at_least {
            Some(lo) => lo <= m.needs_met,
            None => true,
        };
        in_group && below && above
    }
}

/// The ids of the members of `ms` that `f` lets through, in order.
pub open spec fn ids_where(ms: Seq<Member>, f: MemberFilter) -> Seq<usize>
    decreases ms.len(),
{
    if ms.len() == 0 {
        Seq::empty()
    } else {
        let rest = ids_where(ms.drop_last(), f);
        if f.admits(ms.last()) {
            rest.push(ms.last().id)
        } else {
            rest
        }
    }
}

/// The ids of the members that `filter` lets through, in order.
fn member_ids(members: &Vec<Member>, filter: &MemberFilter) -> (ids: Vec<usize>)
    ensures
        ids@ == ids_where(members@, *filter),
        ids@.len() <= members@.len(),
{
    let mut ids: Vec<usize> = Vec::new();
    let n = members.len();
    let mut i: usize = 0;
    while i < n
        invariant
            n == members@.len(),
            i <= n,
            ids@ == ids_where(members@.take(i as int), *filter),
            ids@.len() <= i,
        decreases n - i,
    {
        let m = members[i];
        proof {
            assert(members@.take(i + 1).drop_last() =~= members@.take(i as int));
            assert(members@.take(i + 1).last() == m);
        }
        if filter.lets_through(&m) {
            ids.push(m.id);
        }
        i = i + 1;
    }
    proof {
        assert(members@.take(n as int) =~= members@);
    }
    ids
}


impl Society {
    /// Counts the logged exchanges that `filter` selects, and the helps among them.
    pub fn count(&self, filter: &Filter) -> (c: HelpCount)
        ensures
            c.total == count_where(self.log(), filter.selects()),
            c.helped == count_where(self.log(), filter.selects_helped()),
            c.helped <= c.total,
            c.total <= self.log().len(),
    {
        count_help(&self.exchanges, filter)
    }

    /// The ids of the members that `filter` lets through, in order.
    pub fn member_ids(&self, filter: &MemberFilter) -> (ids: Vec<usize>)
        ensures
            ids@ == ids_where(self.people(), *filter),
            ids@.len() <= self.people().len(),
    {
        member_ids(&self.members, filter)
    }
}


// ───────────────────────────── Cooperative pairs ─────────────────────────────

/// Members `a < b` each regard the other warmly.
pub open spec fn mutual(warm: Seq<Seq<bool>>, a: int, b: int) -> bool {
    a < b && warm[a][b] && warm[b][a]
}

/// The mutual pairs `(a, b)` with `b < upto`, for fixed `a`, in increasing `b`.
pub open spec fn row_pairs(warm: Seq<Seq<bool>>, a: int, upto: int) -> Seq<(usize, usize)>
    decreases upto,
{
    if upto <= 0 {
        Seq::empty()
    } else {
        let rest = row_pairs(warm, a, upto - 1);
        if mutual(warm, a, upto - 1) {
            rest.push((a as usize, (upto - 1) as usize))
        } else {
            rest
        }
    }
}

/// The mutual pairs `(a, b)` with `a < rows` and `b < n`, ordered by `a` then `b`.
pub open spec fn all_pairs(warm: Seq<Seq<bool>>, rows: int, n: int) -> Seq<(usize, usize)>
    decreases rows,
{
    if rows <= 0 {
        Seq::empty()
    } else {
        all_pairs(warm, rows - 1, n) + row_pairs(warm, rows - 1, n)
    }
}

/// Every pair listed by `row_pairs` starts at `a`, ends below `upto` and is
/// mutual; every mutual pair `(a, b)` with `b < upto` is listed.
proof fn lemma_row_pairs(warm: Seq<Seq<bool>>, a: int, upto: int)
    requires
        0 <= a <= usize::MAX,
        upto <= usize::MAX + 1,
    ensures
        forall|k: int|
            0 <= k < row_pairs(warm, a, upto).len() ==> {
                &&& (#[trigger] row_pairs(warm, a, upto)[k]).0 == a
                &&& row_pairs(warm, a, upto)[k].1 < upto
                &&& mutual(warm, a, row_pairs(warm, a, upto)[k].1 as int)
            },
        forall|b: int|
            0 <= b < upto && #[trigger] mutual(warm, a, b) ==> row_pairs(warm, a, upto).contains(
                (a as usize, b as usize),
            ),
    decreases upto,
{
    if upto > 0 {
        lemma_row_pairs(warm, a, upto - 1);
        let rest = row_pairs(warm, a, upto - 1);
        let all = row_pairs(warm, a, upto);
        if mutual(warm, a, upto - 1) {
            assert(all == rest.push((a as usize, (upto - 1) as usize)));
            assert forall|k: int| 0 <= k < all.len() implies {
                &&& (#[trigger] all[k]).0 == a
                &&& all[k].1 < upto
                &&& mutual(warm, a, all[k].1 as int)
            } by {
                if k < rest.len() {
                    assert(all[k] == rest[k]);
                }
            }
            assert forall|b: int| 0 <= b < upto && #[trigger] mutual(warm, a, b) implies all.contains(
                (a as usize, b as usize),
            ) by {
                if b < upto - 1 {
                    let k = choose|k: int| 0 <= k < rest.len() && rest[k] == (a as usize, b as usize);
                    assert(all[k] == rest[k]);
                } else {
                    assert(all[rest.len() as int] == (a as usize, b as usize));
                }
            }
        }
    }
}

/// What `all_pairs` lists: every listed pair `(a, b)` has `a < rows`, `b < n`
/// and is mutual, and every such mutual pair is listed.
pub proof fn law_mutual_pairs_are_exact(warm: Seq<Seq<bool>>, rows: int, n: int)
    requires
        0 <= rows <= usize::MAX + 1,
        0 <= n <= usize::MAX + 1,
    ensures
        forall|k: int|
            0 <= k < all_pairs(warm, rows, n).len() ==> {
                &&& (#[trigger] all_pairs(warm, rows, n)[k]).0 < rows
                &&& all_pairs(warm, rows, n)[k].1 < n
                &&& mutual(
                    warm,
                    all_pairs(warm, rows, n)[k].0 as int,
                    all_pairs(warm, rows, n)[k].1 as int,
                )
            },
        forall|a: int, b: int|
            0 <= a < rows && 0 <= b < n && #[trigger] mutual(warm, a, b) ==> all_pairs(
                warm,
                rows,
                n,
            ).contains((a as usize, b as usize)),
    decreases rows,
{
    if rows > 0 {
        law_mutual_pairs_are_exact(warm, rows - 1, n);
        lemma_row_pairs(warm, rows - 1, n);
        let front = all_pairs(warm, rows - 1, n);
        let row = row_pairs(warm, rows - 1, n);
        let all = all_pairs(warm, rows, n);
        assert(all == front + row);
        assert forall|k: int| 0 <= k < all.len() implies {
            &&& (#[trigger] all[k]).0 < rows
            &&& all[k].1 < n
            &&& mutual(warm, all[k].0 as int, all[k].1 as int)
        } by {
            if k < front.len() {
                assert(all[k] == front[k]);
            } else {
                assert(all[k] == row[k - front.len()]);
            }
        }
        assert forall|a: int, b: int|
            0 <= a < rows && 0 <= b < n && #[trigger] mutual(warm, a, b) implies all.contains(
                (a as usize, b as usize),
            ) by {
            if a < rows - 1 {
                let k = choose|k: int| 0 <= k < front.len() && front[k] == (a as usize, b as usize);
                assert(all[k] == front[k]);
            } else {
                let k = choose|k: int| 0 <= k < row.len() && row[k] == (a as usize, b as usize);
                assert(all[front.len() + k] == row[k]);
            }
        }
    }
}

/// The mutual pairs of an `n`-by-`n` warmth matrix (`warm[a][b]`: `a` regards
/// `b` warmly), ordered by first then second member.
pub fn mutual_pairs(warm: &Vec<Vec<bool>>) -> (pairs: Vec<(usize, usize)>)
    requires
        forall|a: int| 0 <= a < warm@.len() ==> (#[trigger] warm@[a])@.len() == warm@.len(),
    ensures
        pairs@ == all_pairs(warm@.map_values(|row: Vec<bool>| row@), warm@.len() as int, warm@.len() as int),
{
    let ghost m = warm@.map_values(|row: Vec<bool>| row@);
    let n = warm.len();
    let mut pairs: Vec<(usize, usize)> = Vec::new();
    let mut a: usize = 0;
    while a < n
        invariant
            n == warm@.len(),
            m == warm@.map_values(|row: Vec<bool>| row@),
            forall|x: int| 0 <= x < warm@.len() ==> (#[trigger] warm@[x])@.len() == warm@.len(),
            a <= n,
            pairs@ == all_pairs(m, a as int, n as int),
        decreases n - a,
    {
        let ghost before = pairs@;
        let mut b: usize = 0;
        while b < n
            invariant
                n == warm@.len(),
                m == warm@.map_values(|row: Vec<bool>| row@),
                forall|x: int| 0 <= x < warm@.len() ==> (#[trigger] warm@[x])@.len() == warm@.len(),
                a < n,
                b <= n,
                pairs@ == before + row_pairs(m, a as int, b as int),
            decreases n - b,
        {
            assert(m[a as int] == warm@[a as int]@);
            assert(m[b as int] == warm@[b as int]@);
            if a < b && warm[a][b] && warm[b][a] {
                pairs.push((a, b));
                assert(pairs@ =~= before + row_pairs(m, a as int, b + 1));
            } else {
                assert(pairs@ =~= before + row_pairs(m, a as int, b + 1));
            }
            b = b + 1;
        }
        a = a + 1;
    }
    pairs
}


// ───────────────────────────── What the queries mean ─────────────────────────────

/// Two predicates that agree on every exchange count the same.
proof fn lemma_count_same(s: Seq<Exchange>, p: spec_fn(Exchange) -> bool, q: spec_fn(Exchange) -> bool)
    requires
        forall|e: Exchange| #[trigger] p(e) == q(e),
    ensures
        count_where(s, p) == count_where(s, q),
    decreases s.len(),
{
    if s.len() > 0 {
        lemma_count_same(s.drop_last(), p, q);
        assert(p(s.last()) == q(s.last()));
    }
}

/// A filter lets an exchange through exactly when the exchange meets every
/// condition the filter sets: its round lies in the span, its observed flag,
/// its same-group flag and its helper equal the ones asked for.
pub proof fn law_filter_admits_exactly(f: Filter, e: Exchange)
    ensures
        f.admits(e) <==> {
            &&& (f.rounds is None || (f.rounds.unwrap().0 <= e.round && e.round < f.rounds.unwrap().1))
            &&& (f.observed is None || e.observed == f.observed->0)
            &&& (f.same_group is None || e.same_group == f.same_group->0)
            &&& (f.helper is None || e.helper_id == f.helper->0)
        },
{
}

/// The filter that only asks for the observed flag `o`.
pub open spec fn only_observed(o: bool) -> Filter {
    Filter { rounds: None, observed: Some(o), same_group: None, helper: None }
}

/// The filter that only asks for the same-group flag `g`.
pub open spec fn only_same_group(g: bool) -> Filter {
    Filter { rounds: None, observed: None, same_group: Some(g), helper: None }
}

/// The filter that only asks for helper `h`.
pub open spec fn only_helper(h: usize) -> Filter {
    Filter { rounds: None, observed: None, same_group: None, helper: Some(h) }
}

/// The filter that only asks for rounds `from..to`.
pub open spec fn only_rounds(from: usize, to: usize) -> Filter {
    Filter { rounds: Some((from, to)), observed: None, same_group: None, helper: None }
}

/// Asking only for the observed flag `o` counts exactly the exchanges whose
/// observed flag is `o` (observed for `true`, anonymous for `false`), and the
/// helps among them.
pub proof fn law_observed_filter_counts_flagged_exchanges(s: Seq<Exchange>, o: bool)
    ensures
        count_where(s, only_observed(o).selects()) == count_where(s, |e: Exchange| e.observed == o),
        count_where(s, only_observed(o).selects_helped()) == count_where(
            s,
            |e: Exchange| e.observed == o && e.helped,
        ),
{
    lemma_count_same(s, only_observed(o).selects(), |e: Exchange| e.observed == o);
    lemma_count_same(s, only_observed(o).selects_helped(), |e: Exchange| e.observed == o && e.helped);
}

/// Asking only for the same-group flag `g` counts exactly the exchanges
/// within one group (for `true`) or across groups (for `false`), and the
/// helps among them.
pub proof fn law_group_filter_counts_flagged_exchanges(s: Seq<Exchange>, g: bool)
    ensures
        count_where(s, only_same_group(g).selects()) == count_where(
            s,
            |e: Exchange| e.same_group == g,
        ),
        count_where(s, only_same_group(g).selects_helped()) == count_where(
            s,
            |e: Exchange| e.same_group == g && e.helped,
        ),
{
    lemma_count_same(s, only_same_group(g).selects(), |e: Exchange| e.same_group == g);
    lemma_count_same(
        s,
        only_same_group(g).selects_helped(),
        |e: Exchange| e.same_group == g && e.helped,
    );
}

/// Asking only for helper `h` counts exactly the decisions `h` took, and the
/// helps among them: for a member of a population, its own counters.
pub proof fn law_helper_filter_counts_own_decisions(s: Seq<Exchange>, h: usize)
    ensures
        count_where(s, only_helper(h).selects()) == count_where(s, |e: Exchange| e.helper_id == h),
        count_where(s, only_helper(h).selects_helped()) == count_where(s, gave(h)),
        count_where(s, only_helper(h).selects_helped()) == count_where(
            s,
            |e: Exchange| e.helper_id == h && e.helped,
        ),
{
    lemma_count_same(s, only_helper(h).selects(), |e: Exchange| e.helper_id == h);
    lemma_count_same(s, only_helper(h).selects_helped(), gave(h));
    lemma_count_same(s, only_helper(h).selects_helped(), |e: Exchange| e.helper_id == h && e.helped);
}

/// Asking only for rounds `from..to` counts exactly the exchanges of those
/// rounds, and the helps among them.
pub proof fn law_round_filter_counts_rounds(s: Seq<Exchange>, from: usize, to: usize)
    ensures
        count_where(s, only_rounds(from, to).selects()) == count_where(
            s,
            |e: Exchange| from <= e.round && e.round < to,
        ),
        count_where(s, only_rounds(from, to).selects_helped()) == count_where(
            s,
            |e: Exchange| from <= e.round && e.round < to && e.helped,
        ),
{
    lemma_count_same(s, only_rounds(from, to).selects(), |e: Exchange| from <= e.round && e.round < to);
    lemma_count_same(
        s,
        only_rounds(from, to).selects_helped(),
        |e: Exchange| from <= e.round && e.round < to && e.helped,
    );
}

/// A member filter lets a member through exactly when the member is in the
/// group asked for and its needs level lies within the bounds asked for.
pub proof fn law_member_filter_admits_exactly(f: MemberFilter, m: Member)
    ensures
        f.admits(m) <==> {
            &&& (f.group is None || m.group_id == f.group->0)
            &&& (f.needs_at_most is None || m.needs_met <= f.needs_at_most->0)
            &&& (f.needs_at_least is None || f.needs_at_least->0 <= m.needs_met)
        },
{
}

/// When members are numbered by position, `ids_where` lists the number of
/// every admitted member, and every listed number is an admitted member's.
proof fn lemma_ids_where(ms: Seq<Member>, f: MemberFilter)
    requires
        forall|i: int| 0 <= i < ms.len() ==> (#[trigger] ms[i]).id == i,
    ensures
        forall|i: int| 0 <= i < ms.len() && f.admits(#[trigger] ms[i]) ==> ids_where(ms, f).contains(
            i as usize,
        ),
        forall|k: int|
            0 <= k < ids_where(ms, f).len() ==> 0 <= #[trigger] ids_where(ms, f)[k] < ms.len()
                && f.admits(ms[ids_where(ms, f)[k] as int]),
    decreases ms.len(),
{
    if ms.len() > 0 {
        let rest = ms.drop_last();
        assert forall|i: int| 0 <= i < rest.len() implies (#[trigger] rest[i]).id == i by {
            assert(rest[i] == ms[i]);
        }
        lemma_ids_where(rest, f);
        let r = ids_where(rest, f);
        let all = ids_where(ms, f);
        let last = ms.len() - 1;
        assert(ms[last] == ms.last());
        assert(ms.last().id == last);
        assert forall|i: int| 0 <= i < ms.len() && f.admits(#[trigger] ms[i]) implies all.contains(
            i as usize,
        ) by {
            if i < rest.len() {
                assert(rest[i] == ms[i]);
                let k = choose|k: int| 0 <= k < r.len() && r[k] == i as usize;
                if f.admits(ms.last()) {
                    assert(all[k] == r[k]);
                } else {
                    assert(all == r);
                }
            } else {
                assert(all[r.len() as int] == i as usize);
            }
        }
        assert forall|k: int| 0 <= k < all.len() implies 0 <= #[trigger] all[k] < ms.len() && f.admits(
            ms[all[k] as int],
        ) by {
            if k < r.len() {
                if f.admits(ms.last()) {
                    assert(all[k] == r[k]);
                } else {
                    assert(all == r);
                }
                assert(rest[r[k] as int] == ms[r[k] as int]);
            } else {
                assert(f.admits(ms.last()));
                assert(all[k] == last as usize);
            }
        }
    }
}

/// The filter that only asks for a needs level of at least `lo`.
pub open spec fn needs_at_least(lo: u8) -> MemberFilter {
    MemberFilter { group: None, needs_at_most: None, needs_at_least: Some(lo) }
}

/// The filter that only asks for a needs level of at most `hi`.
pub open spec fn needs_at_most(hi: u8) -> MemberFilter {
    MemberFilter { group: None, needs_at_most: Some(hi), needs_at_least: None }
}

/// The filter that only asks for group `g`.
pub open spec fn in_group(g: u32) -> MemberFilter {
    MemberFilter { group: Some(g), needs_at_most: None, needs_at_least: None }
}

/// Selecting by a lower needs bound `lo` lists every member whose level is at
/// least `lo`, and only such members.
pub proof fn law_member_ids_at_least_level(society: &Society, lo: u8)
    requires
        society.wf(),
    ensures
        forall|i: int|
            0 <= i < society.people().len() && lo <= (#[trigger] society.people()[i]).needs_met
                ==> ids_where(society.people(), needs_at_least(lo)).contains(i as usize),
        forall|k: int|
            0 <= k < ids_where(society.people(), needs_at_least(lo)).len() ==> {
                let id = #[trigger] ids_where(society.people(), needs_at_least(lo))[k];
                id < society.people().len() && lo <= society.people()[id as int].needs_met
            },
{
    lemma_ids_where(society.people(), needs_at_least(lo));
}

/// Selecting by an upper needs bound `hi` lists every member whose level is at
/// most `hi`, and only such members.
pub proof fn law_member_ids_at_most_level(society: &Society, hi: u8)
    requires
        society.wf(),
    ensures
        forall|i: int|
            0 <= i < society.people().len() && (#[trigger] society.people()[i]).needs_met <= hi
                ==> ids_where(society.people(), needs_at_most(hi)).contains(i as usize),
        forall|k: int|
            0 <= k < ids_where(society.people(), needs_at_most(hi)).len() ==> {
                let id = #[trigger] ids_where(society.people(), needs_at_most(hi))[k];
                id < society.people().len() && society.people()[id as int].needs_met <= hi
            },
{
    lemma_ids_where(society.people(), needs_at_most(hi));
}

/// Selecting by group `g` lists every member of `g`, and only its members.
pub proof fn law_member_ids_in_group(society: &Society, g: u32)
    requires
        society.wf(),
    ensures
        forall|i: int|
            0 <= i < society.people().len() && (#[trigger] society.people()[i]).group_id == g
                ==> ids_where(society.people(), in_group(g)).contains(i as usize),
        forall|k: int|
            0 <= k < ids_where(society.people(), in_group(g)).len() ==> {
                let id = #[trigger] ids_where(society.people(), in_group(g))[k];
                id < society.people().len() && society.people()[id as int].group_id == g
            },
{
    lemma_ids_where(society.people(), in_group(g));
}

/// A rate is missing exactly when no decision was taken; otherwise it is the
/// helps out of all decisions. In particular refusals without helps give a
/// zero rate, not a missing one.
pub proof fn law_ratio_missing_only_without_decisions(helped: u32, refused: u32)
    requires
        helped + refused <= u32::MAX,
    ensures
        ratio_of(helped, refused) is None <==> (helped == 0 && refused == 0),
        helped + refused > 0 ==> ratio_of(helped, refused) == Some((helped, (helped + refused) as u32)),
        refused > 0 ==> ratio_of(0, refused) == Some((0u32, refused)),
{
}

// ───────────────────────────── Laws ─────────────────────────────

/// A member's counters always agree with the log: the helps and refusals it
/// gave, those it received, and its observed and anonymous decisions are
/// exactly the logged exchanges of each kind that involve it. `new` makes a
/// `wf` society and `enroll` and `record` keep it `wf`, so this holds after
/// any run of the simulation, however many rounds it takes.
pub proof fn law_tally_agrees_with_log(society: &Society, p: usize)
    requires
        society.wf(),
        p < society.people().len(),
    ensures
        tally_matches(society.people()[p as int].tally, society.log(), p),
{
    assert(society.people()[p as int].id == p);
}

/// Every decision of a member was taken either observed or anonymously:
/// observed plus anonymous helps are all its helps, and likewise for refusals.
pub proof fn law_observed_and_anonymous_partition(society: &Society, p: usize)
    requires
        society.wf(),
        p < society.people().len(),
    ensures
        society.people()[p as int].tally.observed_helped
            + society.people()[p as int].tally.anonymous_helped
            == society.people()[p as int].tally.helped_count,
        society.people()[p as int].tally.observed_refused
            + society.people()[p as int].tally.anonymous_refused
            == society.people()[p as int].tally.refused_count,
{
    let s = society.log();
    law_tally_agrees_with_log(society, p);
    lemma_count_split(s, gave(p), acted_seen(p, true, true), acted_seen(p, true, false));
    lemma_count_split(s, withheld(p), acted_seen(p, false, true), acted_seen(p, false, false));
}

/// The filter with `observed` set to `o`.
pub open spec fn with_observed(f: Filter, o: bool) -> Filter {
    Filter { observed: Some(o), ..f }
}

/// The filter with `same_group` set to `g`.
pub open spec fn with_same_group(f: Filter, g: bool) -> Filter {
    Filter { same_group: Some(g), ..f }
}

/// The filter restricted to rounds `from..to`.
pub open spec fn with_rounds(f: Filter, from: usize, to: usize) -> Filter {
    Filter { rounds: Some((from, to)), ..f }
}

/// Observed and anonymous exchanges split any selection without overlap:
/// their totals, and their helps, add up to those of the selection.
pub proof fn law_observation_splits_counts(s: Seq<Exchange>, f: Filter)
    requires
        f.observed is None,
    ensures
        count_where(s, with_observed(f, true).selects()) + count_where(
            s,
            with_observed(f, false).selects(),
        ) == count_where(s, f.selects()),
        count_where(s, with_observed(f, true).selects_helped()) + count_where(
            s,
            with_observed(f, false).selects_helped(),
        ) == count_where(s, f.selects_helped()),
{
    lemma_count_split(s, f.selects(), with_observed(f, true).selects(), with_observed(f, false).selects());
    lemma_count_split(
        s,
        f.selects_helped(),
        with_observed(f, true).selects_helped(),
        with_observed(f, false).selects_helped(),
    );
}

/// Same-group and cross-group exchanges split any selection without overlap.
pub proof fn law_grouping_splits_counts(s: Seq<Exchange>, f: Filter)
    requires
        f.same_group is None,
    ensures
        count_where(s, with_same_group(f, true).selects()) + count_where(
            s,
            with_same_group(f, false).selects(),
        ) == count_where(s, f.selects()),
        count_where(s, with_same_group(f, true).selects_helped()) + count_where(
            s,
            with_same_group(f, false).selects_helped(),
        ) == count_where(s, f.selects_helped()),
{
    lemma_count_split(
        s,
        f.selects(),
        with_same_group(f, true).selects(),
        with_same_group(f, false).selects(),
    );
    lemma_count_split(
        s,
        f.selects_helped(),
        with_same_group(f, true).selects_helped(),
        with_same_group(f, false).selects_helped(),
    );
}

/// Splitting a span of rounds at `mid` splits its counts: early plus late
/// rounds give the whole span.
pub proof fn law_rounds_split_counts(s: Seq<Exchange>, f: Filter, from: usize, mid: usize, to: usize)
    requires
        from <= mid <= to,
    ensures
        count_where(s, with_rounds(f, from, mid).selects()) + count_where(
            s,
            with_rounds(f, mid, to).selects(),
        ) == count_where(s, with_rounds(f, from, to).selects()),
        count_where(s, with_rounds(f, from, mid).selects_helped()) + count_where(
            s,
            with_rounds(f, mid, to).selects_helped(),
        ) == count_where(s, with_rounds(f, from, to).selects_helped()),
{
    lemma_count_split(
        s,
        with_rounds(f, from, to).selects(),
        with_rounds(f, from, mid).selects(),
        with_rounds(f, mid, to).selects(),
    );
    lemma_count_split(
        s,
        with_rounds(f, from, to).selects_helped(),
        with_rounds(f, from, mid).selects_helped(),
        with_rounds(f, mid, to).selects_helped(),
    );
}


/// The exchanges in which the helper helped.
pub open spec fn was_help() -> spec_fn(Exchange) -> bool {
    |e: Exchange| e.helped
}

/// The sum of `helped_count` over `ms`.
pub open spec fn total_helps_given(ms: Seq<Member>) -> nat
    decreases ms.len(),
{
    if ms.len() == 0 {
        0
    } else {
        total_helps_given(ms.drop_last()) + ms.last().tally.helped_count as nat
    }
}

/// The sum of `helped_by_count` over `ms`.
pub open spec fn total_helps_received(ms: Seq<Member>) -> nat
    decreases ms.len(),
{
    if ms.len() == 0 {
        0
    } else {
        total_helps_received(ms.drop_last()) + ms.last().tally.helped_by_count as nat
    }
}

/// The helps that members `0..n` gave, as counted in the log.
spec fn log_helps_given(s: Seq<Exchange>, n: nat) -> nat
    decreases n,
{
    if n == 0 {
        0
    } else {
        log_helps_given(s, (n - 1) as nat) + count_where(s, gave((n - 1) as usize))
    }
}

/// The helps that members `0..n` received, as counted in the log.
spec fn log_helps_received(s: Seq<Exchange>, n: nat) -> nat
    decreases n,
{
    if n == 0 {
        0
    } else {
        log_helps_received(s, (n - 1) as nat) + count_where(s, received((n - 1) as usize))
    }
}

proof fn lemma_log_helps_push(s: Seq<Exchange>, e: Exchange, n: nat)
    requires
        n <= usize::MAX,
    ensures
        log_helps_given(s.push(e), n) == log_helps_given(s, n) + if e.helper_id < n
            && e.helped {
            1nat
        } else {
            0nat
        },
        log_helps_received(s.push(e), n) == log_helps_received(s, n) + if e.target_id < n
            && e.helped {
            1nat
        } else {
            0nat
        },
    decreases n,
{
    if n > 0 {
        lemma_log_helps_push(s, e, (n - 1) as nat);
        lemma_count_push(s, e, gave((n - 1) as usize));
        lemma_count_push(s, e, received((n - 1) as usize));
    }
}

proof fn lemma_log_helps_empty(n: nat)
    ensures
        log_helps_given(Seq::<Exchange>::empty(), n) == 0,
        log_helps_received(Seq::<Exchange>::empty(), n) == 0,
    decreases n,
{
    if n > 0 {
        lemma_log_helps_empty((n - 1) as nat);
    }
}

proof fn lemma_log_helps_all(s: Seq<Exchange>, n: nat)
    requires
        n <= usize::MAX,
        forall|j: int| 0 <= j < s.len() ==> (#[trigger] s[j]).helper_id < n && s[j].target_id < n,
    ensures
        log_helps_given(s, n) == count_where(s, was_help()),
        log_helps_received(s, n) == count_where(s, was_help()),
    decreases s.len(),
{
    if s.len() > 0 {
        let rest = s.drop_last();
        assert forall|j: int| 0 <= j < rest.len() implies (#[trigger] rest[j]).helper_id < n
            && rest[j].target_id < n by {
            assert(rest[j] == s[j]);
        }
        lemma_log_helps_all(rest, n);
        assert(rest.push(s.last()) =~= s);
        assert(s.last() == s[s.len() - 1]);
        lemma_log_helps_push(rest, s.last(), n);
    } else {
        assert(s =~= Seq::<Exchange>::empty());
        lemma_log_helps_empty(n);
    }
}

proof fn lemma_member_totals(society: &Society, k: nat)
    requires
        society.wf(),
        k <= society.people().len(),
    ensures
        total_helps_given(society.people().take(k as int)) == log_helps_given(society.log(), k),
        total_helps_received(society.people().take(k as int)) == log_helps_received(
            society.log(),
            k,
        ),
    decreases k,
{
    let ms = society.people();
    if k > 0 {
        lemma_member_totals(society, (k - 1) as nat);
        assert(ms.take(k as int).drop_last() =~= ms.take(k - 1));
        assert(ms.take(k as int).last() == ms[k - 1]);
        assert(ms[k - 1].id == k - 1);
    }
}

/// Every help given is a help received: summed over the population, helps
/// given and helps received both equal the number of helping exchanges in
/// the log.
pub proof fn law_helps_given_equal_helps_received(society: &Society)
    requires
        society.wf(),
    ensures
        total_helps_given(society.people()) == count_where(society.log(), was_help()),
        total_helps_received(society.people()) == count_where(society.log(), was_help()),
{
    let ms = society.people();
    let s = society.log();
    let n = ms.len();
    lemma_member_totals(society, n);
    assert(ms.take(n as int) =~= ms);
    assert forall|j: int| 0 <= j < s.len() implies (#[trigger] s[j]).helper_id < n
        && s[j].target_id < n by {}
    lemma_log_helps_all(s, n);
}

} // verus!
