//! A one-moment profile of a person: whether they are altruistic, honest by
//! default, and how secure they are. Unmet needs shrink capacity, not
//! willingness.

use vstd::prelude::*;
use rand::rngs::StdRng;
use crate::chance::random_ratio;
use crate::needs::{draw_level, valid_level, HIGHEST_LEVEL};

verus! {

/// The most levels a person may lack and still be likely to help.
pub const HELPING_DEFICIT: u8 = 2;

/// The discrete traits of a profile.
#[derive(Clone, Copy, Debug)]
pub struct Character {
    /// Helps others even at personal cost.
    pub altruistic: bool,
    /// Defaults to truth; lies only to protect vulnerable people.
    pub honest_by_default: bool,
    /// Maslow level (1-5).
    pub needs_met_level: u8,
}

/// The discrete outcome of the behavioural model.
#[derive(Clone, Copy, Debug)]
pub struct Conduct {
    pub likely_to_help: bool,
    pub likely_truthful: bool,
}

/// Meet your own needs first: only an altruist at most two levels short of
/// full security is likely to help.
pub open spec fn helps(c: Character) -> bool {
    c.altruistic && HIGHEST_LEVEL - c.needs_met_level <= HELPING_DEFICIT
}

/// Truthfulness: an honest default, or effective empathy above the threshold.
pub open spec fn truthful(c: Character, empathic: bool) -> bool {
    c.honest_by_default || empathic
}

/// The name of a needs level, `"unknown"` outside 1..=5.
pub open spec fn level_name(level: u8) -> Seq<char> {
    if level == 1 {
        "physiological"@
    } else if level == 2 {
        "safety"@
    } else if level == 3 {
        "belonging"@
    } else if level == 4 {
        "esteem"@
    } else if level == 5 {
        "self-actualize"@
    } else {
        "unknown"@
    }
}

impl Character {
    /// Draws the discrete traits: altruistic with chance 3/5, honest by
    /// default with chance 3/4, and a needs level uniform in 1..=5.
    pub fn draw(rng: &mut StdRng) -> (c: Character)
        ensures
            valid_level(c.needs_met_level),
    {
        let altruistic = random_ratio(rng, 3, 5);
        let honest_by_default = random_ratio(rng, 3, 4);
        let needs_met_level = draw_level(rng);
        Character { altruistic, honest_by_default, needs_met_level }
    }

    /// The discrete part of the behavioural model. `empathic` is whether the
    /// person's effective empathy exceeds the truthfulness threshold: high
    /// empathy can make up for situational dishonesty.
    pub fn conduct(&self, empathic: bool) -> (out: Conduct)
        requires
            self.needs_met_level <= HIGHEST_LEVEL,
        ensures
            out.likely_to_help == helps(*self),
            out.likely_truthful == truthful(*self, empathic),
            out.likely_to_help ==> self.altruistic && self.needs_met_level >= 3,
    {
        let need_deficit = HIGHEST_LEVEL - self.needs_met_level;
        let likely_to_help = self.altruistic && need_deficit <= HELPING_DEFICIT;
        let likely_truthful = self.honest_by_default || empathic;
        Conduct { likely_to_help, likely_truthful }
    }

    /// The name of this person's needs level.
    pub fn needs_label(&self) -> (label: &'static str)
        ensures
            label@ == level_name(self.needs_met_level),
    {
        match self.needs_met_level {
            1 => "physiological",
            2 => "safety",
            3 => "belonging",
            4 => "esteem",
            5 => "self-actualize",
            _ => "unknown",
        }
    }
}

/// Meeting more needs never costs the discrete outcomes: raising a person's
/// level (traits otherwise equal) keeps them likely to help if they were, and,
/// with empathy at least as high, likely truthful if they were.
pub proof fn law_security_never_lowers_conduct(
    c: Character,
    higher_level: u8,
    empathic: bool,
    more_empathic: bool,
)
    requires
        c.needs_met_level <= higher_level <= HIGHEST_LEVEL,
        empathic ==> more_empathic,
    ensures
        helps(c) ==> helps(Character { needs_met_level: higher_level, ..c }),
        truthful(c, empathic) ==> truthful(
            Character { needs_met_level: higher_level, ..c },
            more_empathic,
        ),
{
}

/// Who is likely to help, stated on the traits: exactly the altruists at
/// needs level 3 or higher, whatever their honesty. Who is likely truthful:
/// exactly those honest by default or empathic enough, whatever their
/// altruism or level.
pub proof fn law_helpers_are_secure_altruists(c: Character)
    requires
        c.needs_met_level <= HIGHEST_LEVEL,
    ensures
        helps(c) == (c.altruistic && c.needs_met_level >= 3),
        helps(c) == helps(Character { honest_by_default: !c.honest_by_default, ..c }),
        forall|empathic: bool| #[trigger] truthful(c, empathic) == (c.honest_by_default || empathic),
        forall|empathic: bool| #[trigger] truthful(c, empathic) == truthful(
            Character { altruistic: !c.altruistic, needs_met_level: 5, ..c },
            empathic,
        ),
{
}

/// A bar of `width` cells whose first `min(filled, width)` cells are `#` and
/// the rest `-`.
pub open spec fn bar_cells(filled: nat, width: nat) -> Seq<char> {
    Seq::new(width, |i: int| if i < filled { '#' } else { '-' })
}

/// Draws a text bar: `filled` cells of `#` (at most `width`), padded with `-`
/// to `width` cells.
pub fn bar(filled: usize, width: usize) -> (drawn: String)
    ensures
        drawn@ == bar_cells(filled as nat, width as nat),
        drawn@.len() == width,
{
    let filled = if filled < width {
        filled
    } else {
        width
    };
    let mut drawn = String::new();
    let mut i: usize = 0;
    proof {
        reveal_strlit("#");
        reveal_strlit("-");
    }
    while i < width
        invariant
            i <= width,
            filled <= width,
            drawn@ =~= bar_cells(filled as nat, width as nat).take(i as int),
            "#"@ == seq!['#'],
            "-"@ == seq!['-'],
        decreases width - i,
    {
        if i < filled {
            drawn.append("#");
        } else {
            drawn.append("-");
        }
        i = i + 1;
    }
    assert(bar_cells(filled as nat, width as nat) =~= bar_cells(filled as nat, width as nat).take(
        width as int,
    ));
    drawn
}

/// How many indices below `n` satisfy `pred`.
pub open spec fn count_indices(n: nat, pred: spec_fn(int) -> bool) -> nat
    decreases n,
{
    if n == 0 {
        0
    } else {
        count_indices((n - 1) as nat, pred) + if pred(n - 1) {
            1nat
        } else {
            0nat
        }
    }
}

/// The counts of the population summary.
#[derive(Clone, Copy, Debug)]
pub struct Census {
    pub people: usize,
    pub altruists: usize,
    pub honest: usize,
    pub helpers: usize,
    /// People who cannot help now yet remain strongly connected.
    pub connected_but_stretched: usize,
}

/// Summarises a population: how many are altruistic, honest by default,
/// likely to help, and unable to help yet well connected (`well_connected[i]`
/// is whether person `i`'s interdependence exceeds the report's threshold).
pub fn census(
    characters: &Vec<Character>,
    conduct: &Vec<Conduct>,
    well_connected: &Vec<bool>,
) -> (c: Census)
    requires
        conduct@.len() == characters@.len(),
        well_connected@.len() == characters@.len(),
    ensures
        c.people == characters@.len(),
        c.altruists == count_indices(characters@.len(), |i: int| characters@[i].altruistic),
        c.honest == count_indices(characters@.len(), |i: int| characters@[i].honest_by_default),
        c.helpers == count_indices(characters@.len(), |i: int| conduct@[i].likely_to_help),
        c.connected_but_stretched == count_indices(
            characters@.len(),
            |i: int| !conduct@[i].likely_to_help && well_connected@[i],
        ),
{
    let n = characters.len();
    let ghost p_alt = |i: int| characters@[i].altruistic;
    let ghost p_hon = |i: int| characters@[i].honest_by_default;
    let ghost p_help = |i: int| conduct@[i].likely_to_help;
    let ghost p_str = |i: int| !conduct@[i].likely_to_help && well_connected@[i];
    let mut altruists: usize = 0;
    let mut honest: usize = 0;
    let mut helpers: usize = 0;
    let mut stretched: usize = 0;
    let mut i: usize = 0;
    while i < n
        invariant
            n == characters@.len(),
            conduct@.len() == n,
            well_connected@.len() == n,
            i <= n,
            p_alt == (|j: int| characters@[j].altruistic),
            p_hon == (|j: int| characters@[j].honest_by_default),
            p_help == (|j: int| conduct@[j].likely_to_help),
            p_str == (|j: int| !conduct@[j].likely_to_help && well_connected@[j]),
            altruists == count_indices(i as nat, p_alt),
            honest == count_indices(i as nat, p_hon),
            helpers == count_indices(i as nat, p_help),
            stretched == count_indices(i as nat, p_str),
            altruists <= i,
            honest <= i,
            helpers <= i,
            stretched <= i,
        decreases n - i,
    {
        let ch = characters[i];
        if ch.altruistic {
            altruists = altruists + 1;
        }
        if ch.honest_by_default {
            honest = honest + 1;
        }
        if conduct[i].likely_to_help {
            helpers = helpers + 1;
        } else if well_connected[i] {
            stretched = stretched + 1;
        }
        i = i + 1;
    }
    Census { people: n, altruists, honest, helpers, connected_but_stretched: stretched }
}

} // verus!
