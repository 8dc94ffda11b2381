//! Maslow needs levels (1 = physiological ... 5 = self-actualization) and the
//! integer rules that the model derives from them.

use vstd::prelude::*;
use rand::rngs::StdRng;
use crate::chance::random_below;

verus! {

/// The lowest and the highest needs level.
pub const LOWEST_LEVEL: u8 = 1;
pub const HIGHEST_LEVEL: u8 = 5;

/// The level at or below which a person counts as vulnerable.
pub const VULNERABLE_LEVEL: u8 = 2;

/// A needs level that the model can produce.
pub open spec fn valid_level(level: u8) -> bool {
    LOWEST_LEVEL <= level <= HIGHEST_LEVEL
}

/// How many levels separate `level` from full security.
pub fn need_deficit(level: u8) -> (deficit: u8)
    requires
        level <= HIGHEST_LEVEL,
    ensures
        deficit == HIGHEST_LEVEL - level,
{
    HIGHEST_LEVEL - level
}

/// The divisor of prosocial capacity at `level`: capacity is `1 / divisor`.
pub open spec fn divisor_at(level: u8) -> int {
    1 + (HIGHEST_LEVEL - level)
}

/// Security hypothesis: unmet needs reduce prosocial capacity, not virtue.
/// Capacity is `1 / divisor`: level 5 gives 100%, 4 gives 50%, 3 gives 33%,
/// 2 gives 25% and 1 gives 20%.
pub fn capacity_divisor(level: u8) -> (divisor: u8)
    requires
        level <= HIGHEST_LEVEL,
    ensures
        divisor == divisor_at(level),
        1 <= divisor <= 6,
{
    let deficit = need_deficit(level);
    if deficit == 0 {
        1
    } else {
        1 + deficit
    }
}

/// The weighted needs distribution: a roll in `0..100` becomes a level, with
/// few people at the extremes and most in the middle.
pub open spec fn level_of_roll(roll: u32) -> u8 {
    if roll <= 10 {
        1
    } else if roll <= 30 {
        2
    } else if roll <= 60 {
        3
    } else if roll <= 85 {
        4
    } else {
        5
    }
}

/// How many of the rolls `0..n` give `level`.
pub open spec fn rolls_giving(level: u8, n: nat) -> nat
    decreases n,
{
    if n == 0 {
        0
    } else {
        rolls_giving(level, (n - 1) as nat) + if level_of_roll((n - 1) as u32) == level {
            1nat
        } else {
            0nat
        }
    }
}

/// When exactly the rolls `lo..=hi` give `level`, the rolls `0..n` give it
/// as often as they overlap that band.
proof fn lemma_rolls_in_band(level: u8, lo: nat, hi: nat, n: nat)
    requires
        lo <= hi < 100,
        n <= 100,
        forall|r: nat| r < 100 ==> (#[trigger] level_of_roll(r as u32) == level <==> lo <= r <= hi),
    ensures
        rolls_giving(level, n) == if n <= lo {
            0
        } else if n <= hi + 1 {
            n - lo
        } else {
            hi + 1 - lo
        },
    decreases n,
{
    if n > 0 {
        lemma_rolls_in_band(level, lo, hi, (n - 1) as nat);
        assert(level_of_roll(((n - 1) as nat) as u32) == level <==> lo <= (n - 1) as nat <= hi);
    }
}

/// Few people at the extremes, most in the middle: of the hundred rolls,
/// 11 give level 1, 20 level 2, 30 level 3, 25 level 4 and 14 level 5.
pub proof fn law_weighted_needs_bins()
    ensures
        rolls_giving(1, 100) == 11,
        rolls_giving(2, 100) == 20,
        rolls_giving(3, 100) == 30,
        rolls_giving(4, 100) == 25,
        rolls_giving(5, 100) == 14,
{
    lemma_rolls_in_band(1, 0, 10, 100);
    lemma_rolls_in_band(2, 11, 30, 100);
    lemma_rolls_in_band(3, 31, 60, 100);
    lemma_rolls_in_band(4, 61, 85, 100);
    lemma_rolls_in_band(5, 86, 99, 100);
}

/// Maps a percentile roll to a needs level (see `level_of_roll`).
pub fn needs_from_roll(roll: u32) -> (level: u8)
    ensures
        level == level_of_roll(roll),
        valid_level(level),
{
    if roll <= 10 {
        1
    } else if roll <= 30 {
        2
    } else if roll <= 60 {
        3
    } else if roll <= 85 {
        4
    } else {
        5
    }
}

/// The needs level that a draw `offset` below 5 selects.
pub fn level_from_offset(offset: u32) -> (level: u8)
    requires
        offset < 5,
    ensures
        level == offset + 1,
        valid_level(level),
{
    1 + offset as u8
}

/// Draws a needs level uniformly from 1 to 5: a draw below 5, mapped by
/// `level_from_offset`.
pub fn draw_level(rng: &mut StdRng) -> (level: u8)
    ensures
        valid_level(level),
{
    let offset = random_below(rng, 5);
    level_from_offset(offset)
}

/// Draws a percentile roll and maps it to a needs level with the weighted
/// distribution.
pub fn draw_weighted_level(rng: &mut StdRng) -> (level: u8)
    ensures
        valid_level(level),
{
    let roll = random_below(rng, 100);
    needs_from_roll(roll)
}

/// Meeting more needs never lowers prosocial capacity: the capacity divisor
/// (and with it the need deficit) never grows as the level rises.
pub proof fn law_capacity_grows_with_level(lower: u8, higher: u8)
    requires
        lower <= higher <= HIGHEST_LEVEL,
    ensures
        divisor_at(higher) <= divisor_at(lower),
{
}

} // verus!
