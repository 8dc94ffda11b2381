//! The second profile model: security first, buffered by resilience and
//! dampened by status sensitivity. Its one discrete decision is whether a
//! person is likely truthful.

use vstd::prelude::*;
use rand::rngs::StdRng;
use crate::chance::random_ratio;

verus! {

/// The name of a needs level in this model, `"Unknown"` outside 1..=5.
pub open spec fn level_name(level: u8) -> Seq<char> {
    if level == 1 {
        "Survival"@
    } else if level == 2 {
        "Safety"@
    } else if level == 3 {
        "Belonging"@
    } else if level == 4 {
        "Esteem"@
    } else if level == 5 {
        "Actualized"@
    } else {
        "Unknown"@
    }
}

/// The name of a needs level in this model.
pub fn needs_label(level: u8) -> (label: &'static str)
    ensures
        label@ == level_name(level),
{
    match level {
        1 => "Survival",
        2 => "Safety",
        3 => "Belonging",
        4 => "Esteem",
        5 => "Actualized",
        _ => "Unknown",
    }
}

/// Truthfulness given the coin that decides a prosocial lie: an honest
/// default settles it; otherwise high effective empathy permits the truth
/// only when the coin comes up.
pub fn truthful_given(honest_default: bool, empathic: bool, coin: bool) -> (truthful: bool)
    ensures
        truthful == (honest_default || (empathic && coin)),
{
    honest_default || (empathic && coin)
}

/// Whether a person is likely truthful. `honest_default` is whether their
/// default honesty exceeds one half and `empathic` whether their effective
/// empathy exceeds the model's threshold; when neither settles it, a coin
/// with chance 7/10 decides, and it is only tossed then.
pub fn decide_truthful(rng: &mut StdRng, honest_default: bool, empathic: bool) -> (truthful: bool)
    ensures
        honest_default ==> truthful,
        !honest_default && !empathic ==> !truthful,
        truthful ==> honest_default || empathic,
        honest_default || !empathic ==> *final(rng) == *old(rng),
{
    let coin = if !honest_default && empathic {
        random_ratio(rng, 7, 10)
    } else {
        false
    };
    truthful_given(honest_default, empathic, coin)
}

} // verus!
