//! The random decision rules: whether a popup fires on a tick and what
//! opacity it gets. Randomness comes from an injectable `rand::rngs::StdRng`
//! handed in by the caller, so a seeded source reproduces every decision.

use vstd::prelude::*;

verus! {

/// Declares rand's `StdRng` so a random source can stand in signatures; the
/// library never looks inside one, it only draws from it.
#[verifier::external_type_specification]
#[verifier::external_body]
pub struct ExStdRng(rand::rngs::StdRng);

/// Relies on rand's `Rng::gen_range` over the inclusive range `lo..=hi`:
/// it returns a value of that range, and panics only on an empty range,
/// which `lo <= hi` rules out. Nothing more is assumed of the draw.
#[verifier::external_body]
fn draw_inclusive(rng: &mut rand::rngs::StdRng, lo: u8, hi: u8) -> (r: u8)
    requires
        lo <= hi,
    ensures
        lo <= r <= hi,
{
    rand::Rng::gen_range(rng, lo..=hi)
}

/// The firing rule: a tick fires when the roll falls below the drawn
/// threshold, so a threshold of `t` fires with probability `t` in 100.
pub open spec fn fire_rule(threshold: u8, roll: u8) -> bool {
    roll < threshold
}

/// Decides whether a popup fires this tick: draws a threshold uniformly from
/// `chance_min..=chance_max` and a roll uniformly from `0..100`, and fires
/// exactly when the roll is below the threshold. With `chance_max == 0` no
/// tick ever fires; with `chance_min == 100` every tick fires.
pub fn decide_fire(chance_min: u8, chance_max: u8, rng: &mut rand::rngs::StdRng) -> (fire: bool)
    requires
        chance_min <= chance_max,
        chance_max <= 100,
    ensures
        chance_max == 0 ==> !fire,
        chance_min == 100 ==> fire,
        exists|threshold: u8, roll: u8|
            chance_min <= threshold <= chance_max && roll < 100 && fire == #[trigger] fire_rule(
                threshold,
                roll,
            ),
{
    let threshold = draw_inclusive(rng, chance_min, chance_max);
    let roll = draw_inclusive(rng, 0, 99);
    let fire = roll < threshold;
    proof {
        assert(chance_min <= threshold <= chance_max && roll < 100 && fire == fire_rule(
            threshold,
            roll,
        ));
    }
    fire
}

/// Draws the opacity for one popup, uniformly from the configured inclusive
/// range. Equal bounds make the draw the constant value, never an error.
pub fn decide_opacity(opacity_min: u8, opacity_max: u8, rng: &mut rand::rngs::StdRng) -> (opacity:
    u8)
    requires
        opacity_min <= opacity_max,
        opacity_max <= 100,
    ensures
        opacity_min <= opacity <= opacity_max,
        opacity_min == opacity_max ==> opacity == opacity_min,
{
    draw_inclusive(rng, opacity_min, opacity_max)
}

} // verus!
