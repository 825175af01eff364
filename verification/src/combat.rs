//! What a hit from the player's weapon does to the enemy it strikes.

use vstd::prelude::*;
use crate::enemy::EnemyState;

verus! {

/// Damage of one shot.
pub const FIRE_DAMAGE: i32 = 34;

/// Whether the shot killed its target.
#[derive(Clone, Copy, Debug, PartialEq, Eq, Structural)]
pub struct FireOutcome {
    pub kill: bool,
}

/// What a hit does: the target loses `FIRE_DAMAGE` hit points and starts chasing, or
/// dies when it has none left.
pub open spec fn spec_hit(hp: i32) -> (i32, EnemyState, FireOutcome) {
    let left = (hp - FIRE_DAMAGE) as i32;
    if left <= 0 {
        (left, EnemyState::Dead, FireOutcome { kill: true })
    } else {
        (left, EnemyState::Chasing, FireOutcome { kill: false })
    }
}

/// Applies one hit to an enemy with `hp` hit points: returns its new hit points,
/// its new state and whether it was killed.
pub fn apply_hit(hp: i32) -> (result: (i32, EnemyState, FireOutcome))
    requires
        hp >= i32::MIN + FIRE_DAMAGE,
    ensures
        result == spec_hit(hp),
        result.0 == hp - FIRE_DAMAGE,
{
    let left = hp - FIRE_DAMAGE;
    let mut state = EnemyState::Chasing;
    let kill = left <= 0;
    if kill {
        state = EnemyState::Dead;
    }
    (left, state, FireOutcome { kill })
}

/// A hit kills exactly when the target had at most `FIRE_DAMAGE` hit points, and the
/// target ends up dead exactly when the outcome reports a kill.
pub proof fn lemma_hit_kills(hp: i32)
    requires
        hp >= i32::MIN + FIRE_DAMAGE,
    ensures
        spec_hit(hp).2.kill == (hp <= FIRE_DAMAGE),
        (spec_hit(hp).1 == EnemyState::Dead) == spec_hit(hp).2.kill,
{
}

} // verus!
