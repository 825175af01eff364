//! The discrete side of enemy behaviour: kinds, hit points and the idle/chasing/dead
//! state machine.

use vstd::prelude::*;
use crate::data::EnemyKind;

verus! {

/// What an enemy is doing.
#[derive(Clone, Copy, Debug, PartialEq, Eq, Structural)]
pub enum EnemyState {
    Idle,
    Chasing,
    Dead,
}

/// Damage one melee attack does to the player.
pub const ATTACK_DAMAGE: i32 = 5;

/// Hit points each kind of enemy starts with.
pub open spec fn spec_starting_hp(kind: EnemyKind) -> i32 {
    match kind {
        EnemyKind::Guard => 34,
        EnemyKind::Officer => 44,
        EnemyKind::Ss => 54,
        EnemyKind::Dog => 24,
        EnemyKind::Mutant => 60,
    }
}

/// The state after one update: an enemy that sees the player chases it, a chasing
/// enemy that lost sight of it goes idle, and otherwise nothing changes.
pub open spec fn spec_after_sighting(state: EnemyState, sees_player: bool) -> EnemyState {
    if sees_player {
        EnemyState::Chasing
    } else if state == EnemyState::Chasing {
        EnemyState::Idle
    } else {
        state
    }
}

/// Hit points a freshly spawned enemy of this kind has.
pub fn starting_hp(kind: EnemyKind) -> (hp: i32)
    ensures
        hp == spec_starting_hp(kind),
        hp > 0,
{
    match kind {
        EnemyKind::Guard => 34,
        EnemyKind::Officer => 44,
        EnemyKind::Ss => 54,
        EnemyKind::Dog => 24,
        EnemyKind::Mutant => 60,
    }
}

/// Patrolling enemies start out chasing; the others stand idle.
pub fn initial_state(patrolling: bool) -> (state: EnemyState)
    ensures
        state == (if patrolling {
            EnemyState::Chasing
        } else {
            EnemyState::Idle
        }),
{
    if patrolling {
        EnemyState::Chasing
    } else {
        EnemyState::Idle
    }
}

/// The state of a living enemy after it has looked for the player.
pub fn after_sighting(state: EnemyState, sees_player: bool) -> (next: EnemyState)
    ensures
        next == spec_after_sighting(state, sees_player),
{
    if sees_player {
        EnemyState::Chasing
    } else if state == EnemyState::Chasing {
        EnemyState::Idle
    } else {
        state
    }
}

/// Sighting never kills nor revives: a living enemy stays alive, and it chases exactly
/// when it sees the player.
pub proof fn lemma_sighting_keeps_alive(state: EnemyState, sees_player: bool)
    requires
        state != EnemyState::Dead,
    ensures
        spec_after_sighting(state, sees_player) != EnemyState::Dead,
        (spec_after_sighting(state, sees_player) == EnemyState::Chasing) == sees_player,
{
}

} // verus!
