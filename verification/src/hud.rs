//! What the HUD reports: the figures it shows, computed from the game state.

use vstd::prelude::*;
use crate::fsm::GameState;
use crate::world::DoorSlot;

verus! {

/// The figures shown on the HUD besides the map overview.
pub struct HudStats<'a> {
    pub state: GameState,
    pub player_health: i32,
    pub kills: u32,
    pub enemies_alive: usize,
    pub status_message: &'a str,
}

/// How many of the doors are vertical.
pub open spec fn vertical_count(doors: Seq<DoorSlot>) -> nat
    decreases doors.len(),
{
    if doors.len() == 0 {
        0
    } else {
        vertical_count(doors.drop_last()) + if doors.last().vertical {
            1nat
        } else {
            0nat
        }
    }
}

/// The highest lock number among the doors, 0 when there are none.
pub open spec fn max_lock(doors: Seq<DoorSlot>) -> u8
    decreases doors.len(),
{
    if doors.len() == 0 {
        0
    } else {
        let rest = max_lock(doors.drop_last());
        if doors.last().lock > rest {
            doors.last().lock
        } else {
            rest
        }
    }
}

/// How many info-plane values are markers (non-zero).
pub open spec fn marker_count(info: Seq<u16>) -> nat
    decreases info.len(),
{
    if info.len() == 0 {
        0
    } else {
        marker_count(info.drop_last()) + if info.last() > 0 {
            1nat
        } else {
            0nat
        }
    }
}

/// Counts the vertical doors and finds the highest lock number.
pub fn door_overview(doors: &[DoorSlot]) -> (overview: (usize, u8))
    ensures
        overview.0 == vertical_count(doors@),
        overview.1 == max_lock(doors@),
{
    let len = doors.len();
    let mut vertical: usize = 0;
    let mut highest: u8 = 0;
    for i in 0..len
        invariant
            len == doors@.len(),
            vertical == vertical_count(doors@.take(i as int)),
            vertical <= i,
            highest == max_lock(doors@.take(i as int)),
    {
        assert(doors@.take(i + 1).drop_last() =~= doors@.take(i as int));
        if doors[i].vertical {
            vertical = vertical + 1;
        }
        if doors[i].lock > highest {
            highest = doors[i].lock;
        }
    }
    assert(doors@.take(len as int) =~= doors@);
    (vertical, highest)
}

/// Counts the non-zero values of an info plane.
pub fn count_info_markers(info: &[u16]) -> (count: usize)
    ensures
        count == marker_count(info@),
{
    let len = info.len();
    let mut count: usize = 0;
    for i in 0..len
        invariant
            len == info@.len(),
            count == marker_count(info@.take(i as int)),
            count <= i,
    {
        assert(info@.take(i + 1).drop_last() =~= info@.take(i as int));
        if info[i] > 0 {
            count = count + 1;
        }
    }
    assert(info@.take(len as int) =~= info@);
    count
}

} // verus!
