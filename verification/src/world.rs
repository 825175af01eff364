//! The discrete rules of the game world: which tiles block movement, how doors react
//! to being used and to time passing, and one-shot action requests.
//!
//! Door motion (how far a door has slid, how long it stays open) is measured in
//! seconds and lives with the caller; what is decided here only depends on tiles,
//! door states, whether a door currently blocks and whether a motion has finished.

use vstd::prelude::*;
use crate::data::{DoorSpawn, TileMap};

verus! {

/// What a door is doing.
#[derive(Clone, Copy, Debug, PartialEq, Eq, Structural)]
pub enum DoorState {
    Closed,
    Opening,
    Open,
    Closing,
}

/// The discrete part of a live door: where it is, what it looks like and what it does.
#[derive(Clone, Copy, Debug, PartialEq, Eq, Structural)]
pub struct DoorSlot {
    pub x: usize,
    pub y: usize,
    pub vertical: bool,
    pub lock: u8,
    pub tile: u16,
    pub state: DoorState,
}

/// Whether the map's planes hold one value for every tile.
pub open spec fn map_is_complete(map: TileMap) -> bool {
    &&& map.walls@.len() == map.width * map.height
    &&& map.info@.len() == map.width * map.height
}

/// The wall-plane value of tile `(x, y)`.
pub open spec fn wall_at(map: TileMap, x: int, y: int) -> u16 {
    map.walls@[y * map.width + x]
}

/// The first door, in list order, standing on tile `(x, y)`.
pub open spec fn first_door_from(doors: Seq<DoorSlot>, x: int, y: int, k: int) -> Option<int>
    decreases doors.len() - k,
{
    if k < 0 || k >= doors.len() {
        None
    } else if doors[k].x == x && doors[k].y == y {
        Some(k)
    } else {
        first_door_from(doors, x, y, k + 1)
    }
}

/// The first door in `doors` standing on tile `(x, y)`.
pub open spec fn door_index_at(doors: Seq<DoorSlot>, x: int, y: int) -> Option<int> {
    first_door_from(doors, x, y, 0)
}

/// The door found by the search lies in the searched range and stands on the tile.
pub proof fn lemma_first_door_from(doors: Seq<DoorSlot>, x: int, y: int, k: int)
    ensures
        first_door_from(doors, x, y, k) matches Some(j) ==> {
            &&& k <= j < doors.len()
            &&& 0 <= j
            &&& doors[j].x == x
            &&& doors[j].y == y
        },
    decreases doors.len() - k,
{
    if k >= 0 && k < doors.len() && !(doors[k].x == x && doors[k].y == y) {
        lemma_first_door_from(doors, x, y, k + 1);
    }
}

/// What using a door does to it: an opening or open door starts closing, any other
/// door starts opening.
pub open spec fn state_after_use(state: DoorState) -> DoorState {
    match state {
        DoorState::Open | DoorState::Opening => DoorState::Closing,
        _ => DoorState::Opening,
    }
}

/// Whether tile `(x, y)` blocks movement, given whether the door at that tile (when
/// there is one) currently blocks: off the map blocks, empty floor does not, a door
/// blocks when `door_blocks` says so, and any other wall blocks.
pub open spec fn tile_blocks(map: TileMap, doors: Seq<DoorSlot>, x: int, y: int, door_blocks: bool) -> bool {
    if x < 0 || y < 0 || x >= map.width || y >= map.height {
        true
    } else if wall_at(map, x, y) == 0 {
        false
    } else if door_index_at(doors, x, y) is Some {
        door_blocks
    } else {
        true
    }
}

/// Using a door never leaves it closed or open: a closed door needs two uses to start
/// closing again, and a closing door that is used starts opening.
pub proof fn lemma_door_use_cycle(state: DoorState)
    ensures
        state_after_use(state) == DoorState::Opening || state_after_use(state)
            == DoorState::Closing,
        state_after_use(DoorState::Closed) == DoorState::Opening,
        state_after_use(state_after_use(DoorState::Closed)) == DoorState::Closing,
        state_after_use(DoorState::Closing) == DoorState::Opening,
{
}

/// What a door does during one time step.
#[derive(Clone, Copy, Debug, PartialEq, Eq, Structural)]
pub enum DoorStep {
    /// Nothing moves.
    Stay,
    /// The door slides further open.
    SlideOpen,
    /// The door stays open while its hold time runs down.
    HoldOpen,
    /// The door slides further shut.
    SlideClosed,
    /// The door stops closing and opens again, its hold time starting over.
    Reopen,
}

/// The step a door in `state` takes; a closing door does not close on a player
/// standing in its doorway.
pub open spec fn spec_door_step(state: DoorState, player_in_doorway: bool) -> DoorStep {
    match state {
        DoorState::Closed => DoorStep::Stay,
        DoorState::Opening => DoorStep::SlideOpen,
        DoorState::Open => DoorStep::HoldOpen,
        DoorState::Closing => if player_in_doorway {
            DoorStep::Reopen
        } else {
            DoorStep::SlideClosed
        },
    }
}

/// The state after `step`, given whether the motion reached its end (fully open,
/// hold time over, or fully shut).
pub open spec fn spec_state_after_step(state: DoorState, step: DoorStep, finished: bool) -> DoorState {
    match step {
        DoorStep::Stay => state,
        DoorStep::SlideOpen => if finished {
            DoorState::Open
        } else {
            DoorState::Opening
        },
        DoorStep::HoldOpen => if finished {
            DoorState::Closing
        } else {
            DoorState::Open
        },
        DoorStep::SlideClosed => if finished {
            DoorState::Closed
        } else {
            DoorState::Closing
        },
        DoorStep::Reopen => DoorState::Open,
    }
}

/// The step a door in `state` takes during one time step.
pub fn door_step(state: DoorState, player_in_doorway: bool) -> (step: DoorStep)
    ensures
        step == spec_door_step(state, player_in_doorway),
{
    match state {
        DoorState::Closed => DoorStep::Stay,
        DoorState::Opening => DoorStep::SlideOpen,
        DoorState::Open => DoorStep::HoldOpen,
        DoorState::Closing => {
            if player_in_doorway {
                DoorStep::Reopen
            } else {
                DoorStep::SlideClosed
            }
        },
    }
}

/// The state a door is in after taking `step`.
pub fn state_after_step(state: DoorState, step: DoorStep, finished: bool) -> (next: DoorState)
    ensures
        next == spec_state_after_step(state, step, finished),
{
    match step {
        DoorStep::Stay => state,
        DoorStep::SlideOpen => {
            if finished {
                DoorState::Open
            } else {
                DoorState::Opening
            }
        },
        DoorStep::HoldOpen => {
            if finished {
                DoorState::Closing
            } else {
                DoorState::Open
            }
        },
        DoorStep::SlideClosed => {
            if finished {
                DoorState::Closed
            } else {
                DoorState::Closing
            }
        },
        DoorStep::Reopen => DoorState::Open,
    }
}

/// A door never closes on a player standing in its doorway: whatever the motion does,
/// a door that was not already closed is not closed after the step, it never slides
/// further shut, and a closing door stops where it is and opens again with its hold
/// time starting over.
pub proof fn lemma_door_spares_doorway(state: DoorState, finished: bool)
    requires
        state != DoorState::Closed,
    ensures
        spec_state_after_step(state, spec_door_step(state, true), finished) != DoorState::Closed,
        spec_door_step(state, true) != DoorStep::SlideClosed,
        state == DoorState::Closing ==> spec_door_step(state, true) == DoorStep::Reopen,
        state == DoorState::Closing ==> spec_state_after_step(
            state,
            spec_door_step(state, true),
            finished,
        ) == DoorState::Open,
{
}

/// Doors move through their states in one order: closed doors stay closed until used,
/// opening leads to open, open to closing, and closing to closed (or back to open).
pub proof fn lemma_door_step_order(state: DoorState, player_in_doorway: bool, finished: bool)
    ensures
        ({
            let next = spec_state_after_step(
                state,
                spec_door_step(state, player_in_doorway),
                finished,
            );
            &&& state == DoorState::Closed ==> next == DoorState::Closed
            &&& state == DoorState::Opening ==> next == DoorState::Opening || next
                == DoorState::Open
            &&& state == DoorState::Open ==> next == DoorState::Open || next == DoorState::Closing
            &&& state == DoorState::Closing ==> next == DoorState::Closing || next
                == DoorState::Closed || next == DoorState::Open
        }),
{
}

/// A closed door in the place of a door spawn.
pub fn door_slot_from_spawn(spawn: DoorSpawn) -> (slot: DoorSlot)
    ensures
        slot == (DoorSlot {
            x: spawn.x,
            y: spawn.y,
            vertical: spawn.vertical,
            lock: spawn.lock,
            tile: spawn.tile,
            state: DoorState::Closed,
        }),
{
    DoorSlot {
        x: spawn.x,
        y: spawn.y,
        vertical: spawn.vertical,
        lock: spawn.lock,
        tile: spawn.tile,
        state: DoorState::Closed,
    }
}

/// The index of the first door standing on tile `(x, y)`.
pub fn find_door_at(doors: &[DoorSlot], x: usize, y: usize) -> (found: Option<usize>)
    ensures
        match door_index_at(doors@, x as int, y as int) {
            Some(k) => found == Some(k as usize),
            None => found is None,
        },
{
    let len = doors.len();
    let mut k: usize = 0;
    while k < len
        invariant
            k <= len,
            len == doors@.len(),
            door_index_at(doors@, x as int, y as int) == first_door_from(
                doors@,
                x as int,
                y as int,
                k as int,
            ),
        decreases len - k,
    {
        if doors[k].x == x && doors[k].y == y {
            return Some(k);
        }
        k = k + 1;
    }
    None
}

/// The blocking flag of the first door standing on tile `(x, y)`, as `door_blocking`
/// gives it per door; `true` where no door stands there.
pub open spec fn door_flag(door_blocking: Seq<bool>, doors: Seq<DoorSlot>, x: int, y: int) -> bool {
    match door_index_at(doors, x, y) {
        Some(i) => door_blocking[i],
        None => true,
    }
}

/// Whether tile `(x, y)` blocks movement; `door_blocking[i]` tells whether door `i` is
/// still too closed to walk through.
pub fn is_tile_blocked(
    map: &TileMap,
    doors: &[DoorSlot],
    x: i32,
    y: i32,
    door_blocking: &[bool],
) -> (blocked: bool)
    requires
        map.walls@.len() >= map.width * map.height,
        door_blocking@.len() == doors@.len(),
    ensures
        blocked == tile_blocks(
            *map,
            doors@,
            x as int,
            y as int,
            door_flag(door_blocking@, doors@, x as int, y as int),
        ),
{
    proof {
        lemma_first_door_from(doors@, x as int, y as int, 0);
    }
    if x < 0 || y < 0 {
        return true;
    }
    let ux = x as usize;
    let uy = y as usize;
    if ux >= map.width || uy >= map.height {
        return true;
    }
    proof {
        crate::planes::lemma_cell_index(ux as int, uy as int, map.width as int, map.height as int);
    }
    let _cells = map.walls.len();
    let tile = map.walls[uy * map.width + ux];
    if tile == 0 {
        return false;
    }
    match find_door_at(doors, ux, uy) {
        Some(index) => door_blocking[index],
        None => true,
    }
}

/// Uses the first door on tile `(x, y)`, if any: an opening or open door starts closing,
/// any other starts opening. Returns the index of the door used.
pub fn interact_door_at(doors: &mut Vec<DoorSlot>, x: i32, y: i32) -> (used: Option<usize>)
    ensures
        x < 0 || y < 0 ==> used is None && final(doors)@ == old(doors)@,
        x >= 0 && y >= 0 ==> match door_index_at(old(doors)@, x as int, y as int) {
            Some(k) => {
                &&& used == Some(k as usize)
                &&& final(doors)@ == old(doors)@.update(
                    k,
                    DoorSlot { state: state_after_use(old(doors)@[k].state), ..old(doors)@[k] },
                )
            },
            None => used is None && final(doors)@ == old(doors)@,
        },
{
    proof {
        lemma_first_door_from(old(doors)@, x as int, y as int, 0);
    }
    if x < 0 || y < 0 {
        return None;
    }
    let ux = x as usize;
    let uy = y as usize;
    let _count = doors.len();
    match find_door_at(doors.as_slice(), ux, uy) {
        Some(index) => {
            let mut door = doors[index];
            let next = if door.state == DoorState::Open || door.state == DoorState::Opening {
                DoorState::Closing
            } else {
                DoorState::Opening
            };
            assert(next == state_after_use(door.state));
            door.state = next;
            doors[index] = door;
            Some(index)
        },
        None => None,
    }
}

/// A one-shot request (such as "use" or "fire"): set by input, taken once by the game.
pub struct RequestLatch {
    pending: bool,
}

impl RequestLatch {
    /// Whether a request is waiting.
    pub closed spec fn is_pending(&self) -> bool {
        self.pending
    }

    /// A latch with nothing requested.
    pub fn new() -> (latch: Self)
        ensures
            !latch.is_pending(),
    {
        RequestLatch { pending: false }
    }

    /// Records a request.
    pub fn request(&mut self)
        ensures
            final(self).is_pending(),
    {
        self.pending = true;
    }

    /// Takes the request: returns whether one was waiting and clears it.
    pub fn consume(&mut self) -> (was_pending: bool)
        ensures
            was_pending == old(self).is_pending(),
            !final(self).is_pending(),
    {
        let value = self.pending;
        self.pending = false;
        value
    }
}

} // verus!
