//! The player commands input can produce.

use vstd::prelude::*;

verus! {

/// Step forward along the current heading.
pub struct MoveForward;

/// Step backward along the current heading.
pub struct MoveBackward;

/// Turn counter-clockwise.
pub struct TurnLeft;

/// Turn clockwise.
pub struct TurnRight;

} // verus!
