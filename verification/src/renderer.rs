//! Wall lookup on a map drawn as rows of text, `#` marking walls.

use vstd::prelude::*;
use vstd::string::StringSliceAdditionalSpecFns;

verus! {

/// The byte that marks a wall in a text map: ASCII `#`.
pub const WALL_MARK: u8 = 35;

/// Whether cell `(x, y)` of a text map is solid: cells off the map count as walls.
pub open spec fn wall_cell(rows: Seq<&str>, x: int, y: int) -> bool {
    if x < 0 || y < 0 || y >= rows.len() {
        true
    } else {
        let row = rows[y].spec_bytes();
        if x >= row.len() {
            true
        } else {
            row[x] == WALL_MARK
        }
    }
}

/// Whether cell `(x, y)` of a text map is a wall (`#`) or lies off the map.
pub fn is_wall(map: &[&str], x: i32, y: i32) -> (wall: bool)
    ensures
        wall == wall_cell(map@, x as int, y as int),
{
    if x < 0 || y < 0 || y as usize >= map.len() {
        return true;
    }

    let row = map[y as usize].as_bytes();
    if x as usize >= row.len() {
        return true;
    }

    row[x as usize] == WALL_MARK
}

} // verus!
