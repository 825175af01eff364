//! What a decoded map holds: walls with the non-solid markers cleared, doors, enemies
//! and the player start, all read out of the planes in row-major order.

use vstd::prelude::*;
use crate::data::{DoorSpawn, EnemyKind, EnemySpawn, Facing, PlayerStart};

verus! {

/// Tiles at and above this value in the wall plane are floor areas.
pub const AREA_TILE: u16 = 107;

/// Ambush marker in the wall plane; it is floor as well.
pub const AMBUSH_TILE: u16 = 106;

/// Lowest info-plane value that marks the player start.
pub const PLAYER_SPAWN_MIN: u16 = 19;

/// Highest info-plane value that marks the player start.
pub const PLAYER_SPAWN_MAX: u16 = 22;

/// Wall-plane values 90..=101 are doors.
pub open spec fn is_door_tile(tile: u16) -> bool {
    90 <= tile <= 101
}

/// A wall-plane value after clearing floor areas and the ambush marker; doors stay.
pub open spec fn normalized_tile(tile: u16) -> u16 {
    if is_door_tile(tile) {
        tile
    } else if tile == AMBUSH_TILE || tile >= AREA_TILE {
        0
    } else {
        tile
    }
}

/// Clearing markers twice clears nothing more, and doors are never cleared.
pub proof fn lemma_normalize_settles(tile: u16)
    ensures
        normalized_tile(normalized_tile(tile)) == normalized_tile(tile),
        is_door_tile(tile) ==> normalized_tile(tile) == tile,
{
}

/// The door standing on tile `(x, y)` of value `tile`: even values are vertical doors,
/// and each pair of values shares one lock.
pub open spec fn door_spawn_of(tile: u16, x: int, y: int) -> DoorSpawn {
    DoorSpawn {
        x: x as usize,
        y: y as usize,
        vertical: tile % 2 == 0,
        lock: ((tile - 90) / 2) as u8,
        tile,
    }
}

/// The doors among the first `n` cells of a plane `width` cells wide.
pub open spec fn door_spawns(walls: Seq<u16>, width: nat, n: nat) -> Seq<DoorSpawn>
    decreases n,
{
    if n == 0 {
        Seq::empty()
    } else {
        let k = n - 1;
        let before = door_spawns(walls, width, k as nat);
        if is_door_tile(walls[k]) {
            before.push(door_spawn_of(walls[k], k % (width as int), k / (width as int)))
        } else {
            before
        }
    }
}

/// Whether `tile` lies in one of three bands of four values: `first..=first+3`,
/// then the same `stride` and `2 * stride` higher (one band per difficulty).
pub open spec fn in_bands(tile: u16, first: int, stride: int) -> bool {
    ||| first <= tile <= first + 3
    ||| first + stride <= tile <= first + stride + 3
    ||| first + 2 * stride <= tile <= first + 2 * stride + 3
}

/// The enemy, and whether it patrols, that an info-plane value places.
pub open spec fn enemy_of_tile(tile: u16) -> Option<(EnemyKind, bool)> {
    if in_bands(tile, 108, 36) {
        Some((EnemyKind::Guard, false))
    } else if in_bands(tile, 112, 36) {
        Some((EnemyKind::Guard, true))
    } else if in_bands(tile, 116, 36) {
        Some((EnemyKind::Officer, false))
    } else if in_bands(tile, 120, 36) {
        Some((EnemyKind::Officer, true))
    } else if in_bands(tile, 126, 36) {
        Some((EnemyKind::Ss, false))
    } else if in_bands(tile, 130, 36) {
        Some((EnemyKind::Ss, true))
    } else if in_bands(tile, 134, 36) {
        Some((EnemyKind::Dog, false))
    } else if in_bands(tile, 138, 36) {
        Some((EnemyKind::Dog, true))
    } else if in_bands(tile, 216, 18) {
        Some((EnemyKind::Mutant, false))
    } else if in_bands(tile, 220, 18) {
        Some((EnemyKind::Mutant, true))
    } else {
        None
    }
}

/// The enemy table by value: standing and patrolling guards, officers, SS and dogs in
/// bands of four at 108, 144 and 180 (one band per difficulty), mutants at 216, 234
/// and 252, and nothing on any other value.
pub proof fn lemma_enemy_table(tile: u16)
    ensures
        108 <= tile <= 111 ==> enemy_of_tile(tile) == Some((EnemyKind::Guard, false)),
        144 <= tile <= 147 ==> enemy_of_tile(tile) == Some((EnemyKind::Guard, false)),
        180 <= tile <= 183 ==> enemy_of_tile(tile) == Some((EnemyKind::Guard, false)),
        112 <= tile <= 115 ==> enemy_of_tile(tile) == Some((EnemyKind::Guard, true)),
        148 <= tile <= 151 ==> enemy_of_tile(tile) == Some((EnemyKind::Guard, true)),
        184 <= tile <= 187 ==> enemy_of_tile(tile) == Some((EnemyKind::Guard, true)),
        116 <= tile <= 119 ==> enemy_of_tile(tile) == Some((EnemyKind::Officer, false)),
        152 <= tile <= 155 ==> enemy_of_tile(tile) == Some((EnemyKind::Officer, false)),
        188 <= tile <= 191 ==> enemy_of_tile(tile) == Some((EnemyKind::Officer, false)),
        120 <= tile <= 123 ==> enemy_of_tile(tile) == Some((EnemyKind::Officer, true)),
        156 <= tile <= 159 ==> enemy_of_tile(tile) == Some((EnemyKind::Officer, true)),
        192 <= tile <= 195 ==> enemy_of_tile(tile) == Some((EnemyKind::Officer, true)),
        126 <= tile <= 129 ==> enemy_of_tile(tile) == Some((EnemyKind::Ss, false)),
        162 <= tile <= 165 ==> enemy_of_tile(tile) == Some((EnemyKind::Ss, false)),
        198 <= tile <= 201 ==> enemy_of_tile(tile) == Some((EnemyKind::Ss, false)),
        130 <= tile <= 133 ==> enemy_of_tile(tile) == Some((EnemyKind::Ss, true)),
        166 <= tile <= 169 ==> enemy_of_tile(tile) == Some((EnemyKind::Ss, true)),
        202 <= tile <= 205 ==> enemy_of_tile(tile) == Some((EnemyKind::Ss, true)),
        134 <= tile <= 137 ==> enemy_of_tile(tile) == Some((EnemyKind::Dog, false)),
        170 <= tile <= 173 ==> enemy_of_tile(tile) == Some((EnemyKind::Dog, false)),
        206 <= tile <= 209 ==> enemy_of_tile(tile) == Some((EnemyKind::Dog, false)),
        138 <= tile <= 141 ==> enemy_of_tile(tile) == Some((EnemyKind::Dog, true)),
        174 <= tile <= 177 ==> enemy_of_tile(tile) == Some((EnemyKind::Dog, true)),
        210 <= tile <= 213 ==> enemy_of_tile(tile) == Some((EnemyKind::Dog, true)),
        216 <= tile <= 219 ==> enemy_of_tile(tile) == Some((EnemyKind::Mutant, false)),
        234 <= tile <= 237 ==> enemy_of_tile(tile) == Some((EnemyKind::Mutant, false)),
        252 <= tile <= 255 ==> enemy_of_tile(tile) == Some((EnemyKind::Mutant, false)),
        220 <= tile <= 223 ==> enemy_of_tile(tile) == Some((EnemyKind::Mutant, true)),
        238 <= tile <= 241 ==> enemy_of_tile(tile) == Some((EnemyKind::Mutant, true)),
        256 <= tile <= 259 ==> enemy_of_tile(tile) == Some((EnemyKind::Mutant, true)),
        tile <= 107 ==> enemy_of_tile(tile) is None,
        124 <= tile <= 125 ==> enemy_of_tile(tile) is None,
        142 <= tile <= 143 ==> enemy_of_tile(tile) is None,
        160 <= tile <= 161 ==> enemy_of_tile(tile) is None,
        178 <= tile <= 179 ==> enemy_of_tile(tile) is None,
        196 <= tile <= 197 ==> enemy_of_tile(tile) is None,
        214 <= tile <= 215 ==> enemy_of_tile(tile) is None,
        224 <= tile <= 233 ==> enemy_of_tile(tile) is None,
        242 <= tile <= 251 ==> enemy_of_tile(tile) is None,
        tile >= 260 ==> enemy_of_tile(tile) is None,
{
}

/// The enemies among the first `n` cells of an info plane `width` cells wide.
pub open spec fn enemy_spawns(info: Seq<u16>, width: nat, n: nat) -> Seq<EnemySpawn>
    decreases n,
{
    if n == 0 {
        Seq::empty()
    } else {
        let k = n - 1;
        let before = enemy_spawns(info, width, k as nat);
        match enemy_of_tile(info[k]) {
            Some((kind, patrolling)) => before.push(
                EnemySpawn {
                    kind,
                    tile_x: (k % (width as int)) as usize,
                    tile_y: (k / (width as int)) as usize,
                    patrolling,
                },
            ),
            None => before,
        }
    }
}

/// Info-plane values 19..=22 mark the player start.
pub open spec fn is_start_tile(tile: u16) -> bool {
    PLAYER_SPAWN_MIN <= tile <= PLAYER_SPAWN_MAX
}

/// The heading a start marker gives: 19 north, 20 east, 21 south, 22 west.
pub open spec fn facing_of(tile: u16) -> Facing {
    if tile == 19 {
        Facing::North
    } else if tile == 21 {
        Facing::South
    } else if tile == 22 {
        Facing::West
    } else {
        Facing::East
    }
}

/// The first cell at or after `k` and before `n` that holds a start marker.
pub open spec fn first_start_from(info: Seq<u16>, k: int, n: int) -> Option<int>
    decreases n - k,
{
    if k >= n {
        None
    } else if is_start_tile(info[k]) {
        Some(k)
    } else {
        first_start_from(info, k + 1, n)
    }
}

/// Where the player starts on a `width` x `height` info plane: the first start marker
/// in row-major order, or tile (2, 2) facing east when there is none.
pub open spec fn player_start_of(info: Seq<u16>, width: nat, height: nat) -> PlayerStart {
    match first_start_from(info, 0, (width * height) as int) {
        Some(k) => PlayerStart {
            tile_x: (k % (width as int)) as usize,
            tile_y: (k / (width as int)) as usize,
            facing: facing_of(info[k]),
        },
        None => PlayerStart { tile_x: 2, tile_y: 2, facing: Facing::East },
    }
}

/// Cell `(x, y)` of a `width` x `height` plane is cell `y * width + x` in row-major order.
pub proof fn lemma_cell_index(x: int, y: int, width: int, height: int)
    requires
        0 <= x < width,
        0 <= y < height,
    ensures
        0 <= y * width,
        y * width + x < width * height,
        y * width + width <= width * height,
        (y + 1) * width == y * width + width,
        (y * width + x) % width == x,
        (y * width + x) / width == y,
{
    assert(0 <= y * width) by (nonlinear_arith)
        requires
            0 <= y,
            0 <= width,
    ;
    assert(y * width + width <= width * height) by (nonlinear_arith)
        requires
            0 <= y < height,
            0 < width,
    ;
    assert((y + 1) * width == y * width + width) by (nonlinear_arith);
    vstd::arithmetic::div_mod::lemma_fundamental_div_mod_converse(y * width + x, width, y, x);
}

/// Cell `k` of a row-major plane with `width` columns and `height` rows lies at column
/// `k % width` and row `k / width`, inside the plane.
pub proof fn lemma_cell_position(k: int, width: int, height: int)
    requires
        0 <= k < width * height,
        0 <= width,
        0 <= height,
    ensures
        0 < width,
        width <= width * height,
        height <= width * height,
        0 <= k % width < width,
        0 <= k / width < height,
        (k / width) * width + k % width == k,
{
    if width <= 0 {
        assert(width * height <= 0) by (nonlinear_arith)
            requires
                width <= 0,
                0 <= width,
                0 <= height,
                0 <= k < width * height,
        ;
    }
    vstd::arithmetic::div_mod::lemma_fundamental_div_mod(k, width);
    vstd::arithmetic::div_mod::lemma_mod_pos_bound(k, width);
    assert(width <= width * height && height <= width * height) by (nonlinear_arith)
        requires
            0 < width,
            0 <= k < width * height,
            0 <= height,
    ;
    let q = k / width;
    let r = k % width;
    assert(q * width == width * q) by (nonlinear_arith);
    assert(0 <= q < height) by (nonlinear_arith)
        requires
            k == width * q + r,
            0 <= r < width,
            0 <= k < width * height,
    ;
}

/// Every door found among the first `n` cells lies on the plane, stands on a door tile
/// whose value is the one at its position, is vertical exactly when that value is even,
/// and has a lock number from 0 to 5.
pub proof fn lemma_door_spawns_on_map(walls: Seq<u16>, width: nat, height: nat, n: nat)
    requires
        n <= width * height,
        width * height <= usize::MAX,
    ensures
        forall|i: int|
            0 <= i < door_spawns(walls, width, n).len() ==> {
                let door = #[trigger] door_spawns(walls, width, n)[i];
                &&& door.x < width
                &&& door.y < height
                &&& door.tile == walls[door.y * width + door.x]
                &&& is_door_tile(door.tile)
                &&& door.vertical == (door.tile % 2 == 0)
                &&& door.lock <= 5
            },
    decreases n,
{
    if n > 0 {
        let k = n - 1;
        lemma_door_spawns_on_map(walls, width, height, k as nat);
        lemma_cell_position(k, width as int, height as int);
        let tile = walls[k];
        if is_door_tile(tile) {
            let door = door_spawn_of(tile, k % (width as int), k / (width as int));
            assert(door.lock <= 5);
            assert(door.tile == walls[door.y * width + door.x]);
            assert(door_spawns(walls, width, n).last() == door);
        }
        let all = door_spawns(walls, width, n);
        let prev = door_spawns(walls, width, k as nat);
        assert forall|i: int| 0 <= i < all.len() implies {
            let door = #[trigger] all[i];
            &&& door.x < width
            &&& door.y < height
            &&& door.tile == walls[door.y * width + door.x]
            &&& is_door_tile(door.tile)
            &&& door.vertical == (door.tile % 2 == 0)
            &&& door.lock <= 5
        } by {
            if i < prev.len() {
                assert(all[i] == prev[i]);
            }
        }
    }
}

/// Every enemy found among the first `n` cells lies on the plane, and its kind and
/// patrolling flag are what the value at its position places.
pub proof fn lemma_enemy_spawns_on_map(info: Seq<u16>, width: nat, height: nat, n: nat)
    requires
        n <= width * height,
        width * height <= usize::MAX,
    ensures
        forall|i: int|
            0 <= i < enemy_spawns(info, width, n).len() ==> {
                let enemy = #[trigger] enemy_spawns(info, width, n)[i];
                &&& enemy.tile_x < width
                &&& enemy.tile_y < height
                &&& enemy_of_tile(info[enemy.tile_y * width + enemy.tile_x]) == Some(
                    (enemy.kind, enemy.patrolling),
                )
            },
    decreases n,
{
    if n > 0 {
        let k = n - 1;
        lemma_enemy_spawns_on_map(info, width, height, k as nat);
        lemma_cell_position(k, width as int, height as int);
    }
}

/// The cell index of an enemy spawn on a plane `width` cells wide.
pub open spec fn enemy_cell(enemy: EnemySpawn, width: nat) -> int {
    enemy.tile_y * width + enemy.tile_x
}

/// The enemy list reads the plane in row-major order and misses nothing: the enemies
/// come in increasing cell order, and every cell among the first `n` whose value
/// places an enemy has one listed on it.
pub proof fn lemma_enemy_spawns_complete(info: Seq<u16>, width: nat, height: nat, n: nat)
    requires
        n <= width * height,
        width * height <= usize::MAX,
    ensures
        forall|i: int, j: int|
            0 <= i < j < enemy_spawns(info, width, n).len() ==> enemy_cell(
                #[trigger] enemy_spawns(info, width, n)[i],
                width,
            ) < enemy_cell(#[trigger] enemy_spawns(info, width, n)[j], width),
        forall|i: int|
            0 <= i < enemy_spawns(info, width, n).len() ==> 0 <= enemy_cell(
                #[trigger] enemy_spawns(info, width, n)[i],
                width,
            ) < n,
        forall|k: int|
            0 <= k < n && (#[trigger] enemy_of_tile(info[k])) is Some ==> exists|i: int|
                0 <= i < enemy_spawns(info, width, n).len() && enemy_cell(
                    enemy_spawns(info, width, n)[i],
                    width,
                ) == k,
    decreases n,
{
    if n > 0 {
        let k = n - 1;
        lemma_enemy_spawns_complete(info, width, height, k as nat);
        lemma_cell_position(k, width as int, height as int);
        let all = enemy_spawns(info, width, n);
        let prev = enemy_spawns(info, width, k as nat);
        if let Some((kind, patrolling)) = enemy_of_tile(info[k]) {
            assert(all == prev.push(all.last()));
            assert(enemy_cell(all.last(), width) == k);
            assert forall|i: int| 0 <= i < prev.len() implies all[i] == prev[i] by {}
        } else {
            assert(all == prev);
        }
        assert forall|m: int|
            0 <= m < n && (#[trigger] enemy_of_tile(info[m])) is Some implies exists|i: int|
                0 <= i < all.len() && enemy_cell(all[i], width) == m by {
            if m < k {
                let i = choose|i: int| 0 <= i < prev.len() && enemy_cell(prev[i], width) == m;
                assert(all[i] == prev[i]);
            } else {
                assert(enemy_cell(all[all.len() - 1], width) == m);
            }
        }
    }
}

/// The door table by value: values 90 to 101 are doors, the even ones vertical, and
/// the pairs 90-91, 92-93, ..., 100-101 take locks 0 to 5.
pub proof fn lemma_door_table(tile: u16, x: int, y: int)
    ensures
        is_door_tile(tile) <==> 90 <= tile <= 101,
        tile == 90 || tile == 92 || tile == 94 || tile == 96 || tile == 98 || tile == 100
            ==> door_spawn_of(tile, x, y).vertical,
        tile == 91 || tile == 93 || tile == 95 || tile == 97 || tile == 99 || tile == 101
            ==> !door_spawn_of(tile, x, y).vertical,
        tile == 90 || tile == 91 ==> door_spawn_of(tile, x, y).lock == 0,
        tile == 92 || tile == 93 ==> door_spawn_of(tile, x, y).lock == 1,
        tile == 94 || tile == 95 ==> door_spawn_of(tile, x, y).lock == 2,
        tile == 96 || tile == 97 ==> door_spawn_of(tile, x, y).lock == 3,
        tile == 98 || tile == 99 ==> door_spawn_of(tile, x, y).lock == 4,
        tile == 100 || tile == 101 ==> door_spawn_of(tile, x, y).lock == 5,
{
}

/// The start search finds a start marker at or after `k` and before `n`.
pub proof fn lemma_first_start_found(info: Seq<u16>, k: int, n: int)
    ensures
        first_start_from(info, k, n) matches Some(j) ==> k <= j < n && is_start_tile(info[j]),
    decreases n - k,
{
    if k < n && !is_start_tile(info[k]) {
        lemma_first_start_found(info, k + 1, n);
    }
}

/// The player starts on the plane: on a start marker with the heading it gives, or on
/// tile (2, 2) facing east when the plane has no marker.
pub proof fn lemma_player_start_on_marker(info: Seq<u16>, width: nat, height: nat)
    requires
        width * height <= usize::MAX,
    ensures
        first_start_from(info, 0, (width * height) as int) is Some ==> {
            let start = player_start_of(info, width, height);
            &&& start.tile_x < width
            &&& start.tile_y < height
            &&& is_start_tile(info[start.tile_y * width + start.tile_x])
            &&& start.facing == facing_of(info[start.tile_y * width + start.tile_x])
        },
        first_start_from(info, 0, (width * height) as int) is None ==> player_start_of(
            info,
            width,
            height,
        ) == (PlayerStart { tile_x: 2, tile_y: 2, facing: Facing::East }),
{
    lemma_first_start_found(info, 0, (width * height) as int);
    if let Some(k) = first_start_from(info, 0, (width * height) as int) {
        lemma_cell_position(k, width as int, height as int);
    }
}

/// Clears the floor-area and ambush markers from a raw wall plane.
pub fn normalize_wall_plane(raw: &[u16]) -> (walls: Vec<u16>)
    ensures
        walls@ == raw@.map_values(|tile: u16| normalized_tile(tile)),
{
    let mut walls: Vec<u16> = Vec::with_capacity(raw.len());
    let len = raw.len();
    for i in 0..len
        invariant
            len == raw@.len(),
            walls@ == raw@.take(i as int).map_values(|tile: u16| normalized_tile(tile)),
    {
        let tile = raw[i];
        let value = if 90 <= tile && tile <= 101 {
            tile
        } else if tile == AMBUSH_TILE || tile >= AREA_TILE {
            0
        } else {
            tile
        };
        walls.push(value);
        assert(raw@.take(i + 1) =~= raw@.take(i as int).push(tile));
        assert(walls@ =~= raw@.take(i + 1).map_values(|tile: u16| normalized_tile(tile)));
    }
    assert(raw@.take(len as int) =~= raw@);
    walls
}

/// Lists the doors of a wall plane, row by row.
pub fn detect_doors(walls: &[u16], width: usize, height: usize) -> (doors: Vec<DoorSpawn>)
    requires
        width * height <= walls@.len(),
    ensures
        doors@ == door_spawns(walls@, width as nat, (width * height) as nat),
{
    let mut doors: Vec<DoorSpawn> = Vec::new();
    let plane_len = walls.len();
    assert(0 * width == 0);

    for y in 0..height
        invariant
            width * height <= walls@.len(),
            plane_len == walls@.len(),
            doors@ == door_spawns(walls@, width as nat, (y * width) as nat),
    {
        for x in 0..width
            invariant
                width * height <= walls@.len(),
            plane_len == walls@.len(),
                y < height,
                doors@ == door_spawns(walls@, width as nat, (y * width + x) as nat),
        {
            proof {
                lemma_cell_index(x as int, y as int, width as int, height as int);
            }
            let k = y * width + x;
            let tile = walls[k];
            if 90 <= tile && tile <= 101 {
                let even = tile % 2 == 0;
                let lock = if even {
                    (tile - 90) / 2
                } else {
                    (tile - 91) / 2
                } as u8;
                doors.push(DoorSpawn { x, y, vertical: even, lock, tile });
            }
        }
        proof {
            if width > 0 {
                lemma_cell_index(0, y as int, width as int, height as int);
            } else {
                assert(y * width == 0) by (nonlinear_arith) requires width == 0;
                assert((y + 1) * width == 0) by (nonlinear_arith) requires width == 0;
            }
        }
    }
    proof {
        assert(height * width == width * height) by (nonlinear_arith);
    }
    doors
}

/// The enemy, and whether it patrols, that an info-plane value places.
pub fn decode_enemy_tile(tile: u16) -> (decoded: Option<(EnemyKind, bool)>)
    ensures
        decoded == enemy_of_tile(tile),
{
    if matches!(tile, 108..=111 | 144..=147 | 180..=183) {
        return Some((EnemyKind::Guard, false));
    }
    if matches!(tile, 112..=115 | 148..=151 | 184..=187) {
        return Some((EnemyKind::Guard, true));
    }
    if matches!(tile, 116..=119 | 152..=155 | 188..=191) {
        return Some((EnemyKind::Officer, false));
    }
    if matches!(tile, 120..=123 | 156..=159 | 192..=195) {
        return Some((EnemyKind::Officer, true));
    }
    if matches!(tile, 126..=129 | 162..=165 | 198..=201) {
        return Some((EnemyKind::Ss, false));
    }
    if matches!(tile, 130..=133 | 166..=169 | 202..=205) {
        return Some((EnemyKind::Ss, true));
    }
    if matches!(tile, 134..=137 | 170..=173 | 206..=209) {
        return Some((EnemyKind::Dog, false));
    }
    if matches!(tile, 138..=141 | 174..=177 | 210..=213) {
        return Some((EnemyKind::Dog, true));
    }
    if matches!(tile, 216..=219 | 234..=237 | 252..=255) {
        return Some((EnemyKind::Mutant, false));
    }
    if matches!(tile, 220..=223 | 238..=241 | 256..=259) {
        return Some((EnemyKind::Mutant, true));
    }
    None
}

/// Lists the enemies of an info plane, row by row.
pub fn detect_enemies(info_plane: &[u16], width: usize, height: usize) -> (enemies: Vec<
    EnemySpawn,
>)
    requires
        width * height <= info_plane@.len(),
    ensures
        enemies@ == enemy_spawns(info_plane@, width as nat, (width * height) as nat),
{
    let mut enemies: Vec<EnemySpawn> = Vec::new();
    let plane_len = info_plane.len();
    assert(0 * width == 0);

    for y in 0..height
        invariant
            width * height <= info_plane@.len(),
            plane_len == info_plane@.len(),
            enemies@ == enemy_spawns(info_plane@, width as nat, (y * width) as nat),
    {
        for x in 0..width
            invariant
                width * height <= info_plane@.len(),
            plane_len == info_plane@.len(),
                y < height,
                enemies@ == enemy_spawns(info_plane@, width as nat, (y * width + x) as nat),
        {
            proof {
                lemma_cell_index(x as int, y as int, width as int, height as int);
            }
            let tile = info_plane[y * width + x];
            if let Some((kind, patrolling)) = decode_enemy_tile(tile) {
                enemies.push(EnemySpawn { kind, tile_x: x, tile_y: y, patrolling });
            }
        }
        proof {
            if width > 0 {
                lemma_cell_index(0, y as int, width as int, height as int);
            } else {
                assert(y * width == 0) by (nonlinear_arith) requires width == 0;
                assert((y + 1) * width == 0) by (nonlinear_arith) requires width == 0;
            }
        }
    }
    proof {
        assert(height * width == width * height) by (nonlinear_arith);
    }
    enemies
}

/// Finds the player start: the first start marker, row by row, or tile (2, 2) facing east.
pub fn detect_player_start(info_plane: &[u16], width: usize, height: usize) -> (start: PlayerStart)
    requires
        width * height <= info_plane@.len(),
    ensures
        start == player_start_of(info_plane@, width as nat, height as nat),
{
    let ghost n = (width * height) as int;
    let plane_len = info_plane.len();
    assert(0 * width == 0);
    for y in 0..height
        invariant
            width * height <= info_plane@.len(),
            plane_len == info_plane@.len(),
            n == width * height,
            first_start_from(info_plane@, (y * width) as int, n) == first_start_from(
                info_plane@,
                0,
                n,
            ),
    {
        for x in 0..width
            invariant
                width * height <= info_plane@.len(),
            plane_len == info_plane@.len(),
                n == width * height,
                y < height,
                first_start_from(info_plane@, (y * width + x) as int, n) == first_start_from(
                    info_plane@,
                    0,
                    n,
                ),
        {
            proof {
                lemma_cell_index(x as int, y as int, width as int, height as int);
            }
            let tile = info_plane[y * width + x];
            if PLAYER_SPAWN_MIN <= tile && tile <= PLAYER_SPAWN_MAX {
                let facing = match tile {
                    19 => Facing::North,
                    20 => Facing::East,
                    21 => Facing::South,
                    22 => Facing::West,
                    _ => Facing::East,
                };
                return PlayerStart { tile_x: x, tile_y: y, facing };
            }
        }
        proof {
            if width > 0 {
                lemma_cell_index(0, y as int, width as int, height as int);
            } else {
                assert(y * width == 0) by (nonlinear_arith) requires width == 0;
                assert((y + 1) * width == 0) by (nonlinear_arith) requires width == 0;
            }
        }
    }
    proof {
        assert(height * width == width * height) by (nonlinear_arith);
    }
    PlayerStart { tile_x: 2, tile_y: 2, facing: Facing::East }
}

} // verus!
