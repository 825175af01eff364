//! MAPHEAD and GAMEMAPS: locating a map, reading its header and decoding its planes.

use vstd::prelude::*;
use crate::bytes::{read_u16, read_u32, u16_at, u32_at};
use crate::compression::{carmack_decoded, carmack_expand, lemma_rlew_length, rlew_decoded, rlew_expand};
use crate::data::{DataError, FormatError, TileMap};
use crate::world::map_is_complete;
use crate::planes::{
    detect_doors,
    detect_enemies,
    detect_player_start,
    door_spawns,
    enemy_spawns,
    normalize_wall_plane,
    normalized_tile,
    player_start_of,
};

verus! {

/// Number of map offsets stored in MAPHEAD after the RLEW tag.
pub const MAP_HEADER_COUNT: usize = 100;

/// Number of planes each map stores.
pub const MAP_PLANES: usize = 3;

/// Bytes of a map header in GAMEMAPS.
pub const MAP_HEADER_BYTES: usize = 38;

/// A map header: where each compressed plane lies, and the map size in tiles.
#[derive(Debug, Clone, Copy)]
pub struct MapHeader {
    pub plane_start: [u32; MAP_PLANES],
    pub plane_len: [u16; MAP_PLANES],
    pub width: u16,
    pub height: u16,
}

/// The RLEW tag and the GAMEMAPS offset of map `map_index`, or why MAPHEAD has none.
pub open spec fn map_location(maphead: Seq<u8>, map_index: int) -> Result<(u16, u32), FormatError> {
    if maphead.len() < 2 + MAP_HEADER_COUNT * 4 {
        Err(FormatError::MapheadTooShort)
    } else if map_index >= MAP_HEADER_COUNT {
        Err(FormatError::MapIndexOutOfRange(map_index as usize))
    } else {
        let offset = u32_at(maphead, 2 + 4 * map_index);
        if offset == 0 || offset == u32::MAX {
            Err(FormatError::SparseMapEntry(map_index as usize))
        } else {
            Ok((u16_at(maphead, 0), offset))
        }
    }
}

/// Whether a whole map header fits at `offset`.
pub open spec fn header_fits(gamemaps: Seq<u8>, offset: int) -> bool {
    offset + MAP_HEADER_BYTES <= gamemaps.len()
}

/// The words a compressed plane of `len` bytes at `start` decodes to, or why it does not.
pub open spec fn plane_decoded(
    gamemaps: Seq<u8>,
    start: int,
    len: int,
    rlew_tag: u16,
    tile_count: nat,
) -> Result<Seq<u16>, FormatError> {
    if len < 2 {
        Err(FormatError::PlaneLengthInvalid)
    } else if start + len > usize::MAX {
        Err(FormatError::PlaneOverflow)
    } else if start + len > gamemaps.len() {
        Err(FormatError::PlaneOutOfBounds)
    } else {
        let compressed = gamemaps.subrange(start, start + len);
        match carmack_decoded(compressed.skip(2), u16_at(compressed, 0) as nat) {
            Err(kind) => Err(kind),
            Ok(words) => if words.len() == 0 {
                Err(FormatError::CarmackEmpty)
            } else {
                rlew_decoded(words.skip(1), rlew_tag, tile_count)
            },
        }
    }
}

/// Width, height, raw wall plane and info plane of the map whose header is at `offset`.
pub open spec fn map_planes(gamemaps: Seq<u8>, rlew_tag: u16, offset: int) -> Result<
    (nat, nat, Seq<u16>, Seq<u16>),
    FormatError,
> {
    if !header_fits(gamemaps, offset) {
        Err(FormatError::MapHeaderOutOfBounds)
    } else {
        let width = u16_at(gamemaps, offset + 18) as nat;
        let height = u16_at(gamemaps, offset + 20) as nat;
        let tile_count = width * height;
        if tile_count == 0 {
            Err(FormatError::ZeroSizedMap)
        } else {
            match plane_decoded(
                gamemaps,
                u32_at(gamemaps, offset) as int,
                u16_at(gamemaps, offset + 12) as int,
                rlew_tag,
                tile_count,
            ) {
                Err(kind) => Err(kind),
                Ok(raw_walls) => match plane_decoded(
                    gamemaps,
                    u32_at(gamemaps, offset + 4) as int,
                    u16_at(gamemaps, offset + 14) as int,
                    rlew_tag,
                    tile_count,
                ) {
                    Err(kind) => Err(kind),
                    Ok(info) => Ok((width, height, raw_walls, info)),
                },
            }
        }
    }
}

/// Whether `map` is the map of the given size and planes, with everything found in them.
pub open spec fn is_map_of(
    map: TileMap,
    width: nat,
    height: nat,
    raw_walls: Seq<u16>,
    info: Seq<u16>,
) -> bool {
    &&& map.width == width
    &&& map.height == height
    &&& map.walls@ == raw_walls.map_values(|tile: u16| normalized_tile(tile))
    &&& map.info@ == info
    &&& map.doors@ == door_spawns(map.walls@, width, width * height)
    &&& map.enemies@ == enemy_spawns(info, width, width * height)
    &&& map.player_start == player_start_of(info, width, height)
}

/// Reads the RLEW tag from MAPHEAD and the GAMEMAPS offset of map `map_index`.
pub fn locate_map(maphead: &[u8], map_index: usize) -> (r: Result<(u16, u32), DataError>)
    ensures
        match map_location(maphead@, map_index as int) {
            Ok(found) => r == Ok::<(u16, u32), DataError>(found),
            Err(kind) => r == Err::<(u16, u32), DataError>(DataError::InvalidFormat(kind)),
        },
{
    if maphead.len() < 2 + MAP_HEADER_COUNT * 4 {
        return Err(DataError::InvalidFormat(FormatError::MapheadTooShort));
    }
    let rlew_tag = match read_u16(maphead, 0) {
        Ok(tag) => tag,
        Err(error) => return Err(error),
    };
    if map_index >= MAP_HEADER_COUNT {
        return Err(DataError::InvalidFormat(FormatError::MapIndexOutOfRange(map_index)));
    }
    let map_offset = match read_u32(maphead, 2 + map_index * 4) {
        Ok(offset) => offset,
        Err(error) => return Err(error),
    };
    if map_offset == 0 || map_offset == u32::MAX {
        return Err(DataError::InvalidFormat(FormatError::SparseMapEntry(map_index)));
    }
    Ok((rlew_tag, map_offset))
}

/// Reads the map header at `offset`.
pub fn parse_map_header(gamemaps: &[u8], offset: usize) -> (r: Result<MapHeader, DataError>)
    ensures
        !header_fits(gamemaps@, offset as int) ==> r == Err::<MapHeader, DataError>(
            DataError::InvalidFormat(FormatError::MapHeaderOutOfBounds),
        ),
        header_fits(gamemaps@, offset as int) ==> (r matches Ok(header) && {
            &&& header.plane_start@ == seq![
                u32_at(gamemaps@, offset as int),
                u32_at(gamemaps@, offset + 4),
                u32_at(gamemaps@, offset + 8),
            ]
            &&& header.plane_len@ == seq![
                u16_at(gamemaps@, offset + 12),
                u16_at(gamemaps@, offset + 14),
                u16_at(gamemaps@, offset + 16),
            ]
            &&& header.width == u16_at(gamemaps@, offset + 18)
            &&& header.height == u16_at(gamemaps@, offset + 20)
        }),
{
    if offset > gamemaps.len() || gamemaps.len() - offset < MAP_HEADER_BYTES {
        return Err(DataError::InvalidFormat(FormatError::MapHeaderOutOfBounds));
    }
    let mut cursor = offset;
    let total = gamemaps.len();
    let mut starts: [u32; MAP_PLANES] = [0u32; MAP_PLANES];
    let mut k: usize = 0;
    while k < MAP_PLANES
        invariant
            header_fits(gamemaps@, offset as int),
            total == gamemaps@.len(),
            k <= MAP_PLANES,
            cursor == offset + 4 * k,
            forall|j: int| 0 <= j < k ==> starts[j] == u32_at(gamemaps@, offset + 4 * j),
        decreases MAP_PLANES - k,
    {
        let value = match read_u32(gamemaps, cursor) {
            Ok(value) => value,
            Err(error) => return Err(error),
        };
        starts[k] = value;
        cursor = cursor + 4;
        k = k + 1;
    }

    let mut lens: [u16; MAP_PLANES] = [0u16; MAP_PLANES];
    let mut k: usize = 0;
    while k < MAP_PLANES
        invariant
            header_fits(gamemaps@, offset as int),
            total == gamemaps@.len(),
            k <= MAP_PLANES,
            cursor == offset + 12 + 2 * k,
            forall|j: int| 0 <= j < k ==> lens[j] == u16_at(gamemaps@, offset + 12 + 2 * j),
        decreases MAP_PLANES - k,
    {
        let value = match read_u16(gamemaps, cursor) {
            Ok(value) => value,
            Err(error) => return Err(error),
        };
        lens[k] = value;
        cursor = cursor + 2;
        k = k + 1;
    }

    let width = match read_u16(gamemaps, cursor) {
        Ok(value) => value,
        Err(error) => return Err(error),
    };
    cursor = cursor + 2;
    let height = match read_u16(gamemaps, cursor) {
        Ok(value) => value,
        Err(error) => return Err(error),
    };
    let header = MapHeader { plane_start: starts, plane_len: lens, width, height };
    assert(header.plane_start@ =~= seq![
        u32_at(gamemaps@, offset as int),
        u32_at(gamemaps@, offset + 4),
        u32_at(gamemaps@, offset + 8),
    ]);
    assert(header.plane_len@ =~= seq![
        u16_at(gamemaps@, offset + 12),
        u16_at(gamemaps@, offset + 14),
        u16_at(gamemaps@, offset + 16),
    ]);
    Ok(header)
}

/// Decodes one compressed plane (Carmack, then RLEW) into `tile_count` words.
pub fn decode_plane(
    gamemaps: &[u8],
    plane_start: usize,
    plane_len: usize,
    rlew_tag: u16,
    tile_count: usize,
) -> (r: Result<Vec<u16>, DataError>)
    ensures
        match plane_decoded(
            gamemaps@,
            plane_start as int,
            plane_len as int,
            rlew_tag,
            tile_count as nat,
        ) {
            Ok(words) => r matches Ok(v) && v@ == words,
            Err(kind) => r == Err::<Vec<u16>, DataError>(DataError::InvalidFormat(kind)),
        },
{
    if plane_len < 2 {
        return Err(DataError::InvalidFormat(FormatError::PlaneLengthInvalid));
    }
    let end = match plane_start.checked_add(plane_len) {
        Some(end) => end,
        None => return Err(DataError::InvalidFormat(FormatError::PlaneOverflow)),
    };
    if end > gamemaps.len() {
        return Err(DataError::InvalidFormat(FormatError::PlaneOutOfBounds));
    }

    let compressed = vstd::slice::slice_subrange(gamemaps, plane_start, end);
    let expanded_words_len = match read_u16(compressed, 0) {
        Ok(value) => value as usize,
        Err(error) => return Err(error),
    };
    let body = vstd::slice::slice_subrange(compressed, 2, compressed.len());
    assert(body@ == compressed@.skip(2));
    let carmack = match carmack_expand(body, expanded_words_len) {
        Ok(words) => words,
        Err(error) => return Err(error),
    };
    if carmack.len() == 0 {
        return Err(DataError::InvalidFormat(FormatError::CarmackEmpty));
    }
    let rest = vstd::slice::slice_subrange(carmack.as_slice(), 1, carmack.len());
    assert(rest@ == carmack@.skip(1));
    rlew_expand(rest, rlew_tag, tile_count)
}

/// Decodes the map whose header is at `map_offset` in GAMEMAPS and reads out its doors,
/// enemies and player start.
pub fn decode_map(gamemaps: &[u8], rlew_tag: u16, map_offset: u32) -> (r: Result<
    TileMap,
    DataError,
>)
    ensures
        match map_planes(gamemaps@, rlew_tag, map_offset as int) {
            Ok((width, height, raw_walls, info)) => r matches Ok(map) && is_map_of(
                map,
                width,
                height,
                raw_walls,
                info,
            ),
            Err(kind) => r == Err::<TileMap, DataError>(DataError::InvalidFormat(kind)),
        },
        r matches Ok(map) ==> map_is_complete(map),
{
    let header = match parse_map_header(gamemaps, map_offset as usize) {
        Ok(header) => header,
        Err(error) => return Err(error),
    };
    let width = header.width as usize;
    let height = header.height as usize;
    assert(width * height <= u16::MAX * u16::MAX) by (nonlinear_arith)
        requires
            width <= u16::MAX,
            height <= u16::MAX,
    ;
    let tile_count = width * height;

    if tile_count == 0 {
        return Err(DataError::InvalidFormat(FormatError::ZeroSizedMap));
    }

    let raw_walls = match decode_plane(
        gamemaps,
        header.plane_start[0] as usize,
        header.plane_len[0] as usize,
        rlew_tag,
        tile_count,
    ) {
        Ok(words) => words,
        Err(error) => return Err(error),
    };
    let info = match decode_plane(
        gamemaps,
        header.plane_start[1] as usize,
        header.plane_len[1] as usize,
        rlew_tag,
        tile_count,
    ) {
        Ok(words) => words,
        Err(error) => return Err(error),
    };
    proof {
        let g = gamemaps@;
        let off = map_offset as int;
        let c0 = g.subrange(
            u32_at(g, off) as int,
            u32_at(g, off) + u16_at(g, off + 12),
        );
        let c1 = g.subrange(
            u32_at(g, off + 4) as int,
            u32_at(g, off + 4) + u16_at(g, off + 14),
        );
        if let Ok(words) = carmack_decoded(c0.skip(2), u16_at(c0, 0) as nat) {
            lemma_rlew_length(words.skip(1), rlew_tag, tile_count as nat, 0, Seq::empty());
        }
        if let Ok(words) = carmack_decoded(c1.skip(2), u16_at(c1, 0) as nat) {
            lemma_rlew_length(words.skip(1), rlew_tag, tile_count as nat, 0, Seq::empty());
        }
    }

    let walls = normalize_wall_plane(raw_walls.as_slice());
    let doors = detect_doors(walls.as_slice(), width, height);
    let enemies = detect_enemies(info.as_slice(), width, height);
    let player_start = detect_player_start(info.as_slice(), width, height);

    Ok(TileMap { width, height, walls, info, player_start, doors, enemies })
}

} // verus!
