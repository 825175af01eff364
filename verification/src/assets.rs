//! Putting loaded data together into game assets, and the small built-in level used
//! when no game data can be found.

use vstd::prelude::*;
use vstd::string::StringSliceAdditionalSpecFns;
use crate::renderer::WALL_MARK;
use crate::data::{
    DataError,
    Facing,
    FormatError,
    GameAssets,
    PlayerStart,
    TileMap,
    WallTexture,
};

verus! {

/// The wall-plane values of one row of a text map: `#` is wall 1, anything else floor.
pub open spec fn row_tiles(row: Seq<u8>) -> Seq<u16> {
    row.map_values(|c: u8| if c == WALL_MARK { 1u16 } else { 0u16 })
}

/// The built-in level: a 10 x 7 room with a wall ring and three pillars.
pub open spec fn fallback_walls() -> Seq<u16> {
    row_tiles("##########".spec_bytes()) + row_tiles("#........#".spec_bytes()) + row_tiles(
        "#..##....#".spec_bytes(),
    ) + row_tiles("#........#".spec_bytes()) + row_tiles("#....#...#".spec_bytes()) + row_tiles(
        "#........#".spec_bytes(),
    ) + row_tiles("##########".spec_bytes())
}

/// Assets made of a decoded map and the wall pages; a data set without wall pages is
/// refused.
pub fn assets_from_parts(map: TileMap, wall_textures: Vec<WallTexture>, source_extension: String) -> (r:
    Result<GameAssets, DataError>)
    ensures
        wall_textures@.len() == 0 ==> r == Err::<GameAssets, DataError>(
            DataError::InvalidFormat(FormatError::NoWallTextures),
        ),
        wall_textures@.len() > 0 ==> r == Ok::<GameAssets, DataError>(
            GameAssets { map, wall_textures, source_extension },
        ),
{
    if wall_textures.len() == 0 {
        return Err(DataError::InvalidFormat(FormatError::NoWallTextures));
    }
    Ok(GameAssets { map, wall_textures, source_extension })
}

fn push_row(walls: &mut Vec<u16>, row: &str)
    ensures
        final(walls)@ == old(walls)@ + row_tiles(row.spec_bytes()),
{
    let bytes = row.as_bytes();
    let len = bytes.len();
    let ghost start = walls@;
    for i in 0..len
        invariant
            len == bytes@.len(),
            bytes@ == row.spec_bytes(),
            walls@ == start + row_tiles(bytes@.take(i as int)),
    {
        let value: u16 = if bytes[i] == WALL_MARK {
            1
        } else {
            0
        };
        walls.push(value);
        assert(bytes@.take(i + 1) =~= bytes@.take(i as int).push(bytes@[i as int]));
        assert(walls@ =~= start + row_tiles(bytes@.take(i + 1)));
    }
    assert(bytes@.take(len as int) =~= bytes@);
}

/// The built-in level, used when no game data is found: a 10 x 7 room with a wall ring
/// and three pillars, the player on tile (2, 2) facing east, and one patterned texture.
pub fn fallback_assets() -> (assets: GameAssets)
    ensures
        assets.map.width == 10,
        assets.map.height == 7,
        assets.map.walls@ == fallback_walls(),
        assets.map.info@ == Seq::new(70, |i: int| 0u16),
        assets.map.player_start == (PlayerStart { tile_x: 2, tile_y: 2, facing: Facing::East }),
        assets.map.doors@.len() == 0,
        assets.map.enemies@.len() == 0,
        assets.wall_textures@.len() == 1,
        assets.wall_textures@[0].texels@ == Seq::new(4096, |i: int| (i % 255) as u8),
        assets.source_extension@ == "FALLBACK"@,
        crate::world::map_is_complete(assets.map),
{
    let mut walls: Vec<u16> = Vec::with_capacity(70);
    push_row(&mut walls, "##########");
    push_row(&mut walls, "#........#");
    push_row(&mut walls, "#..##....#");
    push_row(&mut walls, "#........#");
    push_row(&mut walls, "#....#...#");
    push_row(&mut walls, "#........#");
    push_row(&mut walls, "##########");
    assert(walls@ =~= fallback_walls());
    proof {
        reveal_strlit("##########");
        reveal_strlit("#........#");
        reveal_strlit("#..##....#");
        reveal_strlit("#....#...#");
        vstd::utf8::is_ascii_chars_encode_utf8("##########"@);
        vstd::utf8::is_ascii_chars_encode_utf8("#........#"@);
        vstd::utf8::is_ascii_chars_encode_utf8("#..##....#"@);
        vstd::utf8::is_ascii_chars_encode_utf8("#....#...#"@);
    }
    assert(walls@.len() == 70);

    let width: usize = 10;
    let height: usize = 7;
    let mut info: Vec<u16> = Vec::with_capacity(width * height);
    for i in 0..width * height
        invariant
            info@ == Seq::new(i as nat, |j: int| 0u16),
    {
        info.push(0);
        assert(info@ =~= Seq::new((i + 1) as nat, |j: int| 0u16));
    }

    let map = TileMap {
        width,
        height,
        walls,
        info,
        player_start: PlayerStart { tile_x: 2, tile_y: 2, facing: Facing::East },
        doors: Vec::new(),
        enemies: Vec::new(),
    };

    let mut texels: Vec<u8> = Vec::with_capacity(64 * 64);
    for i in 0..(64 * 64)
        invariant
            texels@ == Seq::new(i as nat, |j: int| (j % 255) as u8),
    {
        texels.push((i % 255) as u8);
        assert(texels@ =~= Seq::new((i + 1) as nat, |j: int| (j % 255) as u8));
    }
    let texture = WallTexture { texels };
    let mut wall_textures: Vec<WallTexture> = Vec::new();
    wall_textures.push(texture);

    GameAssets { map, wall_textures, source_extension: String::from_str("FALLBACK") }
}

} // verus!
