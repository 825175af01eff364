use wolf3d_rs::bytes::{read_u16, read_u16_from_slice, read_u32};
use wolf3d_rs::compression::{carmack_expand, rlew_expand};
use wolf3d_rs::data::{DataError, EnemyKind, Facing, FormatError};
use wolf3d_rs::mapfile::{decode_map, decode_plane, locate_map, parse_map_header};
use wolf3d_rs::planes::{
    decode_enemy_tile, detect_doors, detect_enemies, detect_player_start, normalize_wall_plane,
};
use wolf3d_rs::vswap::load_wall_textures;

fn format_kind<T: std::fmt::Debug>(r: Result<T, DataError>) -> FormatError {
    match r {
        Err(DataError::InvalidFormat(kind)) => kind,
        other => panic!("expected a format error, got {:?}", other),
    }
}

fn words_le(words: &[u16]) -> Vec<u8> {
    let mut out = Vec::new();
    for w in words {
        out.extend_from_slice(&w.to_le_bytes());
    }
    out
}

#[test]
fn read_u16_is_little_endian() {
    let data = [0x34, 0x12, 0xff];
    assert_eq!(read_u16(&data, 0).unwrap(), 0x1234);
    assert_eq!(read_u16(&data, 1).unwrap(), 0xff12);
}

#[test]
fn read_u16_out_of_bounds() {
    let data = [1, 2, 3];
    assert_eq!(format_kind(read_u16(&data, 2)), FormatError::U16OutOfBounds);
    assert_eq!(format_kind(read_u16(&data, 10)), FormatError::U16OutOfBounds);
    assert_eq!(format_kind(read_u16(&data, usize::MAX)), FormatError::U16OutOfBounds);
}

#[test]
fn read_u32_is_little_endian() {
    let data = [0x78, 0x56, 0x34, 0x12, 0x00];
    assert_eq!(read_u32(&data, 0).unwrap(), 0x1234_5678);
    assert_eq!(read_u32(&data, 1).unwrap(), 0x0012_3456);
    assert_eq!(format_kind(read_u32(&data, 2)), FormatError::U32OutOfBounds);
    assert_eq!(format_kind(read_u32(&data, usize::MAX - 1)), FormatError::U32OutOfBounds);
}

#[test]
fn read_u16_from_slice_moves_cursor_only_on_success() {
    let data = [1, 0, 2, 0, 3];
    let mut cursor = 0usize;
    assert_eq!(read_u16_from_slice(&data, &mut cursor).unwrap(), 1);
    assert_eq!(cursor, 2);
    assert_eq!(read_u16_from_slice(&data, &mut cursor).unwrap(), 2);
    assert_eq!(cursor, 4);
    assert_eq!(format_kind(read_u16_from_slice(&data, &mut cursor)), FormatError::U16OutOfBounds);
    assert_eq!(cursor, 4);
}

#[test]
fn carmack_plain_words() {
    let input = words_le(&[1, 2, 0x1234]);
    assert_eq!(carmack_expand(&input, 3).unwrap(), vec![1, 2, 0x1234]);
    assert_eq!(carmack_expand(&input, 0).unwrap(), Vec::<u16>::new());
}

#[test]
fn carmack_near_copy_overlaps() {
    // 1, 2, then near tag: copy 3 words starting 2 back
    let input = vec![1, 0, 2, 0, 3, 0xA7, 2];
    assert_eq!(carmack_expand(&input, 5).unwrap(), vec![1, 2, 1, 2, 1]);
}

#[test]
fn carmack_output_is_cut_to_length() {
    let input = vec![1, 0, 2, 0, 3, 0xA7, 2];
    assert_eq!(carmack_expand(&input, 3).unwrap(), vec![1, 2, 1]);
}

#[test]
fn carmack_far_copy() {
    // 5, 6, 7, then far tag: copy 2 words from offset 1
    let mut input = words_le(&[5, 6, 7]);
    input.extend_from_slice(&[2, 0xA8, 1, 0]);
    assert_eq!(carmack_expand(&input, 5).unwrap(), vec![5, 6, 7, 6, 7]);
}

#[test]
fn carmack_escaped_tag_words() {
    // count 0 escapes a word whose high byte is a tag
    let input = vec![0, 0xA7, 0x42, 0, 0xA8, 0x43];
    assert_eq!(carmack_expand(&input, 2).unwrap(), vec![0xA742, 0xA843]);
}

#[test]
fn carmack_errors() {
    assert_eq!(format_kind(carmack_expand(&[1], 1)), FormatError::U16OutOfBounds);
    assert_eq!(format_kind(carmack_expand(&[0, 0xA7], 1)), FormatError::NearEscapeMissing);
    assert_eq!(format_kind(carmack_expand(&[1, 0xA7], 1)), FormatError::NearOffsetMissing);
    assert_eq!(format_kind(carmack_expand(&[1, 0, 1, 0xA7, 0], 3)), FormatError::NearBackReference);
    assert_eq!(format_kind(carmack_expand(&[1, 0, 1, 0xA7, 2], 3)), FormatError::NearBackReference);
    assert_eq!(format_kind(carmack_expand(&[0, 0xA8], 1)), FormatError::FarEscapeMissing);
    assert_eq!(format_kind(carmack_expand(&[1, 0, 1, 0xA8, 1, 0], 3)), FormatError::FarOffsetOutOfRange);
    assert_eq!(format_kind(carmack_expand(&[1, 0, 1, 0xA8, 1], 3)), FormatError::U16OutOfBounds);
}

#[test]
fn rlew_runs() {
    let tag = 0xABCD;
    assert_eq!(rlew_expand(&[5, tag, 3, 7, 9], tag, 5).unwrap(), vec![5, 7, 7, 7, 9]);
    assert_eq!(rlew_expand(&[5, tag, 3, 7, 9], tag, 2).unwrap(), vec![5, 7]);
    assert_eq!(rlew_expand(&[tag, 0, 1, 4], tag, 1).unwrap(), vec![4]);
}

#[test]
fn rlew_errors() {
    let tag = 0xABCD;
    assert_eq!(format_kind(rlew_expand(&[1, 2], tag, 3)), FormatError::RlewInputEnded);
    assert_eq!(format_kind(rlew_expand(&[1, tag], tag, 3)), FormatError::RlewCountMissing);
    assert_eq!(format_kind(rlew_expand(&[1, tag, 2], tag, 3)), FormatError::RlewValueMissing);
}

/// A plane compressed without back-references: carmack word count, then the words
/// (first the RLEW length, then the RLEW stream).
fn plane_bytes(rlew_stream: &[u16]) -> Vec<u8> {
    let mut words = vec![(rlew_stream.len() * 2) as u16];
    words.extend_from_slice(rlew_stream);
    let mut out = (words.len() as u16).to_le_bytes().to_vec();
    out.extend(words_le(&words));
    out
}

#[test]
fn decode_plane_round_trip_and_errors() {
    let tag = 0xABCD;
    let plane = plane_bytes(&[1, tag, 3, 0, 2]);
    let mut file = vec![0xEE; 3];
    file.extend_from_slice(&plane);
    assert_eq!(decode_plane(&file, 3, plane.len(), tag, 5).unwrap(), vec![1, 0, 0, 0, 2]);
    assert_eq!(format_kind(decode_plane(&file, 3, 1, tag, 5)), FormatError::PlaneLengthInvalid);
    assert_eq!(format_kind(decode_plane(&file, usize::MAX, 4, tag, 5)), FormatError::PlaneOverflow);
    assert_eq!(format_kind(decode_plane(&file, 3, plane.len() + 1, tag, 5)), FormatError::PlaneOutOfBounds);
    let empty = vec![0u8, 0u8];
    assert_eq!(format_kind(decode_plane(&empty, 0, 2, tag, 5)), FormatError::CarmackEmpty);
}

#[test]
fn map_header_fields() {
    let mut g = vec![0u8; 2];
    g.extend_from_slice(&10u32.to_le_bytes());
    g.extend_from_slice(&20u32.to_le_bytes());
    g.extend_from_slice(&30u32.to_le_bytes());
    g.extend_from_slice(&words_le(&[4, 5, 6, 64, 32]));
    g.extend_from_slice(&[0u8; 16]);
    let header = parse_map_header(&g, 2).unwrap();
    assert_eq!(header.plane_start, [10, 20, 30]);
    assert_eq!(header.plane_len, [4, 5, 6]);
    assert_eq!(header.width, 64);
    assert_eq!(header.height, 32);
    assert_eq!(format_kind(parse_map_header(&g, 3)), FormatError::MapHeaderOutOfBounds);
    assert_eq!(format_kind(parse_map_header(&g, usize::MAX)), FormatError::MapHeaderOutOfBounds);
}

fn maphead_with(offset_at_0: u32) -> Vec<u8> {
    let mut m = 0xABCDu16.to_le_bytes().to_vec();
    m.extend_from_slice(&offset_at_0.to_le_bytes());
    m.extend_from_slice(&vec![0u8; 99 * 4]);
    m
}

#[test]
fn locate_map_cases() {
    assert_eq!(locate_map(&maphead_with(77), 0).unwrap(), (0xABCD, 77));
    assert_eq!(format_kind(locate_map(&[0u8; 401], 0)), FormatError::MapheadTooShort);
    assert_eq!(format_kind(locate_map(&maphead_with(77), 100)), FormatError::MapIndexOutOfRange(100));
    assert_eq!(format_kind(locate_map(&maphead_with(77), 1)), FormatError::SparseMapEntry(1));
    assert_eq!(format_kind(locate_map(&maphead_with(u32::MAX), 0)), FormatError::SparseMapEntry(0));
}

/// A whole GAMEMAPS file with one 3 x 2 map at offset 0.
fn small_gamemaps(walls: &[u16], info: &[u16]) -> Vec<u8> {
    let tag = 0xABCD;
    let wall_plane = plane_bytes(walls);
    let info_plane = plane_bytes(info);
    let header_len = 38u32;
    let wall_start = header_len;
    let info_start = wall_start + wall_plane.len() as u32;
    let mut g = Vec::new();
    g.extend_from_slice(&wall_start.to_le_bytes());
    g.extend_from_slice(&info_start.to_le_bytes());
    g.extend_from_slice(&0u32.to_le_bytes());
    g.extend_from_slice(&words_le(&[wall_plane.len() as u16, info_plane.len() as u16, 0, 3, 2]));
    g.extend_from_slice(&[0u8; 16]);
    g.extend_from_slice(&wall_plane);
    g.extend_from_slice(&info_plane);
    let _ = tag;
    g
}

#[test]
fn decode_map_reads_everything() {
    let walls = [1, 90, 1, 107, 99, 106];
    let info = [0, 108, 0, 21, 0, 113];
    let g = small_gamemaps(&walls, &info);
    let map = decode_map(&g, 0xABCD, 0).unwrap();
    assert_eq!(map.width, 3);
    assert_eq!(map.height, 2);
    assert_eq!(map.walls, vec![1, 90, 1, 0, 99, 0]);
    assert_eq!(map.info, info.to_vec());
    assert_eq!(map.doors.len(), 2);
    assert_eq!((map.doors[0].x, map.doors[0].y, map.doors[0].vertical, map.doors[0].lock), (1, 0, true, 0));
    assert_eq!((map.doors[1].x, map.doors[1].y, map.doors[1].vertical, map.doors[1].lock), (1, 1, false, 4));
    assert_eq!(map.enemies.len(), 2);
    assert_eq!(map.enemies[0].kind, EnemyKind::Guard);
    assert!(!map.enemies[0].patrolling);
    assert_eq!((map.enemies[1].tile_x, map.enemies[1].tile_y, map.enemies[1].patrolling), (2, 1, true));
    assert_eq!(map.player_start.tile_x, 0);
    assert_eq!(map.player_start.tile_y, 1);
    assert_eq!(map.player_start.facing, Facing::South);
}

#[test]
fn decode_map_errors() {
    let g = small_gamemaps(&[0; 6], &[0; 6]);
    assert_eq!(format_kind(decode_map(&g, 0xABCD, g.len() as u32)), FormatError::MapHeaderOutOfBounds);
    let mut zero = g.clone();
    zero[18] = 0;
    assert_eq!(format_kind(decode_map(&zero, 0xABCD, 0)), FormatError::ZeroSizedMap);
    let short = small_gamemaps(&[0; 5], &[0; 6]);
    assert_eq!(format_kind(decode_map(&short, 0xABCD, 0)), FormatError::RlewInputEnded);
}

#[test]
fn normalize_clears_floor_markers() {
    let raw = [0, 1, 90, 101, 105, 106, 107, 200, 63];
    assert_eq!(normalize_wall_plane(&raw), vec![0, 1, 90, 101, 105, 0, 0, 0, 63]);
}

#[test]
fn doors_are_found_row_by_row() {
    let walls = [90, 0, 91, 0, 100, 101];
    let doors = detect_doors(&walls, 3, 2);
    let found: Vec<_> = doors.iter().map(|d| (d.x, d.y, d.vertical, d.lock, d.tile)).collect();
    assert_eq!(found, vec![(0, 0, true, 0, 90), (2, 0, false, 0, 91), (1, 1, true, 5, 100), (2, 1, false, 5, 101)]);
}

#[test]
fn enemy_tiles() {
    assert_eq!(decode_enemy_tile(108), Some((EnemyKind::Guard, false)));
    assert_eq!(decode_enemy_tile(183), Some((EnemyKind::Guard, false)));
    assert_eq!(decode_enemy_tile(112), Some((EnemyKind::Guard, true)));
    assert_eq!(decode_enemy_tile(152), Some((EnemyKind::Officer, false)));
    assert_eq!(decode_enemy_tile(195), Some((EnemyKind::Officer, true)));
    assert_eq!(decode_enemy_tile(126), Some((EnemyKind::Ss, false)));
    assert_eq!(decode_enemy_tile(205), Some((EnemyKind::Ss, true)));
    assert_eq!(decode_enemy_tile(170), Some((EnemyKind::Dog, false)));
    assert_eq!(decode_enemy_tile(138), Some((EnemyKind::Dog, true)));
    assert_eq!(decode_enemy_tile(252), Some((EnemyKind::Mutant, false)));
    assert_eq!(decode_enemy_tile(259), Some((EnemyKind::Mutant, true)));
    assert_eq!(decode_enemy_tile(124), None);
    assert_eq!(decode_enemy_tile(142), None);
    assert_eq!(decode_enemy_tile(214), None);
    assert_eq!(decode_enemy_tile(260), None);
    assert_eq!(decode_enemy_tile(19), None);
}

#[test]
fn enemies_are_found_row_by_row() {
    let info = [0, 134, 0, 220, 0, 0];
    let enemies = detect_enemies(&info, 2, 3);
    let found: Vec<_> = enemies.iter().map(|e| (e.kind, e.tile_x, e.tile_y, e.patrolling)).collect();
    assert_eq!(found, vec![(EnemyKind::Dog, 1, 0, false), (EnemyKind::Mutant, 1, 1, true)]);
}

#[test]
fn player_start_facings() {
    for (tile, facing) in [(19, Facing::North), (20, Facing::East), (21, Facing::South), (22, Facing::West)] {
        let info = [0, 0, 0, tile, 20];
        let start = detect_player_start(&info, 5, 1);
        assert_eq!((start.tile_x, start.tile_y, start.facing), (3, 0, facing));
    }
}

#[test]
fn player_start_defaults_without_marker() {
    let start = detect_player_start(&[0, 18, 23, 0], 2, 2);
    assert_eq!((start.tile_x, start.tile_y, start.facing), (2, 2, Facing::East));
}

fn vswap(chunks: &[(u32, u16)], sprite_start: u16, body: &[u8]) -> Vec<u8> {
    let mut v = Vec::new();
    v.extend_from_slice(&(chunks.len() as u16).to_le_bytes());
    v.extend_from_slice(&sprite_start.to_le_bytes());
    v.extend_from_slice(&0u16.to_le_bytes());
    for (offset, _) in chunks {
        v.extend_from_slice(&offset.to_le_bytes());
    }
    for (_, len) in chunks {
        v.extend_from_slice(&len.to_le_bytes());
    }
    v.extend_from_slice(body);
    v
}

#[test]
fn wall_textures_are_the_chunks_before_sprites() {
    // 4 chunks, sprites start at 3: chunk 0 is a page, 1 is empty, 2 is too short, 3 is a sprite
    let header = 6 + 4 * 6;
    let page: Vec<u8> = (0..4096u32).map(|i| (i % 7) as u8).collect();
    let mut body = page.clone();
    body.extend_from_slice(&[9u8; 10]);
    let chunks = [(header as u32, 4096u16), (0, 4096), (header as u32 + 4096, 10), (header as u32, 4096)];
    let file = vswap(&chunks, 3, &body);
    let walls = load_wall_textures(&file).unwrap();
    assert_eq!(walls.len(), 1);
    assert_eq!(walls[0].texels, page);
}

#[test]
fn wall_texture_errors() {
    assert_eq!(format_kind(load_wall_textures(&[1, 0, 0, 0, 0])), FormatError::VswapHeaderTooShort);
    assert_eq!(format_kind(load_wall_textures(&[2, 0, 2, 0, 0, 0, 0])), FormatError::VswapTablesTooLarge);
    let file = vswap(&[(100, 4096)], 1, &[]);
    assert_eq!(format_kind(load_wall_textures(&file)), FormatError::WallChunkOutOfBounds(0));
}

#[test]
fn u32_is_low_then_high_u16() {
    let data = [0x01, 0x02, 0x03, 0x04];
    let whole = read_u32(&data, 0).unwrap();
    let low = read_u16(&data, 0).unwrap() as u32;
    let high = read_u16(&data, 2).unwrap() as u32;
    assert_eq!(whole, low + 65536 * high);
}

#[test]
fn normalizing_twice_changes_nothing() {
    let raw: Vec<u16> = (0..300).collect();
    let once = normalize_wall_plane(&raw);
    let twice = normalize_wall_plane(&once);
    assert_eq!(once, twice);
    for tile in 90..=101u16 {
        assert_eq!(once[tile as usize], tile);
    }
}
