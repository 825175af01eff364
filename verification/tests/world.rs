use wolf3d_rs::assets::{assets_from_parts, fallback_assets};
use wolf3d_rs::data::{DataError, DoorSpawn, Facing, FormatError, TileMap};
use wolf3d_rs::dataset::{data_file_names, detect_data_set, eq_ignore_ascii_case, find_case_insensitive_file, DataDirectory};
use wolf3d_rs::hud::{count_info_markers, door_overview};
use wolf3d_rs::renderer::is_wall;
use wolf3d_rs::world::{door_slot_from_spawn, door_step, interact_door_at, is_tile_blocked, state_after_step, DoorSlot, DoorState, DoorStep, RequestLatch};

fn room() -> TileMap {
    // 4 x 3: walls round the edge, a door at (1, 1), floor at (2, 1)
    TileMap {
        width: 4,
        height: 3,
        walls: vec![1, 1, 1, 1, 1, 90, 0, 1, 1, 1, 1, 1],
        info: vec![0; 12],
        player_start: wolf3d_rs::data::PlayerStart { tile_x: 2, tile_y: 1, facing: Facing::East },
        doors: vec![DoorSpawn { x: 1, y: 1, vertical: true, lock: 0, tile: 90 }],
        enemies: Vec::new(),
    }
}

fn slots(map: &TileMap) -> Vec<DoorSlot> {
    map.doors.iter().map(|d| door_slot_from_spawn(*d)).collect()
}

#[test]
fn doors_start_closed() {
    let map = room();
    let doors = slots(&map);
    assert_eq!(doors[0].state, DoorState::Closed);
    assert_eq!((doors[0].x, doors[0].y, doors[0].tile), (1, 1, 90));
}

#[test]
fn tile_blocking() {
    let map = room();
    let doors = slots(&map);
    let open = vec![false; doors.len()];
    let shut = vec![true; doors.len()];
    assert!(is_tile_blocked(&map, &doors, -1, 1, &open));
    assert!(is_tile_blocked(&map, &doors, 1, -1, &open));
    assert!(is_tile_blocked(&map, &doors, 4, 1, &open));
    assert!(is_tile_blocked(&map, &doors, 1, 3, &open));
    assert!(is_tile_blocked(&map, &doors, 0, 0, &open));
    assert!(!is_tile_blocked(&map, &doors, 2, 1, &shut));
    assert!(is_tile_blocked(&map, &doors, 1, 1, &shut));
    assert!(!is_tile_blocked(&map, &doors, 1, 1, &open));
}

#[test]
fn using_a_door_toggles_it() {
    let map = room();
    let mut doors = slots(&map);
    assert_eq!(interact_door_at(&mut doors, 1, 1), Some(0));
    assert_eq!(doors[0].state, DoorState::Opening);
    assert_eq!(interact_door_at(&mut doors, 1, 1), Some(0));
    assert_eq!(doors[0].state, DoorState::Closing);
    assert_eq!(interact_door_at(&mut doors, 1, 1), Some(0));
    assert_eq!(doors[0].state, DoorState::Opening);
    doors[0].state = DoorState::Open;
    assert_eq!(interact_door_at(&mut doors, 1, 1), Some(0));
    assert_eq!(doors[0].state, DoorState::Closing);
    assert_eq!(interact_door_at(&mut doors, 2, 1), None);
    assert_eq!(interact_door_at(&mut doors, -1, 1), None);
    assert_eq!(doors[0].state, DoorState::Closing);
}

#[test]
fn request_latch_fires_once() {
    let mut latch = RequestLatch::new();
    assert!(!latch.consume());
    latch.request();
    latch.request();
    assert!(latch.consume());
    assert!(!latch.consume());
}

#[test]
fn hud_overview_counts() {
    let mut doors = slots(&room());
    doors.push(DoorSlot { x: 0, y: 0, vertical: false, lock: 3, tile: 97, state: DoorState::Closed });
    doors.push(DoorSlot { x: 0, y: 1, vertical: true, lock: 1, tile: 92, state: DoorState::Open });
    assert_eq!(door_overview(&doors), (2, 3));
    assert_eq!(door_overview(&[]), (0, 0));
    assert_eq!(count_info_markers(&[0, 3, 0, 19, 1]), 3);
}

#[test]
fn text_map_walls() {
    let map = ["###", "#.#", "##"];
    assert!(is_wall(&map, 0, 0));
    assert!(!is_wall(&map, 1, 1));
    assert!(is_wall(&map, 2, 2));
    assert!(is_wall(&map, -1, 1));
    assert!(is_wall(&map, 1, 3));
}

#[test]
fn fallback_level() {
    let assets = fallback_assets();
    assert_eq!(assets.source_extension, "FALLBACK");
    assert_eq!((assets.map.width, assets.map.height), (10, 7));
    let rows = ["##########", "#........#", "#..##....#", "#........#", "#....#...#", "#........#", "##########"];
    let expected: Vec<u16> = rows.iter().flat_map(|r| r.bytes().map(|b| if b == b'#' { 1 } else { 0 })).collect();
    assert_eq!(assets.map.walls, expected);
    assert_eq!(assets.map.info, vec![0u16; 70]);
    assert_eq!((assets.map.player_start.tile_x, assets.map.player_start.tile_y), (2, 2));
    assert_eq!(assets.map.player_start.facing, Facing::East);
    assert_eq!(assets.wall_textures.len(), 1);
    assert_eq!(assets.wall_textures[0].texels.len(), 4096);
    assert_eq!(assets.wall_textures[0].texels[254], 254);
    assert_eq!(assets.wall_textures[0].texels[255], 0);
    assert_eq!(assets.wall_textures[0].texels[4095], (4095 % 255) as u8);
}

#[test]
fn assets_need_wall_pages() {
    let map = room();
    match assets_from_parts(map.clone(), Vec::new(), "WL6".to_string()) {
        Err(DataError::InvalidFormat(FormatError::NoWallTextures)) => {}
        _ => panic!("expected a missing-texture error"),
    }
    let pages = fallback_assets().wall_textures;
    let assets = assets_from_parts(map, pages, "WL6".to_string()).unwrap();
    assert_eq!(assets.source_extension, "WL6");
}

fn dir(exact: &[&str], listed: &[&str]) -> DataDirectory {
    DataDirectory {
        path: "/games/wolf".to_string(),
        exact_names: exact.iter().map(|s| s.to_string()).collect(),
        listed_names: listed.iter().map(|s| s.to_string()).collect(),
    }
}

#[test]
fn ascii_case_comparison() {
    assert!(eq_ignore_ascii_case("MapHead.wl6", "MAPHEAD.WL6"));
    assert!(!eq_ignore_ascii_case("MAPHEAD.WL6", "MAPHEAD.WL1"));
    assert!(!eq_ignore_ascii_case("MAPHEAD", "MAPHEAD.WL6"));
    assert!(eq_ignore_ascii_case("", ""));
}

#[test]
fn file_names_per_extension() {
    assert_eq!(data_file_names(0), ("MAPHEAD.WL6".to_string(), "GAMEMAPS.WL6".to_string(), "VSWAP.WL6".to_string()));
    assert_eq!(data_file_names(3).2, "VSWAP.SOD");
}

#[test]
fn files_are_found_ignoring_case() {
    let d = dir(&["VSWAP.WL6"], &["readme", "maphead.wl6", "MapHead.WL6"]);
    assert_eq!(find_case_insensitive_file(&d, &"VSWAP.WL6".to_string()), Some("VSWAP.WL6".to_string()));
    assert_eq!(find_case_insensitive_file(&d, &"MAPHEAD.WL6".to_string()), Some("maphead.wl6".to_string()));
    assert_eq!(find_case_insensitive_file(&d, &"GAMEMAPS.WL6".to_string()), None);
}

#[test]
fn data_set_detection_prefers_the_first_complete_extension() {
    let d = dir(&[], &["maphead.wl6", "vswap.wl6", "MAPHEAD.SDM", "GAMEMAPS.SDM", "VSWAP.SDM", "gamemaps.sod", "maphead.sod", "vswap.sod"]);
    let files = detect_data_set(&d).unwrap();
    assert_eq!(files.extension, "SDM");
    assert_eq!((files.maphead.as_str(), files.gamemaps.as_str(), files.vswap.as_str()), ("MAPHEAD.SDM", "GAMEMAPS.SDM", "VSWAP.SDM"));
}

#[test]
fn data_set_detection_fails_without_a_complete_set() {
    let d = dir(&["MAPHEAD.WL6"], &["MAPHEAD.WL6", "GAMEMAPS.WL1"]);
    match detect_data_set(&d) {
        Err(DataError::NoSupportedDataSet(path)) => assert_eq!(path, "/games/wolf"),
        _ => panic!("expected no data set"),
    }
}

#[test]
fn door_steps() {
    assert_eq!(door_step(DoorState::Closed, true), DoorStep::Stay);
    assert_eq!(door_step(DoorState::Opening, false), DoorStep::SlideOpen);
    assert_eq!(door_step(DoorState::Open, true), DoorStep::HoldOpen);
    assert_eq!(door_step(DoorState::Closing, false), DoorStep::SlideClosed);
    assert_eq!(door_step(DoorState::Closing, true), DoorStep::Reopen);
    assert_eq!(state_after_step(DoorState::Closed, DoorStep::Stay, true), DoorState::Closed);
    assert_eq!(state_after_step(DoorState::Opening, DoorStep::SlideOpen, false), DoorState::Opening);
    assert_eq!(state_after_step(DoorState::Opening, DoorStep::SlideOpen, true), DoorState::Open);
    assert_eq!(state_after_step(DoorState::Open, DoorStep::HoldOpen, false), DoorState::Open);
    assert_eq!(state_after_step(DoorState::Open, DoorStep::HoldOpen, true), DoorState::Closing);
    assert_eq!(state_after_step(DoorState::Closing, DoorStep::SlideClosed, false), DoorState::Closing);
    assert_eq!(state_after_step(DoorState::Closing, DoorStep::SlideClosed, true), DoorState::Closed);
}

#[test]
fn closing_door_spares_the_doorway() {
    for finished in [false, true] {
        let step = door_step(DoorState::Closing, true);
        assert_eq!(state_after_step(DoorState::Closing, step, finished), DoorState::Open);
    }
}
