use charon::grid::{TilePos, TilemapSize};
use charon::level::{
    map_size, play_to_real_size, select_tile, tile_in_level, LevelSize, MAP_HEIGHT, MAP_WIDTH,
};

fn at(x: u32, y: u32) -> TilePos {
    TilePos { x, y }
}

#[test]
fn map_is_twenty_four_by_nineteen() {
    assert_eq!(map_size(), TilemapSize { x: 24, y: 19 });
    assert_eq!((MAP_WIDTH, MAP_HEIGHT), (24, 19));
}

#[test]
fn first_level_sits_in_the_middle() {
    let level = LevelSize::new();
    assert_eq!(level.0, TilemapSize { x: 8, y: 3 });
    assert_eq!(
        play_to_real_size(&level),
        (TilemapSize { x: 8, y: 8 }, TilemapSize { x: 8, y: 3 })
    );
}

#[test]
fn full_level_has_no_offset() {
    let level = LevelSize(TilemapSize { x: 24, y: 19 });
    assert_eq!(play_to_real_size(&level).0, TilemapSize { x: 0, y: 0 });
    assert!(tile_in_level(&at(0, 0), &level));
    assert!(tile_in_level(&at(23, 18), &level));
    assert!(!tile_in_level(&at(24, 18), &level));
}

#[test]
fn tiles_in_and_out_of_the_first_level() {
    let level = LevelSize::new();
    assert!(tile_in_level(&at(8, 8), &level));
    assert!(tile_in_level(&at(15, 10), &level));
    assert!(!tile_in_level(&at(7, 8), &level));
    assert!(!tile_in_level(&at(16, 8), &level));
    assert!(!tile_in_level(&at(8, 7), &level));
    assert!(!tile_in_level(&at(8, 11), &level));
}

#[test]
fn cursor_selects_only_inside_the_level() {
    let level = LevelSize::new();
    assert_eq!(select_tile(Some(at(9, 9)), &level), Some(at(9, 9)));
    assert_eq!(select_tile(Some(at(0, 0)), &level), None);
    assert_eq!(select_tile(None, &level), None);
}
