use charon::autotile::{autotile, flip_from_rotation, TileFlip};
use charon::editor::{click_tile, Edit, Editor, TilesAvailable};
use charon::grid::{TilePos, TilemapSize};
use charon::tile::{PathShape, Tile};
use charon::tilemap::Tilemap;

fn at(x: u32, y: u32) -> TilePos {
    TilePos { x, y }
}

fn add_river(map: &mut Tilemap, tile: TilePos) {
    let mut editor = Editor::new();
    let mut available = TilesAvailable(1);
    assert_eq!(
        click_tile(map, &mut editor, &mut available, Some(tile), true, true),
        Edit::Added(tile)
    );
}

/// The outline of the middle tile of a three by three map whose river lies
/// on the middle and on the sides given: west, east, north, south.
fn outline_with(west: bool, east: bool, north: bool, south: bool) -> (PathShape, u32) {
    let mut map = Tilemap::new(TilemapSize { x: 3, y: 3 }, 3);
    add_river(&mut map, at(1, 1));
    if west {
        add_river(&mut map, at(0, 1));
    }
    if east {
        add_river(&mut map, at(2, 1));
    }
    if north {
        add_river(&mut map, at(1, 2));
    }
    if south {
        add_river(&mut map, at(1, 0));
    }
    assert_eq!(map.outline(at(1, 1)), {
        let mut copy = Tilemap::new(TilemapSize { x: 3, y: 3 }, 3);
        add_river(&mut copy, at(1, 1));
        if west {
            add_river(&mut copy, at(0, 1));
        }
        if east {
            add_river(&mut copy, at(2, 1));
        }
        if north {
            add_river(&mut copy, at(1, 2));
        }
        if south {
            add_river(&mut copy, at(1, 0));
        }
        autotile(&mut copy);
        let path = copy.get_tile(at(1, 1)).unwrap().path().unwrap();
        (path.shape, path.rot)
    });
    map.outline(at(1, 1))
}

#[test]
fn lone_tile_is_isolated() {
    assert_eq!(outline_with(false, false, false, false), (PathShape::Isolated, 0));
}

#[test]
fn end_cap_turns_to_its_one_side() {
    assert_eq!(outline_with(true, false, false, false), (PathShape::End, 0));
    assert_eq!(outline_with(false, false, false, true), (PathShape::End, 1));
    assert_eq!(outline_with(false, true, false, false), (PathShape::End, 2));
    assert_eq!(outline_with(false, false, true, false), (PathShape::End, 3));
}

#[test]
fn two_sides_make_a_straight_or_a_turn() {
    assert_eq!(outline_with(true, true, false, false), (PathShape::Straight, 0));
    assert_eq!(outline_with(false, false, true, true), (PathShape::Straight, 1));
    assert_eq!(outline_with(true, false, true, false), (PathShape::Turn, 0));
    assert_eq!(outline_with(true, false, false, true), (PathShape::Turn, 1));
    assert_eq!(outline_with(false, true, false, true), (PathShape::Turn, 2));
    assert_eq!(outline_with(false, true, true, false), (PathShape::Turn, 3));
}

#[test]
fn junction_turns_by_its_missing_side() {
    assert_eq!(outline_with(true, true, true, false), (PathShape::Junction, 0));
    assert_eq!(outline_with(true, false, true, true), (PathShape::Junction, 1));
    assert_eq!(outline_with(true, true, false, true), (PathShape::Junction, 2));
    assert_eq!(outline_with(false, true, true, true), (PathShape::Junction, 3));
}

#[test]
fn four_sides_make_a_crossing() {
    assert_eq!(outline_with(true, true, true, true), (PathShape::Crossing, 0));
}

#[test]
fn start_and_end_tiles_count_as_river() {
    let mut map = Tilemap::new(TilemapSize { x: 3, y: 1 }, 3);
    assert!(map.place_start(at(0, 0)));
    assert!(map.place_end(at(2, 0)));
    add_river(&mut map, at(1, 0));
    autotile(&mut map);
    assert_eq!(map.outline(at(1, 0)), (PathShape::Straight, 0));
    match map.get_tile(at(0, 0)) {
        Some(Tile::Start(_, path)) => assert_eq!((path.shape, path.rot), (PathShape::End, 2)),
        other => panic!("no start tile: {:?}", other),
    }
    match map.get_tile(at(2, 0)) {
        Some(Tile::End(_, path)) => assert_eq!((path.shape, path.rot), (PathShape::End, 0)),
        other => panic!("no end tile: {:?}", other),
    }
}

#[test]
fn autotile_twice_is_autotile_once() {
    let mut map = Tilemap::new(TilemapSize { x: 4, y: 4 }, 3);
    assert!(map.place_start(at(0, 0)));
    assert!(map.place_end(at(3, 3)));
    for tile in [at(1, 0), at(1, 1), at(1, 2), at(2, 1), at(0, 1), at(2, 3), at(3, 0)] {
        add_river(&mut map, tile);
    }
    autotile(&mut map);
    let mut once = Vec::new();
    for y in 0..4 {
        for x in 0..4 {
            once.push(map.get_tile(at(x, y)));
        }
    }
    autotile(&mut map);
    let mut twice = Vec::new();
    for y in 0..4 {
        for x in 0..4 {
            twice.push(map.get_tile(at(x, y)));
        }
    }
    assert_eq!(once, twice);
    assert_eq!(map.outline(at(1, 1)), (PathShape::Crossing, 0));
    assert_eq!(map.outline(at(3, 0)), (PathShape::Isolated, 0));
}

#[test]
fn autotile_keeps_counts_and_roles() {
    let mut map = Tilemap::new(TilemapSize { x: 3, y: 1 }, 3);
    assert!(map.place_start(at(0, 0)));
    add_river(&mut map, at(1, 0));
    let before: Vec<_> = (0..3).map(|x| map.get_tile(at(x, 0)).unwrap()).collect();
    autotile(&mut map);
    for x in 0..3 {
        let after = map.get_tile(at(x, 0)).unwrap();
        assert_eq!(after.kind(), before[x as usize].kind());
        assert_eq!(after.count(), before[x as usize].count());
        assert_eq!(after.start(), before[x as usize].start());
    }
}

#[test]
fn flips_for_each_quarter_turn() {
    assert_eq!(flip_from_rotation(0), TileFlip { x: false, y: false, d: false });
    assert_eq!(flip_from_rotation(1), TileFlip { x: false, y: true, d: true });
    assert_eq!(flip_from_rotation(2), TileFlip { x: true, y: true, d: false });
    assert_eq!(flip_from_rotation(3), TileFlip { x: true, y: false, d: true });
    assert_eq!(flip_from_rotation(4), TileFlip { x: false, y: false, d: false });
}
