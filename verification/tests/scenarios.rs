use charon::editor::{click_tile, Edit, Editor, TilesAvailable};
use charon::grid::{TilePos, TilemapSize};
use charon::pathfinding::update_river;
use charon::spirits::{next_tile_spirit, spawn_spirit, Decision, Spirit};
use charon::tile::{Tile, TileKind};
use charon::tilemap::Tilemap;

fn at(x: u32, y: u32) -> TilePos {
    TilePos { x, y }
}

fn draw(map: &mut Tilemap, tiles: &[TilePos]) {
    for tile in tiles {
        let mut editor = Editor::new();
        let mut available = TilesAvailable(1);
        let edit = click_tile(map, &mut editor, &mut available, Some(*tile), true, true);
        assert_eq!(edit, Edit::Added(*tile));
        assert_eq!(available, TilesAvailable(0));
    }
}

fn straight_river() -> Tilemap {
    let mut map = Tilemap::new(TilemapSize { x: 5, y: 5 }, 3);
    assert!(map.place_start(at(0, 2)));
    assert!(map.place_end(at(4, 2)));
    draw(&mut map, &[at(1, 2), at(2, 2), at(3, 2)]);
    map
}

fn count_at(map: &Tilemap, pos: TilePos) -> u32 {
    map.get_tile(pos).expect("a tile of the grid").count()
}

#[test]
fn straight_river_distances_are_three_two_one() {
    let mut map = straight_river();
    assert!(map.has_changed());
    assert!(update_river(&mut map));
    assert!(!map.has_changed());
    let end = at(4, 2);
    assert_eq!(map.distance_to(at(1, 2), end), Some(3));
    assert_eq!(map.distance_to(at(2, 2), end), Some(2));
    assert_eq!(map.distance_to(at(3, 2), end), Some(1));
    assert_eq!(map.distance_to(end, end), Some(0));
    assert_eq!(map.distance_to(at(0, 2), end), None);
    assert_eq!(map.distance_to(at(2, 3), end), None);
    match map.get_tile(at(0, 2)) {
        Some(Tile::Start(state, _)) => assert!(state.completed_once),
        other => panic!("no start tile: {:?}", other),
    }
}

#[test]
fn start_stays_completed_after_the_river_is_erased() {
    let mut map = straight_river();
    update_river(&mut map);
    let mut editor = Editor::new();
    let mut available = TilesAvailable(0);
    let edit = click_tile(&mut map, &mut editor, &mut available, Some(at(2, 2)), true, true);
    assert_eq!(edit, Edit::Erased(at(2, 2)));
    assert!(update_river(&mut map));
    assert_eq!(map.distance_to(at(1, 2), at(4, 2)), None);
    assert_eq!(map.distance_to(at(3, 2), at(4, 2)), Some(1));
    match map.get_tile(at(0, 2)) {
        Some(Tile::Start(state, _)) => assert!(state.completed_once),
        other => panic!("no start tile: {:?}", other),
    }
}

#[test]
fn spirit_walks_straight_river_in_four_hops() {
    let mut map = straight_river();
    update_river(&mut map);
    let mut spirit: Spirit = spawn_spirit(&mut map, at(0, 2), true).expect("a spirit");
    assert_eq!(count_at(&map, at(0, 2)), 1);
    let mut stands = spirit.curr_tile;
    let mut route = vec![stands];
    loop {
        match next_tile_spirit(&mut map, &mut spirit, stands) {
            Decision::Advance(tile) => {
                stands = tile;
                route.push(tile);
            }
            Decision::Arrived => break,
            other => panic!("unexpected {:?} on {:?}", other, route),
        }
        assert!(route.len() <= 5);
    }
    assert_eq!(route, vec![at(0, 2), at(1, 2), at(2, 2), at(3, 2), at(4, 2)]);
    assert_eq!(map.get_tile(at(4, 2)).map(|t| t.kind()), Some(TileKind::End));
    for x in 0..5 {
        assert_eq!(count_at(&map, at(x, 2)), 0);
    }
}

fn contested_river() -> Tilemap {
    let mut map = Tilemap::new(TilemapSize { x: 5, y: 5 }, 1);
    assert!(map.place_end(at(2, 4)));
    draw(&mut map, &[at(0, 2), at(1, 2), at(2, 2), at(3, 2), at(4, 2), at(2, 3)]);
    assert!(update_river(&mut map));
    map
}

#[test]
fn contested_tile_takes_one_spirit_and_stalls_the_other() {
    let mut map = contested_river();
    assert_eq!(map.capacity(), 1);
    let mut left = Spirit::new(at(0, 2));
    let mut right = Spirit::new(at(4, 2));
    assert_eq!(next_tile_spirit(&mut map, &mut left, at(0, 2)), Decision::Advance(at(1, 2)));
    assert_eq!(next_tile_spirit(&mut map, &mut right, at(4, 2)), Decision::Advance(at(3, 2)));
    assert_eq!(left.curr_distance, Some(3));
    assert_eq!(right.curr_distance, Some(3));

    assert_eq!(next_tile_spirit(&mut map, &mut left, at(1, 2)), Decision::Advance(at(2, 2)));
    assert_eq!(next_tile_spirit(&mut map, &mut right, at(3, 2)), Decision::Stalled);
    assert_eq!(count_at(&map, at(2, 2)), 1);
    assert_eq!(right.next_tile, None);
    assert_eq!(right.curr_tile, at(3, 2));

    assert_eq!(next_tile_spirit(&mut map, &mut right, at(3, 2)), Decision::Stalled);
    assert_eq!(count_at(&map, at(2, 2)), 1);

    assert_eq!(next_tile_spirit(&mut map, &mut left, at(2, 2)), Decision::Advance(at(2, 3)));
    assert_eq!(count_at(&map, at(2, 2)), 0);
    assert_eq!(next_tile_spirit(&mut map, &mut right, at(3, 2)), Decision::Advance(at(2, 2)));
    assert_eq!(count_at(&map, at(2, 2)), 1);

    assert_eq!(next_tile_spirit(&mut map, &mut left, at(2, 3)), Decision::Advance(at(2, 4)));
    assert_eq!(next_tile_spirit(&mut map, &mut left, at(2, 4)), Decision::Arrived);
    assert_eq!(next_tile_spirit(&mut map, &mut right, at(2, 2)), Decision::Advance(at(2, 3)));
    assert_eq!(next_tile_spirit(&mut map, &mut right, at(2, 3)), Decision::Advance(at(2, 4)));
    assert_eq!(next_tile_spirit(&mut map, &mut right, at(2, 4)), Decision::Arrived);
    for y in 0..5 {
        for x in 0..5 {
            assert_eq!(count_at(&map, at(x, y)), 0);
        }
    }
}

#[test]
fn spirit_on_its_way_is_left_alone() {
    let mut map = contested_river();
    let mut spirit = Spirit::new(at(0, 2));
    assert_eq!(next_tile_spirit(&mut map, &mut spirit, at(0, 2)), Decision::Advance(at(1, 2)));
    let before = spirit;
    assert_eq!(next_tile_spirit(&mut map, &mut spirit, at(0, 2)), Decision::Travelling);
    assert_eq!(spirit, before);
    assert_eq!(count_at(&map, at(1, 2)), 1);
}

#[test]
fn spirit_on_its_way_from_a_start_is_left_alone() {
    let mut map = straight_river();
    update_river(&mut map);
    let mut spirit = spawn_spirit(&mut map, at(0, 2), true).expect("a spirit");
    assert_eq!(next_tile_spirit(&mut map, &mut spirit, at(0, 2)), Decision::Advance(at(1, 2)));
    assert_eq!(spirit.selected_end, Some(at(4, 2)));
    assert_eq!(spirit.curr_distance, Some(3));
    assert_eq!(count_at(&map, at(0, 2)), 0);
    assert_eq!(count_at(&map, at(1, 2)), 1);
    let before = spirit;
    for _ in 0..5 {
        assert_eq!(next_tile_spirit(&mut map, &mut spirit, at(0, 2)), Decision::Travelling);
        assert_eq!(spirit, before);
        assert_eq!(count_at(&map, at(0, 2)), 0);
        assert_eq!(count_at(&map, at(1, 2)), 1);
        assert_eq!(count_at(&map, at(2, 2)), 0);
    }
    assert_eq!(next_tile_spirit(&mut map, &mut spirit, at(1, 2)), Decision::Advance(at(2, 2)));
    assert_eq!(count_at(&map, at(1, 2)), 0);
    assert_eq!(count_at(&map, at(2, 2)), 1);
}

#[test]
fn spirit_deciding_every_frame_books_each_tile_once() {
    let mut map = straight_river();
    update_river(&mut map);
    let mut spirit = spawn_spirit(&mut map, at(0, 2), true).expect("a spirit");
    let mut stands = at(0, 2);
    let mut hops = 0;
    'walk: loop {
        // several frames pass on each tile before the spirit has moved on
        for frame in 0..4 {
            match next_tile_spirit(&mut map, &mut spirit, stands) {
                Decision::Advance(tile) => {
                    assert_eq!(frame, 0);
                    hops += 1;
                    assert_eq!(count_at(&map, tile), 1);
                    assert_eq!(count_at(&map, stands), 0);
                }
                Decision::Travelling => assert!(frame > 0),
                Decision::Arrived => break 'walk,
                other => panic!("unexpected {:?}", other),
            }
            let bound: u32 = (0..5).map(|x| count_at(&map, at(x, 2))).sum();
            assert_eq!(bound, 1);
        }
        stands = spirit.next_tile.expect("a tile to go to");
    }
    assert_eq!(hops, 4);
    for x in 0..5 {
        assert_eq!(count_at(&map, at(x, 2)), 0);
    }
}

#[test]
fn spirit_off_the_grid_is_left_alone() {
    let mut map = contested_river();
    let mut spirit = Spirit::new(at(0, 2));
    let before = spirit;
    assert_eq!(next_tile_spirit(&mut map, &mut spirit, at(7, 2)), Decision::Travelling);
    assert_eq!(spirit, before);
}

#[test]
fn spirit_without_river_is_stranded() {
    let mut map = contested_river();
    let mut spirit = Spirit::new(at(4, 0));
    assert_eq!(next_tile_spirit(&mut map, &mut spirit, at(4, 0)), Decision::Stranded);
    let mut beside = Spirit::new(at(4, 1));
    assert_eq!(next_tile_spirit(&mut map, &mut beside, at(4, 1)), Decision::Advance(at(4, 2)));
}

#[test]
fn spirit_forgets_an_end_that_was_cut_off() {
    let mut map = contested_river();
    let mut spirit = Spirit::new(at(0, 2));
    assert_eq!(next_tile_spirit(&mut map, &mut spirit, at(0, 2)), Decision::Advance(at(1, 2)));
    assert_eq!(spirit.selected_end, Some(at(2, 4)));
    let mut editor = Editor::new();
    let mut available = TilesAvailable(0);
    assert_eq!(
        click_tile(&mut map, &mut editor, &mut available, Some(at(2, 2)), true, true),
        Edit::Erased(at(2, 2))
    );
    assert!(update_river(&mut map));
    assert_eq!(next_tile_spirit(&mut map, &mut spirit, at(1, 2)), Decision::Stalled);
    assert_eq!(spirit.selected_end, None);
    assert_eq!(spirit.curr_distance, None);
    assert_eq!(spirit.next_tile, None);
}

#[test]
fn spirit_on_a_start_that_was_cut_off_forgets_its_end() {
    let mut map = straight_river();
    update_river(&mut map);
    let mut spirit = spawn_spirit(&mut map, at(0, 2), true).expect("a spirit");
    assert_eq!(next_tile_spirit(&mut map, &mut spirit, at(0, 2)), Decision::Advance(at(1, 2)));
    assert_eq!(next_tile_spirit(&mut map, &mut spirit, at(0, 2)), Decision::Travelling);
    assert_eq!(map.reach_to(at(0, 2), at(4, 2)), Some(4));
    assert_eq!(map.distance_to(at(0, 2), at(4, 2)), None);

    // the river is cut beside the start while the spirit has not left it
    let mut editor = Editor::new();
    let mut available = TilesAvailable(0);
    assert_eq!(
        click_tile(&mut map, &mut editor, &mut available, Some(at(1, 2)), true, true),
        Edit::Erased(at(1, 2))
    );
    assert!(update_river(&mut map));
    assert_eq!(map.reach_to(at(0, 2), at(4, 2)), None);
    assert_eq!(next_tile_spirit(&mut map, &mut spirit, at(0, 2)), Decision::Stalled);
    assert_eq!(spirit.selected_end, None);
    assert_eq!(spirit.next_tile, None);
    assert_eq!(spirit.curr_distance, None);
    assert_eq!(spirit.curr_tile, at(0, 2));

    // once the river is drawn again the spirit chooses afresh
    let mut editor = Editor::new();
    let mut available = TilesAvailable(1);
    assert_eq!(
        click_tile(&mut map, &mut editor, &mut available, Some(at(1, 2)), true, true),
        Edit::Added(at(1, 2))
    );
    assert!(update_river(&mut map));
    assert_eq!(next_tile_spirit(&mut map, &mut spirit, at(0, 2)), Decision::Advance(at(1, 2)));
    assert_eq!(spirit.selected_end, Some(at(4, 2)));
}

#[test]
fn spirit_on_a_start_that_no_river_links_forgets_its_end() {
    // start, empty, end
    let mut map = Tilemap::new(TilemapSize { x: 3, y: 1 }, 3);
    assert!(map.place_start(at(0, 0)));
    assert!(map.place_end(at(2, 0)));
    assert!(update_river(&mut map));
    assert_eq!(map.distance_to(at(0, 0), at(2, 0)), None);
    assert_eq!(map.reach_to(at(0, 0), at(2, 0)), None);
    let mut spirit = Spirit {
        prev_tile: at(0, 0),
        curr_tile: at(0, 0),
        curr_distance: Some(2),
        next_tile: Some(at(1, 0)),
        selected_end: Some(at(2, 0)),
    };
    assert_eq!(next_tile_spirit(&mut map, &mut spirit, at(0, 0)), Decision::Stalled);
    assert_eq!(
        spirit,
        Spirit {
            prev_tile: at(0, 0),
            curr_tile: at(0, 0),
            curr_distance: None,
            next_tile: None,
            selected_end: None,
        }
    );
}
