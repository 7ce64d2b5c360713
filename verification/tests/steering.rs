use charon::editor::{click_tile, Edit, Editor, TilesAvailable};
use charon::grid::{TilePos, TilemapSize};
use charon::pathfinding::update_river;
use charon::spirits::{advance, Decision, Spirit};
use charon::steering::{choose_offer, Goal, Jitter, Offer};
use charon::tilemap::Tilemap;

fn at(x: u32, y: u32) -> TilePos {
    TilePos { x, y }
}

fn add_river(map: &mut Tilemap, tile: TilePos) {
    let mut editor = Editor::new();
    let mut available = TilesAvailable(1);
    assert_eq!(
        click_tile(map, &mut editor, &mut available, Some(tile), true, true),
        Edit::Added(tile)
    );
}

fn offer(tile: TilePos, count: u32, distance: usize) -> Offer {
    Offer { tile, count, goal: Some(Goal { end: at(9, 9), distance }) }
}

fn jitter(n: usize) -> Jitter {
    Jitter { first: n, second: n, third: n, fourth: n, pick: n }
}

#[test]
fn nearest_offer_wins() {
    let offers = vec![offer(at(0, 1), 0, 5), offer(at(2, 1), 0, 3), offer(at(1, 2), 0, 4)];
    assert_eq!(choose_offer(&offers, at(1, 1), None, 3, 0), Some(offers[1]));
    assert_eq!(choose_offer(&offers, at(1, 1), Some(6), 3, 7), Some(offers[1]));
}

#[test]
fn offer_must_be_strictly_nearer_than_the_distance_held() {
    let offers = vec![offer(at(0, 1), 0, 5), offer(at(2, 1), 0, 3)];
    assert_eq!(choose_offer(&offers, at(1, 1), Some(3), 3, 0), None);
    assert_eq!(choose_offer(&offers, at(1, 1), Some(4), 3, 0), Some(offers[1]));
    assert_eq!(choose_offer(&offers, at(1, 1), Some(0), 3, 0), None);
}

#[test]
fn full_tile_is_passed_over() {
    let offers = vec![offer(at(0, 1), 3, 1), offer(at(2, 1), 2, 4)];
    assert_eq!(choose_offer(&offers, at(1, 1), None, 3, 0), Some(offers[1]));
    assert_eq!(choose_offer(&offers, at(1, 1), None, 2, 0), None);
    assert_eq!(choose_offer(&offers, at(1, 1), None, 0, 0), None);
}

#[test]
fn tile_that_leads_nowhere_is_passed_over() {
    let blind = Offer { tile: at(0, 1), count: 0, goal: None };
    assert_eq!(choose_offer(&vec![blind], at(1, 1), None, 3, 0), None);
    let offers = vec![blind, offer(at(2, 1), 0, 8)];
    assert_eq!(choose_offer(&offers, at(1, 1), None, 3, 0), Some(offers[1]));
}

#[test]
fn no_offers_no_choice() {
    assert_eq!(choose_offer(&Vec::new(), at(1, 1), None, 3, 0), None);
}

#[test]
fn tie_is_settled_by_the_pick() {
    let offers = vec![offer(at(0, 1), 0, 3), offer(at(2, 1), 0, 5), offer(at(1, 2), 1, 3)];
    assert_eq!(choose_offer(&offers, at(1, 1), None, 3, 0), Some(offers[0]));
    assert_eq!(choose_offer(&offers, at(1, 1), None, 3, 1), Some(offers[2]));
    assert_eq!(choose_offer(&offers, at(1, 1), None, 3, 2), Some(offers[0]));
    assert_eq!(choose_offer(&offers, at(1, 1), None, 3, usize::MAX), Some(offers[2]));
}

#[test]
fn way_back_is_taken_only_when_nothing_else_will_do() {
    let back = offer(at(0, 1), 0, 1);
    let ahead = offer(at(2, 1), 0, 4);
    assert_eq!(choose_offer(&vec![back, ahead], at(0, 1), None, 3, 0), Some(ahead));
    assert_eq!(choose_offer(&vec![back, ahead], at(0, 1), Some(4), 3, 0), Some(back));
    let full = offer(at(2, 1), 3, 4);
    assert_eq!(choose_offer(&vec![back, full], at(0, 1), None, 3, 0), Some(back));
    assert_eq!(choose_offer(&vec![back], at(0, 1), Some(1), 3, 0), None);
}

fn forked_river() -> Tilemap {
    // two ends at equal distance from the middle of a row of five
    let mut map = Tilemap::new(TilemapSize { x: 5, y: 1 }, 3);
    assert!(map.place_end(at(0, 0)));
    assert!(map.place_end(at(4, 0)));
    for x in 1..4 {
        add_river(&mut map, at(x, 0));
    }
    assert!(update_river(&mut map));
    map
}

#[test]
fn nearest_end_of_each_neighbour_is_offered() {
    let map = forked_river();
    let offers = map.offers(None, at(2, 0), jitter(0));
    assert_eq!(
        offers,
        vec![
            Offer { tile: at(1, 0), count: 0, goal: Some(Goal { end: at(0, 0), distance: 1 }) },
            Offer { tile: at(3, 0), count: 0, goal: Some(Goal { end: at(4, 0), distance: 1 }) },
        ]
    );
    let chosen = map.offers(Some(at(4, 0)), at(2, 0), jitter(0));
    assert_eq!(
        chosen,
        vec![
            Offer { tile: at(1, 0), count: 0, goal: Some(Goal { end: at(4, 0), distance: 3 }) },
            Offer { tile: at(3, 0), count: 0, goal: Some(Goal { end: at(4, 0), distance: 1 }) },
        ]
    );
}

#[test]
fn equally_near_ends_are_told_apart_by_the_roll() {
    let map = forked_river();
    assert_eq!(map.nearest(at(2, 0), 0), Some(Goal { end: at(0, 0), distance: 2 }));
    assert_eq!(map.nearest(at(2, 0), 1), Some(Goal { end: at(4, 0), distance: 2 }));
    assert_eq!(map.nearest(at(2, 0), 2), Some(Goal { end: at(0, 0), distance: 2 }));
    assert_eq!(map.nearest(at(1, 0), 1), Some(Goal { end: at(0, 0), distance: 1 }));
    let bare = Tilemap::new(TilemapSize { x: 2, y: 2 }, 3);
    assert_eq!(bare.nearest(at(0, 0), 0), None);
}

#[test]
fn start_tiles_make_no_offer() {
    let mut map = Tilemap::new(TilemapSize { x: 3, y: 1 }, 3);
    assert!(map.place_start(at(0, 0)));
    assert!(map.place_end(at(2, 0)));
    add_river(&mut map, at(1, 0));
    assert!(update_river(&mut map));
    assert_eq!(
        map.offers(None, at(1, 0), jitter(0)),
        vec![Offer { tile: at(2, 0), count: 0, goal: Some(Goal { end: at(2, 0), distance: 0 }) }]
    );
}

#[test]
fn pick_decides_which_way_a_spirit_in_the_middle_goes() {
    let mut map = forked_river();
    let mut spirit = Spirit::new(at(2, 0));
    let west = Jitter { first: 0, second: 0, third: 0, fourth: 0, pick: 0 };
    assert_eq!(advance(&mut map, &mut spirit, at(2, 0), west), Decision::Advance(at(1, 0)));
    assert_eq!(spirit.selected_end, Some(at(0, 0)));
    assert_eq!(spirit.curr_distance, Some(1));
    assert_eq!(spirit.prev_tile, at(2, 0));
    assert_eq!(spirit.next_tile, Some(at(1, 0)));

    let mut map = forked_river();
    let mut spirit = Spirit::new(at(2, 0));
    let east = Jitter { first: 0, second: 0, third: 0, fourth: 0, pick: 1 };
    assert_eq!(advance(&mut map, &mut spirit, at(2, 0), east), Decision::Advance(at(3, 0)));
    assert_eq!(spirit.selected_end, Some(at(4, 0)));
}

#[test]
fn spirit_never_turns_back_while_another_way_is_open() {
    let mut map = forked_river();
    let mut spirit = Spirit::new(at(1, 0));
    spirit.prev_tile = at(0, 0);
    // the end behind it is nearest, yet the spirit goes on
    for pick in 0..4 {
        let mut copy = spirit;
        let mut fresh = forked_river();
        assert_eq!(
            advance(&mut fresh, &mut copy, at(1, 0), jitter(pick)),
            Decision::Advance(at(2, 0))
        );
    }
    // with the way ahead full, it turns back
    for _ in 0..3 {
        let mut filler = Spirit::new(at(3, 0));
        filler.prev_tile = at(4, 0);
        filler.selected_end = Some(at(0, 0));
        assert_eq!(
            advance(&mut map, &mut filler, at(3, 0), jitter(0)),
            Decision::Advance(at(2, 0))
        );
    }
    assert_eq!(map.get_tile(at(2, 0)).unwrap().count(), 3);
    assert_eq!(advance(&mut map, &mut spirit, at(1, 0), jitter(0)), Decision::Advance(at(0, 0)));
}

#[test]
fn no_tile_ever_holds_more_than_the_map_allows() {
    for max in 1..4u32 {
        let mut map = Tilemap::new(TilemapSize { x: 7, y: 3 }, max);
        assert!(map.place_end(at(6, 1)));
        for x in 0..6 {
            add_river(&mut map, at(x, 1));
        }
        add_river(&mut map, at(3, 0));
        add_river(&mut map, at(3, 2));
        assert!(update_river(&mut map));
        let homes = [at(0, 1), at(3, 0), at(3, 2), at(1, 1), at(2, 1)];
        let mut spirits: Vec<(Spirit, TilePos, bool)> =
            (0..20).map(|i| (Spirit::new(homes[i % 5]), homes[i % 5], false)).collect();
        let mut seed = 1usize;
        for _ in 0..60 {
            for (spirit, stands, gone) in spirits.iter_mut() {
                if *gone {
                    continue;
                }
                seed = seed.wrapping_mul(31).wrapping_add(17);
                match advance(&mut map, spirit, *stands, jitter(seed)) {
                    Decision::Advance(tile) => *stands = tile,
                    Decision::Arrived | Decision::Stranded => *gone = true,
                    Decision::Stalled | Decision::Travelling => {}
                }
                for y in 0..3 {
                    for x in 0..7 {
                        assert!(map.get_tile(at(x, y)).unwrap().count() <= max);
                    }
                }
            }
        }
        assert!(spirits.iter().all(|(_, _, gone)| *gone));
    }
}
