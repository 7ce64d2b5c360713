use charon::editor::TilesAvailable;
use charon::game::{
    end_due, get_spawn_pos, is_clear_of, pick_spawn_pos, reset_score, spawn_candidates,
    spawn_start_end, spawn_start_end_with, start_due, GameScore, Spawned, SpawnedCount, END_BONUS,
    START_BONUS,
};
use charon::grid::{tile_distance, TilePos, TilemapSize};
use charon::level::{map_size, play_to_real_size, tile_in_level, LevelSize};
use charon::tile::TileKind;
use charon::tilemap::{reset_tilemap, Tilemap};

fn at(x: u32, y: u32) -> TilePos {
    TilePos { x, y }
}

#[test]
fn score_of_a_round_is_kept_when_it_closes() {
    let mut score = GameScore { score: 12, last_score: 3, best_score: 10 };
    let mut count = SpawnedCount { start: 4, end: 2 };
    reset_score(&mut score, &mut count);
    assert_eq!(score, GameScore { score: 0, last_score: 12, best_score: 12 });
    assert_eq!(count, SpawnedCount { start: 0, end: 0 });
    score.add_point();
    score.add_point();
    reset_score(&mut score, &mut count);
    assert_eq!(score, GameScore { score: 0, last_score: 2, best_score: 12 });
    assert_eq!(GameScore::default(), GameScore { score: 0, last_score: 0, best_score: 0 });
    assert_eq!(SpawnedCount::default(), SpawnedCount { start: 0, end: 0 });
}

#[test]
fn start_tiles_come_at_the_listed_scores() {
    let listed = [
        0, 5, 25, 50, 100, 130, 160, 220, 260, 300, 400, 500, 700, 900, 1200, 1500, 2000, 2500,
        3500, 5000,
    ];
    for (count, at_score) in listed.iter().enumerate() {
        assert!(start_due(count, *at_score));
        if *at_score > 0 {
            assert!(!start_due(count, *at_score - 1));
        }
    }
    assert!(!start_due(20, 5999));
    assert!(start_due(20, 6000));
    assert!(!start_due(21, 6999));
    assert!(start_due(21, 7000));
    assert!(start_due(4_294_981, u32::MAX));
    assert!(!start_due(4_294_982, u32::MAX));
    assert!(!start_due(usize::MAX, u32::MAX));
}

#[test]
fn end_tiles_come_at_the_listed_scores() {
    let listed = [0, 70, 200, 350, 600, 1000, 3000];
    for (count, at_score) in listed.iter().enumerate() {
        assert!(end_due(count, *at_score));
        if *at_score > 0 {
            assert!(!end_due(count, *at_score - 1));
        }
    }
    assert!(!end_due(7, 9999));
    assert!(end_due(7, 10000));
    assert!(!end_due(8, 19999));
    assert!(end_due(8, 20000));
    assert!(!end_due(usize::MAX, u32::MAX));
}

#[test]
fn clear_means_farther_than_two_steps() {
    let sites = vec![at(5, 5), at(0, 0)];
    assert!(is_clear_of(&at(5, 8), &sites));
    assert!(!is_clear_of(&at(5, 7), &sites));
    assert!(!is_clear_of(&at(6, 6), &sites));
    assert!(is_clear_of(&at(7, 6), &sites));
    assert!(!is_clear_of(&at(1, 1), &sites));
    assert!(is_clear_of(&at(1, 1), &Vec::new()));
}

#[test]
fn candidates_run_along_the_rim() {
    let offset = TilemapSize { x: 10, y: 20 };
    let size = TilemapSize { x: 3, y: 2 };
    assert_eq!(
        spawn_candidates(&offset, &size, &Vec::new(), &Vec::new()),
        vec![
            at(10, 20),
            at(10, 21),
            at(11, 20),
            at(11, 21),
            at(12, 20),
            at(12, 21),
            at(10, 20),
            at(12, 20),
            at(10, 21),
            at(12, 21),
        ]
    );
    assert_eq!(
        spawn_candidates(&offset, &TilemapSize { x: 0, y: 2 }, &Vec::new(), &Vec::new()),
        Vec::<TilePos>::new()
    );
    assert_eq!(
        spawn_candidates(&offset, &TilemapSize { x: 2, y: 0 }, &Vec::new(), &Vec::new()),
        Vec::<TilePos>::new()
    );
}

#[test]
fn candidates_keep_clear_of_starts_and_ends() {
    let offset = TilemapSize { x: 0, y: 0 };
    let size = TilemapSize { x: 8, y: 3 };
    let starts = vec![at(1, 1)];
    let ends = vec![at(6, 1)];
    let found = spawn_candidates(&offset, &size, &starts, &ends);
    assert_eq!(found, vec![at(3, 0), at(3, 2), at(4, 0), at(4, 2)]);
    assert_eq!(get_spawn_pos(&offset, &TilemapSize { x: 3, y: 3 }, &starts, &ends), None);
}

#[test]
fn chance_picks_one_of_the_candidates() {
    let offset = TilemapSize { x: 8, y: 8 };
    let size = TilemapSize { x: 8, y: 3 };
    let starts = vec![at(9, 9)];
    let ends = vec![at(14, 9)];
    let found = spawn_candidates(&offset, &size, &starts, &ends);
    assert!(!found.is_empty());
    let mut seen = std::collections::HashSet::new();
    for _ in 0..400 {
        let pos = get_spawn_pos(&offset, &size, &starts, &ends).expect("a tile");
        assert!(found.contains(&pos));
        seen.insert((pos.x, pos.y));
    }
    assert!(seen.len() > 1);
}

#[test]
fn roll_picks_by_remainder() {
    let tiles = vec![at(1, 0), at(2, 0), at(3, 0)];
    assert_eq!(pick_spawn_pos(&tiles, 0), Some(at(1, 0)));
    assert_eq!(pick_spawn_pos(&tiles, 4), Some(at(2, 0)));
    assert_eq!(pick_spawn_pos(&tiles, 5), Some(at(3, 0)));
    assert_eq!(pick_spawn_pos(&Vec::new(), 5), None);
}

#[test]
fn first_score_brings_the_first_start_and_end() {
    let mut map = Tilemap::new(map_size(), 3);
    let mut level = LevelSize::new();
    let mut available = TilesAvailable(9);
    let mut count = SpawnedCount::default();
    let spawned = spawn_start_end_with(&mut map, &mut level, &mut available, &mut count, 0, 0, 0);
    assert_eq!(spawned, Spawned { start: Some(at(8, 9)), end: Some(at(15, 9)), grew: true });
    assert_eq!(count, SpawnedCount { start: 1, end: 1 });
    assert_eq!(level, LevelSize(TilemapSize { x: 10, y: 5 }));
    assert_eq!(available, TilesAvailable(9 + START_BONUS + END_BONUS));
    assert_eq!(available, TilesAvailable(15));
    assert_eq!(map.get_tile(at(8, 9)).unwrap().kind(), TileKind::Start);
    assert_eq!(map.get_tile(at(15, 9)).unwrap().kind(), TileKind::End);
    assert_eq!(map.start_tiles(), vec![at(8, 9)]);
    assert_eq!(map.end_tiles(), vec![at(15, 9)]);
    assert!(map.has_changed());

    let again = spawn_start_end_with(&mut map, &mut level, &mut available, &mut count, 4, 0, 0);
    assert_eq!(again, Spawned { start: None, end: None, grew: false });
    assert_eq!(count, SpawnedCount { start: 1, end: 1 });
    assert_eq!(available, TilesAvailable(15));
}

#[test]
fn second_start_lands_on_the_rim_clear_of_the_first() {
    let mut map = Tilemap::new(map_size(), 3);
    let mut level = LevelSize::new();
    let mut available = TilesAvailable(9);
    let mut count = SpawnedCount::default();
    spawn_start_end_with(&mut map, &mut level, &mut available, &mut count, 0, 0, 0);
    let spawned = spawn_start_end_with(&mut map, &mut level, &mut available, &mut count, 5, 3, 0);
    assert!(!spawned.grew);
    assert_eq!(level, LevelSize(TilemapSize { x: 10, y: 5 }));
    assert_eq!(count, SpawnedCount { start: 2, end: 1 });
    assert_eq!(spawned.end, None);
    let (offset, size) = play_to_real_size(&level);
    assert_eq!((offset, size), (TilemapSize { x: 7, y: 7 }, TilemapSize { x: 10, y: 5 }));
    let expected = spawn_candidates(&offset, &size, &vec![at(8, 9)], &vec![at(15, 9)]);
    assert_eq!(spawned.start, Some(expected[3 % expected.len()]));
    let start = spawned.start.unwrap();
    assert!(tile_in_level(&start, &level));
    assert!(start.x == 7 || start.x == 16 || start.y == 7 || start.y == 11);
    assert!(tile_distance(&start, &at(8, 9)) > 2);
    assert!(tile_distance(&start, &at(15, 9)) > 2);
    assert_eq!(available, TilesAvailable(17));
}

#[test]
fn level_grows_with_the_first_start_and_every_fourth_after() {
    let mut map = Tilemap::new(map_size(), 3);
    let mut level = LevelSize::new();
    let mut available = TilesAvailable(0);
    let mut count = SpawnedCount::default();
    let mut grown_at = Vec::new();
    let mut score = 0;
    while count.start < 40 {
        while !start_due(count.start, score) {
            score += 1;
        }
        let spawned = spawn_start_end(&mut map, &mut level, &mut available, &mut count, score);
        if spawned.grew {
            grown_at.push(count.start);
        }
        for start in map.start_tiles() {
            assert!(tile_in_level(&start, &level));
        }
        for end in map.end_tiles() {
            assert!(tile_in_level(&end, &level));
        }
    }
    assert_eq!(grown_at, vec![1, 5, 9, 13, 17, 21, 25, 29]);
    assert_eq!(level, LevelSize(TilemapSize { x: 24, y: 19 }));
    let all: Vec<TilePos> = map.start_tiles().into_iter().chain(map.end_tiles()).collect();
    for (i, a) in all.iter().enumerate() {
        for b in all.iter().skip(i + 1) {
            assert!(tile_distance(a, b) > 2);
        }
    }
}

#[test]
fn reset_keeps_starts_and_ends_and_clears_the_river() {
    let mut map = Tilemap::new(map_size(), 3);
    let mut level = LevelSize::new();
    let mut available = TilesAvailable(9);
    let mut count = SpawnedCount::default();
    spawn_start_end_with(&mut map, &mut level, &mut available, &mut count, 0, 0, 0);
    let mut editor = charon::editor::Editor::new();
    for x in 9..15 {
        charon::editor::click_tile(&mut map, &mut editor, &mut available, Some(at(x, 9)), x == 9, true);
    }
    assert!(charon::pathfinding::update_river(&mut map));
    assert!(charon::spirits::spawn_spirit(&mut map, at(8, 9), true).is_some());
    assert_eq!(map.distance_to(at(9, 9), at(15, 9)), Some(6));
    reset_tilemap(&mut map);
    assert!(map.has_changed());
    assert_eq!(map.start_tiles(), vec![at(8, 9)]);
    assert_eq!(map.end_tiles(), vec![at(15, 9)]);
    for x in 9..15 {
        assert_eq!(map.get_tile(at(x, 9)).unwrap().kind(), TileKind::Empty);
        assert_eq!(map.distance_to(at(x, 9), at(15, 9)), None);
    }
    assert_eq!(map.distance_to(at(15, 9), at(15, 9)), None);
    let start = map.get_tile(at(8, 9)).unwrap();
    assert_eq!(start.count(), 0);
    assert_eq!(start.start().unwrap(), charon::tile::StartTile::default());
}

#[test]
fn level_of_any_size_that_fits_takes_the_first_tiles() {
    // a playable part that no round goes through, as wide as the map
    let mut map = Tilemap::new(map_size(), 3);
    let mut level = LevelSize(TilemapSize { x: 24, y: 1 });
    let mut available = TilesAvailable(0);
    let mut count = SpawnedCount::default();
    let spawned = spawn_start_end_with(&mut map, &mut level, &mut available, &mut count, 0, 0, 0);
    assert_eq!(spawned, Spawned { start: Some(at(1, 9)), end: Some(at(22, 9)), grew: false });
    assert_eq!(level, LevelSize(TilemapSize { x: 24, y: 1 }));

    // an odd one with room to grow
    let mut map = Tilemap::new(map_size(), 3);
    let mut level = LevelSize(TilemapSize { x: 1, y: 1 });
    let mut count = SpawnedCount::default();
    let spawned = spawn_start_end_with(&mut map, &mut level, &mut available, &mut count, 0, 0, 0);
    assert!(spawned.grew);
    assert_eq!(level, LevelSize(TilemapSize { x: 3, y: 3 }));
    assert_eq!(spawned.start, Some(at(11, 9)));
    // the first end would land on the first start in so narrow a part
    assert_eq!(spawned.end, None);
    assert_eq!(count, SpawnedCount { start: 1, end: 1 });
}
