use charon::grid::{get_neighbours, tile_distance, Layer, SquareDirection, TilePos, TilemapSize};

fn at(x: u32, y: u32) -> TilePos {
    TilePos { x, y }
}

#[test]
fn neighbours_come_west_east_north_south() {
    let size = TilemapSize { x: 3, y: 3 };
    assert_eq!(get_neighbours(&at(1, 1), &size), vec![at(0, 1), at(2, 1), at(1, 2), at(1, 0)]);
}

#[test]
fn neighbours_off_the_grid_are_left_out() {
    let size = TilemapSize { x: 3, y: 2 };
    assert_eq!(get_neighbours(&at(0, 0), &size), vec![at(1, 0), at(0, 1)]);
    assert_eq!(get_neighbours(&at(2, 1), &size), vec![at(1, 1), at(2, 0)]);
    assert_eq!(get_neighbours(&at(3, 0), &size), vec![at(2, 0)]);
    assert_eq!(get_neighbours(&at(9, 9), &size), Vec::<TilePos>::new());
    assert_eq!(
        get_neighbours(&at(u32::MAX, u32::MAX), &TilemapSize { x: u32::MAX, y: u32::MAX }),
        Vec::<TilePos>::new()
    );
    assert_eq!(get_neighbours(&at(0, 0), &TilemapSize { x: 1, y: 1 }), Vec::<TilePos>::new());
}

#[test]
fn offset_by_side() {
    let size = TilemapSize { x: 4, y: 4 };
    assert_eq!(at(1, 1).square_offset(SquareDirection::West, &size), Some(at(0, 1)));
    assert_eq!(at(1, 1).square_offset(SquareDirection::East, &size), Some(at(2, 1)));
    assert_eq!(at(1, 1).square_offset(SquareDirection::North, &size), Some(at(1, 2)));
    assert_eq!(at(1, 1).square_offset(SquareDirection::South, &size), Some(at(1, 0)));
    assert_eq!(at(0, 3).square_offset(SquareDirection::West, &size), None);
    assert_eq!(at(0, 3).square_offset(SquareDirection::North, &size), None);
    assert_eq!(at(3, 0).square_offset(SquareDirection::East, &size), None);
    assert_eq!(at(3, 0).square_offset(SquareDirection::South, &size), None);
}

#[test]
fn distance_counts_steps_along_both_axes() {
    assert_eq!(tile_distance(&at(1, 1), &at(1, 1)), 0);
    assert_eq!(tile_distance(&at(1, 1), &at(4, 0)), 4);
    assert_eq!(tile_distance(&at(4, 0), &at(1, 1)), 4);
    assert_eq!(tile_distance(&at(0, 0), &at(u32::MAX, u32::MAX)), 2 * (u32::MAX as u64));
}

#[test]
fn layer_keeps_one_value_per_tile() {
    let size = TilemapSize { x: 3, y: 2 };
    let mut layer = Layer::new(size, 0u32);
    assert_eq!(layer.extent(), size);
    for y in 0..2 {
        for x in 0..3 {
            layer.set(at(x, y), 10 * y + x);
        }
    }
    for y in 0..2 {
        for x in 0..3 {
            assert_eq!(layer.get(at(x, y)), 10 * y + x);
        }
    }
}
