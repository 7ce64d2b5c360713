//! The playable part of the map: a rectangle in its middle that grows as
//! the round goes on.

use crate::grid::{TilePos, TilemapSize};
use vstd::prelude::*;

verus! {

/// The number of columns of the map that a game is played on.
pub const MAP_WIDTH: u32 = 24;

/// The number of rows of the map that a game is played on.
pub const MAP_HEIGHT: u32 = 19;

/// The number of columns of the playable part when a round begins.
pub const INITIAL_WIDTH: u32 = 8;

/// The number of rows of the playable part when a round begins.
pub const INITIAL_HEIGHT: u32 = 3;

/// The extent of the map that a game is played on.
pub open spec fn spec_map_size() -> TilemapSize {
    TilemapSize { x: MAP_WIDTH, y: MAP_HEIGHT }
}

/// The extent of the map that a game is played on.
#[verifier::when_used_as_spec(spec_map_size)]
pub fn map_size() -> (r: TilemapSize)
    ensures
        r == spec_map_size(),
{
    TilemapSize { x: MAP_WIDTH, y: MAP_HEIGHT }
}

/// The extent of the playable part of the map.
#[derive(Clone, Copy, Debug, PartialEq, Eq, Structural)]
pub struct LevelSize(pub TilemapSize);

impl LevelSize {
    /// Whether the playable part is no larger than the map.
    pub open spec fn fits(self) -> bool {
        self.0.x <= MAP_WIDTH && self.0.y <= MAP_HEIGHT
    }

    /// Whether the playable part is one that a round goes through: the
    /// first one, grown by two tiles each way some number of times, and no
    /// larger than the map.
    pub open spec fn wf(self) -> bool {
        &&& INITIAL_WIDTH <= self.0.x <= MAP_WIDTH
        &&& self.0.x % 2 == 0
        &&& self.0.x - INITIAL_WIDTH == self.0.y - INITIAL_HEIGHT
    }

    /// The playable part that a round begins with.
    pub fn new() -> (r: Self)
        ensures
            r.0 == (TilemapSize { x: INITIAL_WIDTH, y: INITIAL_HEIGHT }),
            r.wf(),
    {
        LevelSize(TilemapSize { x: INITIAL_WIDTH, y: INITIAL_HEIGHT })
    }
}

/// The corner of the playable part nearest the origin, as a distance from
/// the corner of the map.
pub open spec fn level_offset(level: LevelSize) -> TilemapSize {
    TilemapSize {
        x: ((MAP_WIDTH - level.0.x) / 2) as u32,
        y: ((MAP_HEIGHT - level.0.y) / 2) as u32,
    }
}

/// Whether `pos` lies in the playable part.
pub open spec fn spec_tile_in_level(pos: TilePos, level: LevelSize) -> bool {
    let offset = level_offset(level);
    &&& offset.x <= pos.x < offset.x + level.0.x
    &&& offset.y <= pos.y < offset.y + level.0.y
}

/// Where the playable part lies on the map: its offset from the corner of
/// the map, which centres it, and its extent.
pub fn play_to_real_size(play_size: &LevelSize) -> (r: (TilemapSize, TilemapSize))
    requires
        play_size.fits(),
    ensures
        r.0 == level_offset(*play_size),
        r.1 == play_size.0,
{
    (
        TilemapSize {
            x: (MAP_WIDTH - play_size.0.x) / 2,
            y: (MAP_HEIGHT - play_size.0.y) / 2,
        },
        play_size.0,
    )
}

/// Tells whether `pos` lies in the playable part of the map.
pub fn tile_in_level(pos: &TilePos, level_size: &LevelSize) -> (r: bool)
    requires
        level_size.fits(),
    ensures
        r == spec_tile_in_level(*pos, *level_size),
{
    let (offset, _) = play_to_real_size(level_size);
    pos.x >= offset.x && pos.x < offset.x + level_size.0.x && pos.y >= offset.y && pos.y < offset.y
        + level_size.0.y
}

/// The tile that the cursor selects: the tile under it, if that lies in
/// the playable part.
pub fn select_tile(under_cursor: Option<TilePos>, level_size: &LevelSize) -> (r: Option<TilePos>)
    requires
        level_size.fits(),
    ensures
        r == (match under_cursor {
            Some(pos) => if spec_tile_in_level(pos, *level_size) {
                Some(pos)
            } else {
                None
            },
            None => None,
        }),
{
    match under_cursor {
        Some(pos) => if tile_in_level(&pos, level_size) {
            Some(pos)
        } else {
            None
        },
        None => None,
    }
}

/// Every tile of the playable part is a tile of the map.
pub proof fn lemma_level_on_map(pos: TilePos, level: LevelSize)
    requires
        level.fits(),
        spec_tile_in_level(pos, level),
    ensures
        crate::grid::in_bounds(pos, map_size()),
{
}

} // verus!
