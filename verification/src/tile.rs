//! What a tile of the grid can hold.

use vstd::prelude::*;

verus! {

/// The spawn interval of a fresh start tile, in milliseconds.
pub const INITIAL_SPAWN_MILLIS: u32 = 1200;

/// The spawn interval never shrinks below this many milliseconds.
pub const MIN_SPAWN_MILLIS: u32 = 500;

/// How much a successful spawn shortens the interval, in milliseconds.
pub const SPAWN_STEP_MILLIS: u32 = 5;

/// The round is lost once the congestion counter of a start tile gets here.
pub const LOSE_COUNT: u32 = 30;

/// The outline that a river tile is drawn with.
#[derive(Clone, Copy, Debug, PartialEq, Eq, Structural)]
pub enum PathShape {
    /// A river tile with no river beside it.
    Isolated,
    End,
    Straight,
    Turn,
    Junction,
    Crossing,
}

/// The river on a tile: how many spirits are bound for it and how it is drawn.
#[derive(Clone, Copy, Debug, PartialEq, Eq, Structural)]
pub struct PathTile {
    pub count: u32,
    pub shape: PathShape,
    pub rot: u32,
}

impl Default for PathTile {
    fn default() -> (r: Self)
        ensures
            r == (PathTile { count: 0, shape: PathShape::End, rot: 0 }),
    {
        PathTile { count: 0, shape: PathShape::End, rot: 0 }
    }
}

/// A tile that spirits spawn from.
#[derive(Clone, Copy, Debug, PartialEq, Eq, Structural)]
pub struct StartTile {
    /// Set once a river has linked this tile to an end.
    pub completed_once: bool,
    /// Time between two spawn attempts, in milliseconds.
    pub spawn_millis: u32,
    /// Rises with each spawn attempt and falls with each spawn.
    pub lose_counter: u32,
}

impl Default for StartTile {
    fn default() -> (r: Self)
        ensures
            r == (StartTile {
                completed_once: false,
                spawn_millis: INITIAL_SPAWN_MILLIS,
                lose_counter: 0,
            }),
    {
        StartTile { completed_once: false, spawn_millis: INITIAL_SPAWN_MILLIS, lose_counter: 0 }
    }
}

/// A tile that spirits leave the map at.
#[derive(Clone, Copy, Debug, PartialEq, Eq, Structural)]
pub struct EndTile;

/// The role of a tile, without its state.
#[derive(Clone, Copy, Debug, PartialEq, Eq, Structural)]
pub enum TileKind {
    Empty,
    Path,
    Start,
    End,
}

/// A tile of the grid. Start and end tiles carry river state as well, so
/// that spirits and distances can rest on them.
#[derive(Clone, Copy, Debug, PartialEq, Eq, Structural)]
pub enum Tile {
    Empty,
    Path(PathTile),
    Start(StartTile, PathTile),
    End(EndTile, PathTile),
}

impl Tile {
    /// The role of the tile.
    pub open spec fn spec_kind(self) -> TileKind {
        match self {
            Tile::Empty => TileKind::Empty,
            Tile::Path(_) => TileKind::Path,
            Tile::Start(_, _) => TileKind::Start,
            Tile::End(_, _) => TileKind::End,
        }
    }

    /// The river state of the tile, where it has one.
    pub open spec fn spec_path(self) -> Option<PathTile> {
        match self {
            Tile::Empty => None,
            Tile::Path(p) => Some(p),
            Tile::Start(_, p) => Some(p),
            Tile::End(_, p) => Some(p),
        }
    }

    /// The start state of the tile, where it is a start.
    pub open spec fn spec_start(self) -> Option<StartTile> {
        match self {
            Tile::Start(s, _) => Some(s),
            _ => None,
        }
    }

    /// The tile with its river state replaced; an empty tile stays empty.
    pub open spec fn spec_with_path(self, path: PathTile) -> Tile {
        match self {
            Tile::Empty => Tile::Empty,
            Tile::Path(_) => Tile::Path(path),
            Tile::Start(s, _) => Tile::Start(s, path),
            Tile::End(e, _) => Tile::End(e, path),
        }
    }

    /// The tile with its start state replaced; any other tile stays as it is.
    pub open spec fn spec_with_start(self, start: StartTile) -> Tile {
        match self {
            Tile::Start(_, p) => Tile::Start(start, p),
            _ => self,
        }
    }

    /// The number of spirits bound for the tile; none for an empty tile.
    pub open spec fn spec_count(self) -> u32 {
        match self.spec_path() {
            Some(p) => p.count,
            None => 0,
        }
    }

    #[verifier::when_used_as_spec(spec_kind)]
    pub fn kind(self) -> (r: TileKind)
        ensures
            r == self.spec_kind(),
    {
        match self {
            Tile::Empty => TileKind::Empty,
            Tile::Path(_) => TileKind::Path,
            Tile::Start(_, _) => TileKind::Start,
            Tile::End(_, _) => TileKind::End,
        }
    }

    #[verifier::when_used_as_spec(spec_path)]
    pub fn path(self) -> (r: Option<PathTile>)
        ensures
            r == self.spec_path(),
    {
        match self {
            Tile::Empty => None,
            Tile::Path(p) => Some(p),
            Tile::Start(_, p) => Some(p),
            Tile::End(_, p) => Some(p),
        }
    }

    #[verifier::when_used_as_spec(spec_start)]
    pub fn start(self) -> (r: Option<StartTile>)
        ensures
            r == self.spec_start(),
    {
        match self {
            Tile::Start(s, _) => Some(s),
            _ => None,
        }
    }

    #[verifier::when_used_as_spec(spec_with_path)]
    pub fn with_path(self, path: PathTile) -> (r: Tile)
        ensures
            r == self.spec_with_path(path),
    {
        match self {
            Tile::Empty => Tile::Empty,
            Tile::Path(_) => Tile::Path(path),
            Tile::Start(s, _) => Tile::Start(s, path),
            Tile::End(e, _) => Tile::End(e, path),
        }
    }

    #[verifier::when_used_as_spec(spec_with_start)]
    pub fn with_start(self, start: StartTile) -> (r: Tile)
        ensures
            r == self.spec_with_start(start),
    {
        match self {
            Tile::Start(_, p) => Tile::Start(start, p),
            _ => self,
        }
    }

    #[verifier::when_used_as_spec(spec_count)]
    pub fn count(self) -> (r: u32)
        ensures
            r == self.spec_count(),
    {
        match self.path() {
            Some(p) => p.count,
            None => 0,
        }
    }

    /// The tile with one more spirit bound for it.
    pub open spec fn spec_bound(self) -> Tile {
        match self.spec_path() {
            Some(p) => self.spec_with_path(
                PathTile { count: (p.count + 1) as u32, shape: p.shape, rot: p.rot },
            ),
            None => self,
        }
    }

    /// The tile with one spirit fewer bound for it, but never fewer than none.
    pub open spec fn spec_freed(self) -> Tile {
        match self.spec_path() {
            Some(p) => self.spec_with_path(
                PathTile {
                    count: if p.count > 0 {
                        (p.count - 1) as u32
                    } else {
                        0
                    },
                    shape: p.shape,
                    rot: p.rot,
                },
            ),
            None => self,
        }
    }

    #[verifier::when_used_as_spec(spec_bound)]
    pub fn bound(self) -> (r: Tile)
        requires
            self.spec_count() < u32::MAX,
        ensures
            r == self.spec_bound(),
    {
        match self.path() {
            Some(p) => self.with_path(PathTile { count: p.count + 1, shape: p.shape, rot: p.rot }),
            None => self,
        }
    }

    #[verifier::when_used_as_spec(spec_freed)]
    pub fn freed(self) -> (r: Tile)
        ensures
            r == self.spec_freed(),
    {
        match self.path() {
            Some(p) => self.with_path(
                PathTile {
                    count: if p.count > 0 {
                        p.count - 1
                    } else {
                        0
                    },
                    shape: p.shape,
                    rot: p.rot,
                },
            ),
            None => self,
        }
    }

    /// Whether the tile carries a river: every tile but an empty one.
    pub open spec fn spec_is_path(self) -> bool {
        self.spec_kind() != TileKind::Empty
    }

    #[verifier::when_used_as_spec(spec_is_path)]
    pub fn is_path(self) -> (r: bool)
        ensures
            r == self.spec_is_path(),
    {
        match self {
            Tile::Empty => false,
            _ => true,
        }
    }

    /// Whether the tile is a start.
    pub open spec fn spec_is_start(self) -> bool {
        self.spec_kind() == TileKind::Start
    }

    #[verifier::when_used_as_spec(spec_is_start)]
    pub fn is_start(self) -> (r: bool)
        ensures
            r == self.spec_is_start(),
    {
        match self {
            Tile::Start(_, _) => true,
            _ => false,
        }
    }

    /// Whether the tile is an end.
    pub open spec fn spec_is_end(self) -> bool {
        self.spec_kind() == TileKind::End
    }

    #[verifier::when_used_as_spec(spec_is_end)]
    pub fn is_end(self) -> (r: bool)
        ensures
            r == self.spec_is_end(),
    {
        match self {
            Tile::End(_, _) => true,
            _ => false,
        }
    }
}

} // verus!
