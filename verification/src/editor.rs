//! The river editor: one press-and-drag either draws river tiles or erases
//! them, decided by the tile under the cursor when the press began.

use crate::grid::{adjacent, in_bounds, tile_distance, lemma_adjacent_is_distance_one, TilePos};
use crate::tile::{PathShape, PathTile, Tile, TileKind};
use crate::tilemap::Tilemap;
use vstd::prelude::*;

verus! {

/// The tiles that a round begins with.
pub const INITIAL_TILES: u32 = 9;

/// The river tiles that the player may still draw.
#[derive(Clone, Copy, Debug, PartialEq, Eq, Structural)]
pub struct TilesAvailable(pub u32);

/// What one call of the editor did.
#[derive(Clone, Copy, Debug, PartialEq, Eq, Structural)]
pub enum Edit {
    /// No drag is under way: the trackers were reset.
    Released,
    /// A drag is under way and the tile under the cursor stays as it is.
    Kept,
    /// The river tile at the position was erased.
    Erased(TilePos),
    /// A river tile was drawn at the position.
    Added(TilePos),
    /// A river tile was drawn at the first position and the tile drawn just
    /// before it, at the second, was taken back to keep the river taut.
    Tautened(TilePos, TilePos),
}

/// The state of the drag under way, if any.
#[derive(Clone, Copy, Debug, PartialEq, Eq, Structural)]
pub struct Editor {
    drag: Option<bool>,
    one_ago: Option<TilePos>,
    two_ago: Option<TilePos>,
}

/// The river state of a freshly drawn tile.
pub open spec fn fresh_path() -> PathTile {
    PathTile { count: 0, shape: PathShape::End, rot: 0 }
}

impl Editor {
    /// The mode of the drag under way: `Some(true)` erases, `Some(false)`
    /// draws, `None` means that no drag is under way.
    pub closed spec fn drag(&self) -> Option<bool> {
        self.drag
    }

    /// The tile drawn last in this drag.
    pub closed spec fn one_ago(&self) -> Option<TilePos> {
        self.one_ago
    }

    /// The tile drawn before the last in this drag.
    pub closed spec fn two_ago(&self) -> Option<TilePos> {
        self.two_ago
    }

    /// An editor with no drag under way.
    pub fn new() -> (r: Self)
        ensures
            r.drag() is None,
            r.one_ago() is None,
            r.two_ago() is None,
    {
        Editor { drag: None, one_ago: None, two_ago: None }
    }

    /// Whether the interact signal counts: a drag begins on a fresh press
    /// and goes on for as long as the button is held.
    pub open spec fn selects(&self, just_pressed: bool, pressed: bool) -> bool {
        if self.drag() is None {
            just_pressed
        } else {
            pressed
        }
    }

    /// The mode that the drag has once it touches the tile `tile`.
    pub open spec fn mode_on(&self, tile: Tile) -> bool {
        match self.drag() {
            Some(mode) => mode,
            None => tile.is_path(),
        }
    }

    /// Whether drawing at `pos` makes the tile drawn last redundant: the
    /// new tile touches the one drawn before the last.
    pub open spec fn taut_at(&self, map: &Tilemap, pos: TilePos) -> bool {
        &&& self.one_ago() matches Some(last)
        &&& self.two_ago() matches Some(before)
        &&& adjacent(pos, before)
        &&& in_bounds(last, map.size())
        &&& map.tile(last).kind() == TileKind::Path
    }

    /// What the editor does for the given cursor tile and interact signal.
    pub open spec fn edit_for(
        &self,
        map: &Tilemap,
        available: TilesAvailable,
        selected: Option<TilePos>,
        just_pressed: bool,
        pressed: bool,
    ) -> Edit {
        if !self.selects(just_pressed, pressed) || selected is None || !in_bounds(
            selected->0,
            map.size(),
        ) {
            Edit::Released
        } else {
            let pos = selected->0;
            let tile = map.tile(pos);
            if tile.is_path() != self.mode_on(tile) {
                Edit::Kept
            } else {
                match tile.kind() {
                    TileKind::Start => Edit::Kept,
                    TileKind::End => Edit::Kept,
                    TileKind::Path => Edit::Erased(pos),
                    TileKind::Empty => if available.0 == 0 {
                        Edit::Kept
                    } else if self.taut_at(map, pos) {
                        Edit::Tautened(pos, self.one_ago()->0)
                    } else {
                        Edit::Added(pos)
                    },
                }
            }
        }
    }
}

/// Applies the cursor tile and the interact signal of one frame to the
/// river. The first tile touched after a press decides whether the drag
/// erases river tiles or draws them; start and end tiles are never edited;
/// drawing costs one available tile and erasing gives one back. Nothing
/// stays recorded on a tile that is drawn or erased.
pub fn click_tile(
    map: &mut Tilemap,
    editor: &mut Editor,
    available: &mut TilesAvailable,
    selected: Option<TilePos>,
    just_pressed: bool,
    pressed: bool,
) -> (edit: Edit)
    requires
        old(map).wf(),
        old(editor).edit_for(old(map), *old(available), selected, just_pressed, pressed)
            is Erased ==> old(available).0 < u32::MAX,
    ensures
        edit == old(editor).edit_for(old(map), *old(available), selected, just_pressed, pressed),
        final(map).wf(),
        final(map).same_bounds(old(map)),
        final(map).keeps_completed(old(map)),
        match edit {
            Edit::Released => {
                &&& final(editor).drag() is None
                &&& final(editor).one_ago() is None
                &&& final(editor).two_ago() is None
                &&& final(map).same_frame(old(map))
                &&& final(map).same_tiles(old(map))
                &&& final(map).changed() == old(map).changed()
                &&& *final(available) == *old(available)
            },
            Edit::Kept => {
                &&& final(editor).drag() == Some(old(editor).mode_on(old(map).tile(selected->0)))
                &&& final(editor).one_ago() == old(editor).one_ago()
                &&& final(editor).two_ago() == old(editor).two_ago()
                &&& final(map).same_frame(old(map))
                &&& final(map).same_tiles(old(map))
                &&& final(map).changed() == old(map).changed()
                &&& *final(available) == *old(available)
            },
            Edit::Erased(pos) => {
                &&& final(editor).drag() == Some(true)
                &&& final(editor).one_ago() == old(editor).one_ago()
                &&& final(editor).two_ago() == old(editor).two_ago()
                &&& final(map).same_tiles_but(old(map), pos, pos)
                &&& final(map).tile(pos) == Tile::Empty
                &&& final(map).forgets(old(map), pos, pos)
                &&& final(map).changed()
                &&& final(available).0 == old(available).0 + 1
            },
            Edit::Added(pos) => {
                &&& final(editor).drag() == Some(false)
                &&& final(editor).one_ago() == Some(pos)
                &&& final(editor).two_ago() == old(editor).one_ago()
                &&& final(map).same_tiles_but(old(map), pos, pos)
                &&& final(map).tile(pos) == Tile::Path(fresh_path())
                &&& final(map).forgets(old(map), pos, pos)
                &&& final(map).changed()
                &&& final(available).0 == old(available).0 - 1
            },
            Edit::Tautened(pos, last) => {
                &&& final(editor).drag() == Some(false)
                &&& final(editor).one_ago() == Some(pos)
                &&& final(editor).two_ago() == old(editor).two_ago()
                &&& final(map).same_tiles_but(old(map), pos, last)
                &&& final(map).tile(pos) == Tile::Path(fresh_path())
                &&& final(map).tile(last) == Tile::Empty
                &&& final(map).forgets(old(map), pos, last)
                &&& final(map).changed()
                &&& *final(available) == *old(available)
            },
        },
{
    let select = if editor.drag.is_none() {
        just_pressed
    } else {
        pressed
    };
    let target = match selected {
        Some(pos) => if select && map.contains(pos) {
            Some(pos)
        } else {
            None
        },
        None => None,
    };
    match target {
        None => {
            editor.drag = None;
            editor.one_ago = None;
            editor.two_ago = None;
            Edit::Released
        },
        Some(pos) => {
            let tile = map.tiles.get(pos);
            let mode = match editor.drag {
                Some(mode) => mode,
                None => tile.is_path(),
            };
            editor.drag = Some(mode);
            if tile.is_path() != mode {
                return Edit::Kept;
            }
            match tile {
                Tile::Start(_, _) => Edit::Kept,
                Tile::End(_, _) => Edit::Kept,
                Tile::Path(_) => {
                    map.put_tile(pos, Tile::Empty, true);
                    map.forget(pos);
                    available.0 = available.0 + 1;
                    Edit::Erased(pos)
                },
                Tile::Empty => {
                    if available.0 == 0 {
                        return Edit::Kept;
                    }
                    let taut = match (editor.one_ago, editor.two_ago) {
                        (Some(last), Some(before)) => {
                            proof {
                                lemma_adjacent_is_distance_one(pos, before);
                            }
                            if tile_distance(&pos, &before) == 1 && map.contains(last) {
                                match map.tiles.get(last) {
                                    Tile::Path(_) => Some(last),
                                    _ => None,
                                }
                            } else {
                                None
                            }
                        },
                        _ => None,
                    };
                    map.put_tile(pos, Tile::Path(PathTile::default()), true);
                    map.forget(pos);
                    let drawn_last = editor.one_ago;
                    editor.one_ago = Some(pos);
                    match taut {
                        Some(last) => {
                            let ghost drawn = *map;
                            map.put_tile(last, Tile::Empty, true);
                            map.forget(last);
                            proof {
                                assert forall|p: TilePos, end: TilePos| #[trigger]
                                    map.reach(p, end) == (if p == pos || p == last {
                                        None
                                    } else {
                                        old(map).reach(p, end)
                                    }) by {
                                    assert(drawn.reach(p, end) == (if p == pos {
                                        None
                                    } else {
                                        old(map).reach(p, end)
                                    }));
                                }
                            }
                            Edit::Tautened(pos, last)
                        },
                        None => {
                            available.0 = available.0 - 1;
                            editor.two_ago = drawn_last;
                            Edit::Added(pos)
                        },
                    }
                },
            }
        },
    }
}

} // verus!
