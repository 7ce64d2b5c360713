//! The outline of each river tile, derived from which of its four sides
//! touch another river tile.

use crate::grid::{
    get_neighbours, in_bounds, neighbours, some_seq, spec_offset, SquareDirection, TilePos,
    TilemapSize,
};
use crate::route::passable;
use crate::tile::{PathShape, PathTile, Tile, TileKind};
use crate::tilemap::Tilemap;
use vstd::prelude::*;

verus! {

/// The position one step from `pos` towards `direction`, on an unbounded grid.
pub open spec fn beside(pos: TilePos, direction: SquareDirection) -> Option<TilePos> {
    match direction {
        SquareDirection::West => if pos.x > 0 {
            Some(TilePos { x: (pos.x - 1) as u32, y: pos.y })
        } else {
            None
        },
        SquareDirection::East => if pos.x < u32::MAX {
            Some(TilePos { x: (pos.x + 1) as u32, y: pos.y })
        } else {
            None
        },
        SquareDirection::North => if pos.y < u32::MAX {
            Some(TilePos { x: pos.x, y: (pos.y + 1) as u32 })
        } else {
            None
        },
        SquareDirection::South => if pos.y > 0 {
            Some(TilePos { x: pos.x, y: (pos.y - 1) as u32 })
        } else {
            None
        },
    }
}

/// Whether the tile beside `pos` towards `direction` carries a river.
pub open spec fn has_river(net: Map<TilePos, TileKind>, pos: TilePos, direction: SquareDirection) -> bool {
    match beside(pos, direction) {
        Some(q) => passable(net, q),
        None => false,
    }
}

/// How many of the four flags are set.
pub open spec fn sides(west: bool, east: bool, north: bool, south: bool) -> nat {
    (if west { 1nat } else { 0nat }) + (if east { 1nat } else { 0nat }) + (if north { 1nat } else { 0nat })
        + (if south { 1nat } else { 0nat })
}

/// The shape of a river tile, given which sides touch a river: by the
/// number of such sides, and for two of them by whether they face each other.
pub open spec fn shape_of(west: bool, east: bool, north: bool, south: bool) -> PathShape {
    let n = sides(west, east, north, south);
    if n == 0 {
        PathShape::Isolated
    } else if n == 1 {
        PathShape::End
    } else if n == 2 {
        if (west && east) || (north && south) {
            PathShape::Straight
        } else {
            PathShape::Turn
        }
    } else if n == 3 {
        PathShape::Junction
    } else {
        PathShape::Crossing
    }
}

/// The quarter turns that the shape is drawn with: for an end cap, by the
/// side that touches; for a straight, by its axis; for a turn, by its two
/// sides; for a junction, by the side that is missing.
pub open spec fn rot_of(west: bool, east: bool, north: bool, south: bool) -> u32 {
    match shape_of(west, east, north, south) {
        PathShape::End => if west {
            0
        } else if east {
            2
        } else if south {
            1
        } else {
            3
        },
        PathShape::Straight => if north {
            1
        } else {
            0
        },
        PathShape::Turn => if west && north {
            0
        } else if west && south {
            1
        } else if east && south {
            2
        } else {
            3
        },
        PathShape::Junction => if !south {
            0
        } else if !east {
            1
        } else if !north {
            2
        } else {
            3
        },
        _ => 0,
    }
}

/// The shape and the rotation that the tile at `pos` is drawn with on `net`.
pub open spec fn outline_of(net: Map<TilePos, TileKind>, pos: TilePos) -> (PathShape, u32) {
    let west = has_river(net, pos, SquareDirection::West);
    let east = has_river(net, pos, SquareDirection::East);
    let north = has_river(net, pos, SquareDirection::North);
    let south = has_river(net, pos, SquareDirection::South);
    (shape_of(west, east, north, south), rot_of(west, east, north, south))
}

/// The river state that the tile at `pos` is drawn with on `net`: its
/// outline is brought up to date, its count stays.
pub open spec fn outlined(net: Map<TilePos, TileKind>, pos: TilePos, path: PathTile) -> PathTile {
    PathTile { count: path.count, shape: outline_of(net, pos).0, rot: outline_of(net, pos).1 }
}

/// The tile at `pos` after its outline is brought up to date.
pub open spec fn retiled(net: Map<TilePos, TileKind>, pos: TilePos, tile: Tile) -> Tile {
    match tile.path() {
        Some(path) => tile.with_path(outlined(net, pos, path)),
        None => tile,
    }
}

/// The role of each tile of `grid`.
pub open spec fn kinds(grid: Map<TilePos, Tile>) -> Map<TilePos, TileKind> {
    Map::new(|p: TilePos| grid.dom().contains(p), |p: TilePos| grid[p].kind())
}

/// The grid with the outline of every tile brought up to date.
pub open spec fn autotiled(grid: Map<TilePos, Tile>) -> Map<TilePos, Tile> {
    Map::new(|p: TilePos| grid.dom().contains(p), |p: TilePos| retiled(kinds(grid), p, grid[p]))
}

/// Bringing the outlines up to date a second time changes nothing.
pub proof fn lemma_autotile_idempotent(grid: Map<TilePos, Tile>)
    ensures
        autotiled(autotiled(grid)) == autotiled(grid),
{
    let once = autotiled(grid);
    assert(kinds(once) =~= kinds(grid));
    assert(autotiled(once) =~= once);
}

/// The outline of a tile depends only on which of its four sides touch a
/// river: two networks that agree there give the same shape and rotation.
pub proof fn lemma_outline_is_local(
    a: Map<TilePos, TileKind>,
    b: Map<TilePos, TileKind>,
    pos: TilePos,
    path: PathTile,
)
    requires
        has_river(a, pos, SquareDirection::West) == has_river(b, pos, SquareDirection::West),
        has_river(a, pos, SquareDirection::East) == has_river(b, pos, SquareDirection::East),
        has_river(a, pos, SquareDirection::North) == has_river(b, pos, SquareDirection::North),
        has_river(a, pos, SquareDirection::South) == has_river(b, pos, SquareDirection::South),
    ensures
        outlined(a, pos, path) == outlined(b, pos, path),
{
}

/// The river tile beside `pos` towards `direction`, if there is one.
pub open spec fn river_side(net: Map<TilePos, TileKind>, pos: TilePos, direction: SquareDirection) -> Seq<TilePos> {
    if has_river(net, pos, direction) {
        seq![beside(pos, direction)->0]
    } else {
        Seq::empty()
    }
}

/// The river tiles around `pos`: west first, then east, north and south.
pub open spec fn river_sides(net: Map<TilePos, TileKind>, pos: TilePos) -> Seq<TilePos> {
    river_side(net, pos, SquareDirection::West) + river_side(net, pos, SquareDirection::East)
        + river_side(net, pos, SquareDirection::North) + river_side(
        net,
        pos,
        SquareDirection::South,
    )
}

/// Each river side of `pos` carries a river, touches `pos`, and is listed
/// once; there are at most four.
pub proof fn lemma_river_sides_passable(net: Map<TilePos, TileKind>, pos: TilePos, i: int)
    requires
        0 <= i < river_sides(net, pos).len(),
    ensures
        passable(net, river_sides(net, pos)[i]),
        crate::grid::adjacent(pos, river_sides(net, pos)[i]),
        river_sides(net, pos).len() <= 4,
        river_sides(net, pos).no_duplicates(),
{
}

/// The neighbour on one side, kept if it carries a river, is the river
/// side there.
proof fn lemma_filter_side(
    net: Map<TilePos, TileKind>,
    pos: TilePos,
    size: TilemapSize,
    direction: SquareDirection,
)
    requires
        forall|p: TilePos| net.dom().contains(p) <==> in_bounds(p, size),
    ensures
        some_seq(spec_offset(pos, direction, size)).filter(|q: TilePos| passable(net, q))
            == river_side(net, pos, direction),
{
    reveal_with_fuel(Seq::filter, 2);
    let keep = |q: TilePos| passable(net, q);
    let side = some_seq(spec_offset(pos, direction, size));
    if side.len() > 0 {
        let q = side[0];
        assert(beside(pos, direction) == Some(q));
        assert(side.drop_last() =~= Seq::<TilePos>::empty());
        assert(keep(side.last()) == has_river(net, pos, direction));
    } else {
        match beside(pos, direction) {
            Some(q) => {
                assert(!in_bounds(q, size));
            },
            None => {},
        }
    }
    assert(side.filter(keep) =~= river_side(net, pos, direction));
}

/// The neighbours of `pos` that carry a river are its river sides.
pub proof fn lemma_river_sides(net: Map<TilePos, TileKind>, pos: TilePos, size: TilemapSize)
    requires
        forall|p: TilePos| net.dom().contains(p) <==> in_bounds(p, size),
    ensures
        neighbours(pos, size).filter(|q: TilePos| passable(net, q)) == river_sides(net, pos),
{
    let keep = |q: TilePos| passable(net, q);
    let w = some_seq(spec_offset(pos, SquareDirection::West, size));
    let e = some_seq(spec_offset(pos, SquareDirection::East, size));
    let n = some_seq(spec_offset(pos, SquareDirection::North, size));
    let s = some_seq(spec_offset(pos, SquareDirection::South, size));
    lemma_filter_side(net, pos, size, SquareDirection::West);
    lemma_filter_side(net, pos, size, SquareDirection::East);
    lemma_filter_side(net, pos, size, SquareDirection::North);
    lemma_filter_side(net, pos, size, SquareDirection::South);
    Seq::filter_distributes_over_add(w, e, keep);
    Seq::filter_distributes_over_add(w + e, n, keep);
    Seq::filter_distributes_over_add(w + e + n, s, keep);
}

impl Tilemap {
    /// Lists the neighbours of `pos` that carry a river, in the order of
    /// the neighbours.
    pub fn path_neighbours(&self, pos: TilePos) -> (r: Vec<TilePos>)
        requires
            self.inv(),
        ensures
            r@ == river_sides(self.network(), pos),
    {
        let size = self.tiles.extent();
        let around = get_neighbours(&pos, &size);
        let ghost net = self.network();
        let ghost keep = |q: TilePos| passable(net, q);
        let mut r: Vec<TilePos> = Vec::new();
        let mut i: usize = 0;
        proof {
            crate::grid::lemma_neighbours(pos, size);
            assert(around@.take(0) =~= Seq::<TilePos>::empty());
            reveal_with_fuel(Seq::filter, 1);
        }
        while i < around.len()
            invariant
                self.inv(),
                size == self.size(),
                net == self.network(),
                keep == (|q: TilePos| passable(net, q)),
                around@ == neighbours(pos, size),
                forall|q: TilePos| around@.contains(q) ==> in_bounds(q, size),
                i <= around@.len(),
                r@ == around@.take(i as int).filter(keep),
            decreases around@.len() - i,
        {
            let q = around[i];
            assert(around@.contains(q));
            proof {
                reveal_with_fuel(Seq::filter, 1);
                assert(around@.take(i + 1).drop_last() =~= around@.take(i as int));
                assert(around@.take(i + 1).last() == q);
                assert(keep(q) == passable(net, q));
            }
            if self.tiles.get(q).is_path() {
                r.push(q);
            }
            i = i + 1;
        }
        proof {
            assert(around@.take(i as int) =~= around@);
            lemma_river_sides(net, pos, size);
        }
        r
    }

    /// Works out the shape and rotation of the river tile at `pos` from the
    /// river tiles around it.
    pub fn outline(&self, pos: TilePos) -> (r: (PathShape, u32))
        requires
            self.inv(),
        ensures
            r == outline_of(self.network(), pos),
    {
        let around = self.path_neighbours(pos);
        let ghost net = self.network();
        let ghost w = river_side(net, pos, SquareDirection::West);
        let ghost e = river_side(net, pos, SquareDirection::East);
        let ghost n = river_side(net, pos, SquareDirection::North);
        let ghost s = river_side(net, pos, SquareDirection::South);
        proof {
            assert(around@ == w + e + n + s);
        }
        let shape = if around.len() == 1 {
            PathShape::End
        } else if around.len() == 2 {
            if around[0].x == around[1].x || around[0].y == around[1].y {
                PathShape::Straight
            } else {
                PathShape::Turn
            }
        } else if around.len() == 3 {
            PathShape::Junction
        } else if around.len() == 4 {
            PathShape::Crossing
        } else {
            PathShape::Isolated
        };
        let rot: u32 = match shape {
            PathShape::End => {
                if around[0].x < pos.x {
                    0
                } else if around[0].x > pos.x {
                    2
                } else if around[0].y < pos.y {
                    1
                } else {
                    3
                }
            },
            PathShape::Straight => {
                if around[0].x == around[1].x {
                    1
                } else {
                    0
                }
            },
            PathShape::Turn => {
                if around[0].x < around[1].x {
                    if around[0].y > around[1].y {
                        1
                    } else {
                        0
                    }
                } else if around[0].y > around[1].y {
                    2
                } else {
                    3
                }
            },
            PathShape::Junction => {
                if around[0].y == around[1].y {
                    if around[0].y < around[2].y {
                        0
                    } else {
                        2
                    }
                } else if around[0].x < around[2].x {
                    1
                } else {
                    3
                }
            },
            _ => 0,
        };
        (shape, rot)
    }
}

/// Brings the outline of every river tile up to date.
pub fn autotile(map: &mut Tilemap)
    requires
        old(map).wf(),
    ensures
        final(map).wf(),
        final(map).size() == old(map).size(),
        final(map).max_spirits() == old(map).max_spirits(),
        final(map).starts() == old(map).starts(),
        final(map).ends() == old(map).ends(),
        final(map).changed() == old(map).changed(),
        final(map).network() == old(map).network(),
        final(map).same_frame(old(map)),
        final(map).grid() == autotiled(old(map).grid()),
        final(map).keeps_completed(old(map)),
{
    let size = map.tiles.extent();
    let ghost net = map.network();
    let ghost first = map.tiles;
    let mut y: u32 = 0;
    while y < size.y
        invariant
            map.inv(),
            map.tiles.size() == size,
            first.size() == size,
            first == old(map).tiles,
            net == old(map).network(),
            map.network() == net,
            map.max_spirits == old(map).max_spirits,
            map.starts@ == old(map).starts@,
            map.ends@ == old(map).ends@,
            map.flows@ == old(map).flows@,
            map.changed == old(map).changed,
            y <= size.y,
            forall|p: TilePos|
                in_bounds(p, size) ==> #[trigger] map.tiles.at(p) == (if p.y < y {
                    retiled(net, p, first.at(p))
                } else {
                    first.at(p)
                }),
        decreases size.y - y,
    {
        let mut x: u32 = 0;
        while x < size.x
            invariant
                map.inv(),
                map.tiles.size() == size,
                first.size() == size,
                first == old(map).tiles,
                net == old(map).network(),
                map.network() == net,
                map.max_spirits == old(map).max_spirits,
                map.starts@ == old(map).starts@,
                map.ends@ == old(map).ends@,
                map.flows@ == old(map).flows@,
                map.changed == old(map).changed,
                y < size.y,
                x <= size.x,
                forall|p: TilePos|
                    in_bounds(p, size) ==> #[trigger] map.tiles.at(p) == (if p.y < y || (p.y == y
                        && p.x < x) {
                        retiled(net, p, first.at(p))
                    } else {
                        first.at(p)
                    }),
            decreases size.x - x,
        {
            let pos = TilePos { x, y };
            let tile = map.tiles.get(pos);
            match tile.path() {
                Some(path) => {
                    let (shape, rot) = map.outline(pos);
                    map.tiles.set(pos, tile.with_path(PathTile { count: path.count, shape, rot }));
                    proof {
                        assert(map.network() =~= net);
                    }
                },
                None => {},
            }
            x = x + 1;
        }
        y = y + 1;
    }
    proof {
        assert(map.network() =~= old(map).network());
        assert(kinds(old(map).grid()) =~= net);
        assert(map.grid() =~= autotiled(old(map).grid()));
        map.lemma_wf_kept(old(map));
    }
}

/// How a sprite is flipped: along `x`, along `y`, and across its diagonal.
#[derive(Clone, Copy, Debug, PartialEq, Eq, Structural)]
pub struct TileFlip {
    pub x: bool,
    pub y: bool,
    pub d: bool,
}

/// The flips that turn a sprite by `rot` quarter turns; any number past
/// three leaves it as it is.
pub open spec fn spec_flip_from_rotation(rot: u32) -> TileFlip {
    if rot == 1 {
        TileFlip { x: false, y: true, d: true }
    } else if rot == 2 {
        TileFlip { x: true, y: true, d: false }
    } else if rot == 3 {
        TileFlip { x: true, y: false, d: true }
    } else {
        TileFlip { x: false, y: false, d: false }
    }
}

/// Works out the flips that turn a sprite by `rot` quarter turns.
pub fn flip_from_rotation(rot: u32) -> (r: TileFlip)
    ensures
        r == spec_flip_from_rotation(rot),
{
    match rot {
        1 => TileFlip { x: false, y: true, d: true },
        2 => TileFlip { x: true, y: true, d: false },
        3 => TileFlip { x: true, y: false, d: true },
        _ => TileFlip { x: false, y: false, d: false },
    }
}

} // verus!
