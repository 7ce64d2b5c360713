//! Coordinates on the tile grid, four-way adjacency, and a dense layer of
//! per-tile values laid out row by row.

use vstd::prelude::*;

verus! {

/// A tile position: column `x`, row `y`.
#[derive(Clone, Copy, Debug, PartialEq, Eq, Structural)]
pub struct TilePos {
    pub x: u32,
    pub y: u32,
}

/// The extent of a grid: `x` columns by `y` rows.
#[derive(Clone, Copy, Debug, PartialEq, Eq, Structural)]
pub struct TilemapSize {
    pub x: u32,
    pub y: u32,
}

/// The four sides of a tile. North is towards larger `y`.
#[derive(Clone, Copy, Debug, PartialEq, Eq, Structural)]
pub enum SquareDirection {
    West,
    East,
    North,
    South,
}

/// Whether `pos` lies on a grid of extent `size`.
pub open spec fn in_bounds(pos: TilePos, size: TilemapSize) -> bool {
    pos.x < size.x && pos.y < size.y
}

/// Whether `a` and `b` share an edge.
pub open spec fn adjacent(a: TilePos, b: TilePos) -> bool {
    ||| a.y == b.y && (a.x + 1 == b.x || b.x + 1 == a.x)
    ||| a.x == b.x && (a.y + 1 == b.y || b.y + 1 == a.y)
}

/// The tile one step from `pos` towards `direction`, if the grid has one.
pub open spec fn spec_offset(pos: TilePos, direction: SquareDirection, size: TilemapSize) -> Option<TilePos> {
    match direction {
        SquareDirection::West => if 0 < pos.x <= size.x && pos.y < size.y {
            Some(TilePos { x: (pos.x - 1) as u32, y: pos.y })
        } else {
            None
        },
        SquareDirection::East => if pos.x + 1 < size.x && pos.y < size.y {
            Some(TilePos { x: (pos.x + 1) as u32, y: pos.y })
        } else {
            None
        },
        SquareDirection::North => if pos.x < size.x && pos.y + 1 < size.y {
            Some(TilePos { x: pos.x, y: (pos.y + 1) as u32 })
        } else {
            None
        },
        SquareDirection::South => if pos.x < size.x && 0 < pos.y <= size.y {
            Some(TilePos { x: pos.x, y: (pos.y - 1) as u32 })
        } else {
            None
        },
    }
}

impl TilePos {
    /// The neighbour of `self` on the given side, or `None` where that side
    /// is off the grid.
    pub fn square_offset(&self, direction: SquareDirection, size: &TilemapSize) -> (r: Option<TilePos>)
        ensures
            r == spec_offset(*self, direction, *size),
    {
        match direction {
            SquareDirection::West => {
                if 0 < self.x && self.x <= size.x && self.y < size.y {
                    Some(TilePos { x: self.x - 1, y: self.y })
                } else {
                    None
                }
            },
            SquareDirection::East => {
                if self.x < size.x && size.x - self.x > 1 && self.y < size.y {
                    Some(TilePos { x: self.x + 1, y: self.y })
                } else {
                    None
                }
            },
            SquareDirection::North => {
                if self.y < size.y && size.y - self.y > 1 && self.x < size.x {
                    Some(TilePos { x: self.x, y: self.y + 1 })
                } else {
                    None
                }
            },
            SquareDirection::South => {
                if 0 < self.y && self.y <= size.y && self.x < size.x {
                    Some(TilePos { x: self.x, y: self.y - 1 })
                } else {
                    None
                }
            },
        }
    }
}

/// The in-grid neighbours of `pos`, west first, then east, north and south.
pub open spec fn neighbours(pos: TilePos, size: TilemapSize) -> Seq<TilePos> {
    some_seq(spec_offset(pos, SquareDirection::West, size))
        + some_seq(spec_offset(pos, SquareDirection::East, size))
        + some_seq(spec_offset(pos, SquareDirection::North, size))
        + some_seq(spec_offset(pos, SquareDirection::South, size))
}

/// The sequence holding what `o` holds: one item or none.
pub open spec fn some_seq(o: Option<TilePos>) -> Seq<TilePos> {
    match o {
        Some(p) => seq![p],
        None => Seq::empty(),
    }
}

/// The neighbours of a tile are exactly the tiles of the grid that share an
/// edge with it, each listed once.
pub proof fn lemma_neighbours(pos: TilePos, size: TilemapSize)
    ensures
        neighbours(pos, size).len() <= 4,
        neighbours(pos, size).no_duplicates(),
        forall|q: TilePos|
            neighbours(pos, size).contains(q) <==> in_bounds(q, size) && adjacent(pos, q),
{
    let w = some_seq(spec_offset(pos, SquareDirection::West, size));
    let e = some_seq(spec_offset(pos, SquareDirection::East, size));
    let n = some_seq(spec_offset(pos, SquareDirection::North, size));
    let s = some_seq(spec_offset(pos, SquareDirection::South, size));
    let all = neighbours(pos, size);
    assert(all == w + e + n + s);
    assert forall|q: TilePos| all.contains(q) implies in_bounds(q, size) && adjacent(pos, q) by {
        let i = choose|i: int| 0 <= i < all.len() && all[i] == q;
        assert(all[i] == q);
    }
    assert forall|q: TilePos| in_bounds(q, size) && adjacent(pos, q) implies all.contains(q) by {
        if q.y == pos.y && q.x + 1 == pos.x {
            assert(w[0] == q);
            assert(all[0] == q);
        } else if q.y == pos.y && pos.x + 1 == q.x {
            assert(e[0] == q);
            assert(all[w.len() as int] == q);
        } else if q.x == pos.x && pos.y + 1 == q.y {
            assert(n[0] == q);
            assert(all[(w.len() + e.len()) as int] == q);
        } else {
            assert(s[0] == q);
            assert(all[(w.len() + e.len() + n.len()) as int] == q);
        }
    }
}

/// Lists the neighbours of `pos` that lie on a grid of extent `size`.
pub fn get_neighbours(pos: &TilePos, size: &TilemapSize) -> (r: Vec<TilePos>)
    ensures
        r@ == neighbours(*pos, *size),
{
    let mut r: Vec<TilePos> = Vec::new();
    if let Some(p) = pos.square_offset(SquareDirection::West, size) {
        r.push(p);
    }
    if let Some(p) = pos.square_offset(SquareDirection::East, size) {
        r.push(p);
    }
    if let Some(p) = pos.square_offset(SquareDirection::North, size) {
        r.push(p);
    }
    if let Some(p) = pos.square_offset(SquareDirection::South, size) {
        r.push(p);
    }
    assert(r@ =~= neighbours(*pos, *size));
    r
}

/// The number of steps between two tiles when only edge moves are allowed.
pub open spec fn spec_tile_distance(a: TilePos, b: TilePos) -> int {
    (if a.x <= b.x { b.x - a.x } else { a.x - b.x })
        + (if a.y <= b.y { b.y - a.y } else { a.y - b.y })
}

/// Computes the Manhattan distance between `a` and `b`.
pub fn tile_distance(a: &TilePos, b: &TilePos) -> (d: u64)
    ensures
        d == spec_tile_distance(*a, *b),
{
    let dx: u32 = if a.x <= b.x { b.x - a.x } else { a.x - b.x };
    let dy: u32 = if a.y <= b.y { b.y - a.y } else { a.y - b.y };
    dx as u64 + dy as u64
}

/// Two tiles share an edge exactly when they are one step apart.
pub proof fn lemma_adjacent_is_distance_one(a: TilePos, b: TilePos)
    ensures
        adjacent(a, b) <==> spec_tile_distance(a, b) == 1,
        adjacent(a, b) == adjacent(b, a),
{
}

/// The place of `pos` in a row-by-row listing of a grid of extent `size`.
pub open spec fn spec_index(pos: TilePos, size: TilemapSize) -> int {
    pos.y * size.x + pos.x
}

/// A tile of the grid has a place below the number of tiles, and no two
/// tiles share a place.
pub proof fn lemma_index(pos: TilePos, size: TilemapSize)
    requires
        in_bounds(pos, size),
    ensures
        0 <= pos.y * size.x <= spec_index(pos, size) < size.x * size.y,
        forall|q: TilePos|
            in_bounds(q, size) && spec_index(q, size) == spec_index(pos, size) ==> q == pos,
{
    let w = size.x as int;
    let h = size.y as int;
    let x = pos.x as int;
    let y = pos.y as int;
    assert(y * w + x < h * w) by (nonlinear_arith)
        requires
            0 <= x < w,
            0 <= y < h,
    ;
    assert(0 <= y * w) by (nonlinear_arith)
        requires
            0 <= y,
            0 <= w,
    ;
    assert forall|q: TilePos|
        in_bounds(q, size) && spec_index(q, size) == spec_index(pos, size) implies q == pos by {
        let qx = q.x as int;
        let qy = q.y as int;
        assert(qy == y && qx == x) by (nonlinear_arith)
            requires
                0 <= x < w,
                0 <= qx < w,
                0 <= y,
                0 <= qy,
                qy * w + qx == y * w + x,
        ;
    }
}

/// One value per tile of a grid, stored row by row.
pub struct Layer<T> {
    size: TilemapSize,
    cells: Vec<T>,
}

impl<T: Copy> Layer<T> {
    /// The extent of the grid that the layer covers.
    pub closed spec fn size(&self) -> TilemapSize {
        self.size
    }

    /// The stored values, row by row.
    pub closed spec fn cells(&self) -> Seq<T> {
        self.cells@
    }

    /// A layer holds one value for each tile of its grid.
    pub open spec fn wf(&self) -> bool {
        self.cells().len() == self.size().x * self.size().y <= usize::MAX
    }

    /// The value stored for `pos`.
    pub open spec fn at(&self, pos: TilePos) -> T {
        self.cells()[spec_index(pos, self.size())]
    }

    /// A layer of extent `size` that holds `fill` everywhere.
    pub fn new(size: TilemapSize, fill: T) -> (r: Self)
        requires
            size.x * size.y <= usize::MAX,
        ensures
            r.wf(),
            r.size() == size,
            forall|i: int| 0 <= i < r.cells().len() ==> r.cells()[i] == fill,
    {
        let n: usize = (size.x as usize) * (size.y as usize);
        let mut cells: Vec<T> = Vec::new();
        let mut i: usize = 0;
        while i < n
            invariant
                i <= n,
                cells@.len() == i,
                forall|j: int| 0 <= j < i ==> cells@[j] == fill,
            decreases n - i,
        {
            cells.push(fill);
            i = i + 1;
        }
        Layer { size, cells }
    }

    /// The extent of the grid that the layer covers.
    pub fn extent(&self) -> (r: TilemapSize)
        ensures
            r == self.size(),
    {
        self.size
    }

    /// Reads the value stored for `pos`.
    pub fn get(&self, pos: TilePos) -> (r: T)
        requires
            self.wf(),
            in_bounds(pos, self.size()),
        ensures
            r == self.at(pos),
    {
        proof {
            lemma_index(pos, self.size);
        }
        let w: usize = self.size.x as usize;
        let row: usize = pos.y as usize;
        let n: usize = self.cells.len();
        assert(row * w == pos.y * self.size.x);
        assert(row * w + pos.x < n);
        self.cells[row * w + (pos.x as usize)]
    }

    /// Stores `value` for `pos` and leaves every other tile as it was.
    pub fn set(&mut self, pos: TilePos, value: T)
        requires
            old(self).wf(),
            in_bounds(pos, old(self).size()),
        ensures
            final(self).wf(),
            final(self).size() == old(self).size(),
            final(self).cells() == old(self).cells().update(spec_index(pos, old(self).size()), value),
            final(self).at(pos) == value,
            forall|q: TilePos|
                in_bounds(q, old(self).size()) && q != pos ==> final(self).at(q) == old(self).at(q),
    {
        proof {
            lemma_index(pos, self.size);
        }
        let w: usize = self.size.x as usize;
        let row: usize = pos.y as usize;
        let n: usize = self.cells.len();
        assert(row * w == pos.y * self.size.x);
        assert(row * w + pos.x < n);
        let i: usize = row * w + (pos.x as usize);
        self.cells[i] = value;
        proof {
            assert forall|q: TilePos|
                in_bounds(q, old(self).size()) && q != pos implies final(self).at(q) == old(self).at(
                q,
            ) by {
                lemma_index(q, self.size);
            }
        }
    }
}

} // verus!
