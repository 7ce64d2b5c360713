//! The tile map: every tile of the grid with its role and state, the start
//! and end tiles in the order they were placed, and one flow field per end.

use crate::grid::{in_bounds, Layer, TilePos, TilemapSize};
use crate::route::{hop_distance, solved_distance, stored};
use crate::tile::{EndTile, PathTile, StartTile, Tile, TileKind};
use vstd::prelude::*;

verus! {

/// How many spirits may be bound for one tile unless a map says otherwise.
pub const MAX_SPIRITS_IN_TILE: u32 = 3;

/// Whether `sites` lists, each once, exactly the tiles of `tiles` whose
/// role is `kind`.
pub open spec fn lists_kind(tiles: Layer<Tile>, sites: Seq<TilePos>, kind: TileKind) -> bool {
    &&& sites.no_duplicates()
    &&& forall|i: int|
        0 <= i < sites.len() ==> in_bounds(#[trigger] sites[i], tiles.size()) && tiles.at(
            sites[i],
        ).kind() == kind
    &&& forall|p: TilePos|
        in_bounds(p, tiles.size()) && (#[trigger] tiles.at(p)).kind() == kind ==> sites.contains(p)
}

/// The role of every tile of `tiles`, by position.
pub open spec fn network_of(tiles: Layer<Tile>) -> Map<TilePos, TileKind> {
    Map::new(|p: TilePos| in_bounds(p, tiles.size()), |p: TilePos| tiles.at(p).kind())
}

/// The tile as a fresh round finds it: drawn river is gone, and start and
/// end tiles are as they were when they were placed.
pub open spec fn cleared(tile: Tile) -> Tile {
    match tile {
        Tile::Empty => Tile::Empty,
        Tile::Path(_) => Tile::Empty,
        Tile::Start(_, _) => Tile::Start(
            StartTile {
                completed_once: false,
                spawn_millis: crate::tile::INITIAL_SPAWN_MILLIS,
                lose_counter: 0,
            },
            PathTile { count: 0, shape: crate::tile::PathShape::End, rot: 0 },
        ),
        Tile::End(e, _) => Tile::End(
            e,
            PathTile { count: 0, shape: crate::tile::PathShape::End, rot: 0 },
        ),
    }
}

/// The tile map of one round.
pub struct Tilemap {
    pub(crate) tiles: Layer<Tile>,
    pub(crate) starts: Vec<TilePos>,
    pub(crate) ends: Vec<TilePos>,
    pub(crate) flows: Vec<Layer<Option<usize>>>,
    pub(crate) max_spirits: u32,
    pub(crate) changed: bool,
}

impl Tilemap {
    /// The extent of the grid.
    pub open(crate) spec fn size(&self) -> TilemapSize {
        self.tiles.size()
    }

    /// The tile at `pos`.
    pub open(crate) spec fn tile(&self, pos: TilePos) -> Tile {
        self.tiles.at(pos)
    }

    /// Every tile of the grid, by position.
    pub open spec fn grid(&self) -> Map<TilePos, Tile> {
        Map::new(|p: TilePos| in_bounds(p, self.size()), |p: TilePos| self.tile(p))
    }

    /// The role of every tile of the grid, by position.
    pub open(crate) spec fn network(&self) -> Map<TilePos, TileKind> {
        network_of(self.tiles)
    }

    /// The start tiles, oldest first.
    pub open(crate) spec fn starts(&self) -> Seq<TilePos> {
        self.starts@
    }

    /// The end tiles, oldest first.
    pub open(crate) spec fn ends(&self) -> Seq<TilePos> {
        self.ends@
    }

    /// The most spirits that may be bound for one tile.
    pub open(crate) spec fn max_spirits(&self) -> u32 {
        self.max_spirits
    }

    /// Whether the river changed since the flow fields and outlines were
    /// last brought up to date.
    pub open(crate) spec fn changed(&self) -> bool {
        self.changed
    }

    /// The number of moves recorded for the way from the end tile `end` to
    /// `pos`, start tiles included, or `None` where none is recorded.
    pub open(crate) spec fn reach(&self, pos: TilePos, end: TilePos) -> Option<usize> {
        if self.ends@.contains(end) && in_bounds(pos, self.size()) {
            self.flows@[self.ends@.index_of(end)].at(pos)
        } else {
            None
        }
    }

    /// The distance from `pos` to the end tile `end` that a spirit reads:
    /// what is recorded there, but nothing on a start tile, which lies
    /// infinitely far from every end for any spirit that would pass
    /// through it.
    pub open(crate) spec fn distance(&self, pos: TilePos, end: TilePos) -> Option<usize> {
        if in_bounds(pos, self.size()) && self.tile(pos).is_start() {
            None
        } else {
            self.reach(pos, end)
        }
    }

    /// Whether the recorded numbers of moves are those of the river as it
    /// is now: on every tile, towards every end, the number of moves of a
    /// shortest route from the end, and nothing where no route arrives.
    pub open spec fn flows_solved(&self) -> bool {
        forall|end: TilePos, pos: TilePos|
            self.ends().contains(end) && in_bounds(pos, self.size()) ==> stored(
                #[trigger] self.reach(pos, end),
            ) == hop_distance(self.network(), end, pos)
    }

    /// Whether `self` and `other` have the same extent, occupancy limit,
    /// starts and ends.
    pub open(crate) spec fn same_bounds(&self, other: &Tilemap) -> bool {
        &&& self.size() == other.size()
        &&& self.max_spirits == other.max_spirits
        &&& self.starts@ == other.starts@
        &&& self.ends@ == other.ends@
    }

    /// Whether `self` and `other` differ at most in their tiles and in
    /// whether the river is marked as changed: extent, occupancy limit,
    /// starts, ends and everything recorded are the same.
    pub open(crate) spec fn same_frame(&self, other: &Tilemap) -> bool {
        &&& self.same_bounds(other)
        &&& self.flows@ == other.flows@
    }

    /// Whether `self` records what `before` records, but nothing at all on
    /// the tiles `a` and `b`.
    pub open(crate) spec fn forgets(&self, before: &Tilemap, a: TilePos, b: TilePos) -> bool {
        forall|p: TilePos, end: TilePos| #[trigger]
            self.reach(p, end) == (if p == a || p == b {
                None
            } else {
                before.reach(p, end)
            })
    }

    /// Whether `self` and `other` hold the same tile everywhere but at the
    /// positions `a` and `b`.
    pub open(crate) spec fn same_tiles_but(&self, other: &Tilemap, a: TilePos, b: TilePos) -> bool {
        forall|q: TilePos|
            in_bounds(q, self.size()) && q != a && q != b ==> #[trigger] self.tile(q) == other.tile(
                q,
            )
    }

    /// Whether every start tile of `before` that had been completed once
    /// is still a start tile of `self` that has been completed once.
    pub open(crate) spec fn keeps_completed(&self, before: &Tilemap) -> bool {
        forall|p: TilePos|
            in_bounds(p, before.size()) ==> (match #[trigger] before.tile(p) {
                Tile::Start(s, _) => s.completed_once ==> self.tile(p).is_start() && self.tile(
                    p,
                ).start()->0.completed_once,
                _ => true,
            })
    }

    /// What holds of every tile map: the recorded distances are those of
    /// the river as it is, unless the river is marked as changed, and the
    /// map is sound.
    pub open(crate) spec fn wf(&self) -> bool {
        self.inv() && (!self.changed ==> self.flows_solved())
    }

    /// A sound map stays sound, and keeps its recorded distances right,
    /// when neither its roles nor its ends nor its distances change.
    pub(crate) proof fn lemma_wf_kept(&self, before: &Tilemap)
        requires
            before.wf(),
            self.inv(),
            self.same_frame(before),
            self.network() == before.network(),
            before.changed ==> self.changed,
        ensures
            self.wf(),
    {
        if !self.changed {
            assert forall|end: TilePos, pos: TilePos|
                self.ends().contains(end) && in_bounds(pos, self.size()) implies stored(
                #[trigger] self.reach(pos, end),
            ) == hop_distance(self.network(), end, pos) by {
                assert(self.reach(pos, end) == before.reach(pos, end));
            }
        }
    }

    /// Whether the map is sound: the lists of starts and ends match the
    /// tiles, each end has its flow field, and no tile is bound for by more
    /// spirits than the map allows.
    pub open(crate) spec fn inv(&self) -> bool {
        &&& self.tiles.wf()
        &&& lists_kind(self.tiles, self.starts@, TileKind::Start)
        &&& lists_kind(self.tiles, self.ends@, TileKind::End)
        &&& self.flows@.len() == self.ends@.len()
        &&& forall|i: int|
            0 <= i < self.flows@.len() ==> (#[trigger] self.flows@[i]).wf() && self.flows@[i].size()
                == self.tiles.size()
        &&& forall|p: TilePos|
            in_bounds(p, self.tiles.size()) ==> (#[trigger] self.tiles.at(p)).count()
                <= self.max_spirits
    }

    /// A well-formed map is sound.
    pub proof fn lemma_wf_is_sound(&self)
        requires
            self.wf(),
        ensures
            self.inv(),
    {
    }

    /// Unless the river is marked as changed, the recorded distances are
    /// those of the river as it is.
    pub proof fn lemma_distances_up_to_date(&self)
        requires
            self.wf(),
            !self.changed(),
        ensures
            self.flows_solved(),
    {
    }

    /// Where the recorded numbers of moves are those of the river, the
    /// distance that a spirit reads is the number of moves of a shortest
    /// route from the end, and nothing on a start tile.
    pub proof fn lemma_distance_solved(&self, pos: TilePos, end: TilePos)
        requires
            self.flows_solved(),
            self.ends().contains(end),
            in_bounds(pos, self.size()),
        ensures
            stored(self.distance(pos, end)) == solved_distance(self.network(), end, pos),
    {
        assert(stored(self.reach(pos, end)) == hop_distance(self.network(), end, pos));
    }

    /// No tile of a map is bound for by more spirits than the map allows.
    pub proof fn lemma_occupancy_bound(&self, pos: TilePos)
        requires
            self.wf(),
            in_bounds(pos, self.size()),
        ensures
            self.tile(pos).count() <= self.max_spirits(),
    {
    }

    /// An empty map of extent `size` on which at most `max_spirits` spirits
    /// may be bound for one tile.
    pub fn new(size: TilemapSize, max_spirits: u32) -> (r: Self)
        requires
            size.x * size.y <= usize::MAX,
        ensures
            r.wf(),
            r.size() == size,
            r.max_spirits() == max_spirits,
            r.starts() == Seq::<TilePos>::empty(),
            r.ends() == Seq::<TilePos>::empty(),
            !r.changed(),
            forall|p: TilePos| in_bounds(p, size) ==> r.tile(p) == Tile::Empty,
    {
        let tiles = Layer::new(size, Tile::Empty);
        proof {
            assert forall|p: TilePos| in_bounds(p, size) implies #[trigger] tiles.at(p)
                == Tile::Empty by {
                crate::grid::lemma_index(p, size);
            }
        }
        Tilemap {
            tiles,
            starts: Vec::new(),
            ends: Vec::new(),
            flows: Vec::new(),
            max_spirits,
            changed: false,
        }
    }

    /// The extent of the grid.
    pub fn extent(&self) -> (r: TilemapSize)
        ensures
            r == self.size(),
    {
        self.tiles.extent()
    }

    /// The most spirits that may be bound for one tile.
    pub fn capacity(&self) -> (r: u32)
        ensures
            r == self.max_spirits(),
    {
        self.max_spirits
    }

    /// Whether the river changed since it was last brought up to date.
    pub fn has_changed(&self) -> (r: bool)
        ensures
            r == self.changed(),
    {
        self.changed
    }

    /// Whether `pos` lies on the grid.
    pub fn contains(&self, pos: TilePos) -> (r: bool)
        ensures
            r == in_bounds(pos, self.size()),
    {
        let size = self.tiles.extent();
        pos.x < size.x && pos.y < size.y
    }

    /// The tile at `pos`, or `None` where `pos` is off the grid.
    pub fn get_tile(&self, pos: TilePos) -> (r: Option<Tile>)
        requires
            self.wf(),
        ensures
            r == (if in_bounds(pos, self.size()) {
                Some(self.tile(pos))
            } else {
                None
            }),
    {
        if self.contains(pos) {
            Some(self.tiles.get(pos))
        } else {
            None
        }
    }

    /// The distance from `pos` to the end tile `end` that a spirit reads:
    /// `None` where none is recorded, on a start tile, where `end` is no
    /// end tile and where `pos` is off the grid.
    pub fn distance_to(&self, pos: TilePos, end: TilePos) -> (r: Option<usize>)
        requires
            self.wf(),
        ensures
            r == self.distance(pos, end),
    {
        if self.contains(pos) && self.tiles.get(pos).is_start() {
            None
        } else {
            self.reach_to(pos, end)
        }
    }

    /// The number of moves recorded for the way from the end tile `end` to
    /// `pos`, start tiles included: `None` where none is recorded, where
    /// `end` is no end tile and where `pos` is off the grid.
    pub fn reach_to(&self, pos: TilePos, end: TilePos) -> (r: Option<usize>)
        requires
            self.inv(),
        ensures
            r == self.reach(pos, end),
    {
        if !self.contains(pos) {
            return None;
        }
        let mut i: usize = 0;
        while i < self.ends.len()
            invariant
                self.inv(),
                in_bounds(pos, self.size()),
                i <= self.ends@.len(),
                forall|k: int| 0 <= k < i ==> self.ends@[k] != end,
            decreases self.ends@.len() - i,
        {
            if self.ends[i].x == end.x && self.ends[i].y == end.y {
                proof {
                    assert(self.ends@[i as int] == end);
                    assert(self.ends@.contains(end));
                    let k = self.ends@.index_of(end);
                    assert(self.ends@[k] == self.ends@[i as int]);
                }
                return self.flows[i].get(pos);
            }
            i = i + 1;
        }
        proof {
            if self.ends@.contains(end) {
                let k = choose|k: int| 0 <= k < self.ends@.len() && self.ends@[k] == end;
                assert(self.ends@[k] != end);
            }
        }
        None
    }

    /// Forgets everything recorded on the tile `pos`.
    pub(crate) fn forget(&mut self, pos: TilePos)
        requires
            old(self).inv(),
            in_bounds(pos, old(self).size()),
            old(self).changed,
        ensures
            final(self).inv(),
            final(self).wf(),
            final(self).same_bounds(old(self)),
            final(self).tiles == old(self).tiles,
            forall|q: TilePos| #[trigger] final(self).tile(q) == old(self).tile(q),
            final(self).changed,
            final(self).forgets(old(self), pos, pos),
    {
        let mut i: usize = 0;
        while i < self.flows.len()
            invariant
                self.inv(),
                self.same_bounds(old(self)),
                self.tiles == old(self).tiles,
                self.changed,
                in_bounds(pos, self.tiles.size()),
                i <= self.flows@.len(),
                self.flows@.len() == old(self).flows@.len(),
                forall|k: int, p: TilePos|
                    0 <= k < self.flows@.len() && in_bounds(p, self.tiles.size()) ==> (
                    #[trigger] self.flows@[k].at(p)) == (if k < i && p == pos {
                        None
                    } else {
                        old(self).flows@[k].at(p)
                    }),
            decreases self.flows@.len() - i,
        {
            self.flows[i].set(pos, None);
            i = i + 1;
        }
    }

    /// Replaces the tile at `pos` by one that is a start or an end exactly
    /// if the old one was, and marks the river as changed if `touched`.
    pub(crate) fn put_tile(&mut self, pos: TilePos, tile: Tile, touched: bool)
        requires
            old(self).inv(),
            in_bounds(pos, old(self).size()),
            tile.is_start() == old(self).tile(pos).is_start(),
            tile.is_end() == old(self).tile(pos).is_end(),
            tile.count() <= old(self).max_spirits(),
            touched || tile.kind() == old(self).tile(pos).kind(),
        ensures
            final(self).inv(),
            old(self).wf() ==> final(self).wf(),
            final(self).same_frame(old(self)),
            final(self).changed() == (old(self).changed() || touched),
            final(self).tile(pos) == tile,
            final(self).same_tiles_but(old(self), pos, pos),
    {
        self.tiles.set(pos, tile);
        if touched {
            self.changed = true;
        }
        proof {
            if !touched && old(self).wf() {
                assert(self.network() =~= old(self).network());
                self.lemma_wf_kept(old(self));
            }
        }
    }

    /// Whether a start or an end tile can be placed at `pos`: the position
    /// is on the grid and holds neither a start nor an end yet.
    pub open spec fn placeable(&self, pos: TilePos) -> bool {
        in_bounds(pos, self.size()) && !self.tile(pos).is_start() && !self.tile(pos).is_end()
    }

    /// Whether `self` holds the same tile as `other` everywhere.
    pub open(crate) spec fn same_tiles(&self, other: &Tilemap) -> bool {
        forall|q: TilePos|
            in_bounds(q, self.size()) ==> #[trigger] self.tile(q) == other.tile(q)
    }

    /// Places a fresh start tile at `pos`, over whatever river was there,
    /// and tells whether it did. Nothing is recorded on the fresh tile.
    /// Nothing changes where none was placed.
    pub fn place_start(&mut self, pos: TilePos) -> (placed: bool)
        requires
            old(self).wf(),
        ensures
            final(self).wf(),
            placed == old(self).placeable(pos),
            final(self).size() == old(self).size(),
            final(self).max_spirits() == old(self).max_spirits(),
            final(self).ends() == old(self).ends(),
            placed ==> final(self).forgets(old(self), pos, pos),
            !placed ==> final(self).same_frame(old(self)),
            final(self).same_tiles_but(old(self), pos, pos),
            placed ==> final(self).tile(pos) == Tile::Start(
                StartTile {
                    completed_once: false,
                    spawn_millis: crate::tile::INITIAL_SPAWN_MILLIS,
                    lose_counter: 0,
                },
                PathTile { count: 0, shape: crate::tile::PathShape::End, rot: 0 },
            ),
            placed ==> final(self).starts() == old(self).starts().push(pos),
            placed ==> final(self).changed(),
            final(self).keeps_completed(old(self)),
            !placed ==> final(self).same_tiles(old(self)) && final(self).starts() == old(
                self,
            ).starts() && final(self).changed() == old(self).changed(),
    {
        if !self.contains(pos) {
            return false;
        }
        let tile = self.tiles.get(pos);
        if tile.is_start() || tile.is_end() {
            return false;
        }
        proof {
            assert(!self.starts@.contains(pos)) by {
                if self.starts@.contains(pos) {
                    let i = choose|i: int| 0 <= i < self.starts@.len() && self.starts@[i] == pos;
                    assert(self.tiles.at(self.starts@[i]).kind() == TileKind::Start);
                }
            }
        }
        self.changed = true;
        self.forget(pos);
        let ghost blank = *self;
        self.tiles.set(pos, Tile::Start(StartTile::default(), PathTile::default()));
        self.starts.push(pos);
        proof {
            assert forall|p: TilePos, end: TilePos| #[trigger]
                self.reach(p, end) == (if p == pos {
                    None
                } else {
                    old(self).reach(p, end)
                }) by {
                assert(self.reach(p, end) == blank.reach(p, end));
            }
            let before = old(self).starts@;
            let now = self.starts@;
            assert forall|i: int| 0 <= i < now.len() implies in_bounds(
                #[trigger] now[i],
                self.tiles.size(),
            ) && self.tiles.at(now[i]).kind() == TileKind::Start by {
                if i < before.len() {
                    assert(now[i] == before[i]);
                }
            }
            assert forall|p: TilePos|
                in_bounds(p, self.tiles.size()) && (#[trigger] self.tiles.at(p)).kind()
                    == TileKind::Start implies now.contains(p) by {
                if p == pos {
                    assert(now[before.len() as int] == pos);
                } else {
                    assert(old(self).tiles.at(p).kind() == TileKind::Start);
                    let i = choose|i: int| 0 <= i < before.len() && before[i] == p;
                    assert(now[i] == p);
                }
            }
            assert forall|i: int| 0 <= i < self.ends@.len() implies in_bounds(
                #[trigger] self.ends@[i],
                self.tiles.size(),
            ) && self.tiles.at(self.ends@[i]).kind() == TileKind::End by {
                assert(old(self).tiles.at(self.ends@[i]).kind() == TileKind::End);
            }
            assert forall|p: TilePos|
                in_bounds(p, self.tiles.size()) && (#[trigger] self.tiles.at(p)).kind()
                    == TileKind::End implies self.ends@.contains(p) by {
                assert(old(self).tiles.at(p).kind() == TileKind::End);
            }
        }
        true
    }

    /// Places an end tile at `pos`, over whatever river was there, and
    /// tells whether it did. Nothing is recorded on the fresh tile, and
    /// nothing towards the new end until the flow fields are solved again.
    /// Nothing changes where none was placed.
    pub fn place_end(&mut self, pos: TilePos) -> (placed: bool)
        requires
            old(self).wf(),
        ensures
            final(self).wf(),
            placed == old(self).placeable(pos),
            final(self).size() == old(self).size(),
            final(self).max_spirits() == old(self).max_spirits(),
            final(self).starts() == old(self).starts(),
            placed ==> final(self).forgets(old(self), pos, pos),
            !placed ==> final(self).same_frame(old(self)),
            final(self).same_tiles_but(old(self), pos, pos),
            placed ==> final(self).tile(pos) == Tile::End(
                EndTile,
                PathTile { count: 0, shape: crate::tile::PathShape::End, rot: 0 },
            ),
            placed ==> final(self).ends() == old(self).ends().push(pos),
            placed ==> final(self).changed(),
            final(self).keeps_completed(old(self)),
            !placed ==> final(self).same_tiles(old(self)) && final(self).ends() == old(self).ends()
                && final(self).changed() == old(self).changed(),
    {
        if !self.contains(pos) {
            return false;
        }
        let tile = self.tiles.get(pos);
        if tile.is_start() || tile.is_end() {
            return false;
        }
        proof {
            assert(!self.ends@.contains(pos)) by {
                if self.ends@.contains(pos) {
                    let i = choose|i: int| 0 <= i < self.ends@.len() && self.ends@[i] == pos;
                    assert(self.tiles.at(self.ends@[i]).kind() == TileKind::End);
                }
            }
        }
        let size = self.tiles.extent();
        let field: Layer<Option<usize>> = Layer::new(size, None);
        self.changed = true;
        self.forget(pos);
        let ghost blank = *self;
        self.tiles.set(pos, Tile::End(EndTile, PathTile::default()));
        self.ends.push(pos);
        self.flows.push(field);
        proof {
            let before = old(self).ends@;
            let now = self.ends@;
            assert forall|i: int| 0 <= i < now.len() implies in_bounds(
                #[trigger] now[i],
                self.tiles.size(),
            ) && self.tiles.at(now[i]).kind() == TileKind::End by {
                if i < before.len() {
                    assert(now[i] == before[i]);
                }
            }
            assert forall|p: TilePos|
                in_bounds(p, self.tiles.size()) && (#[trigger] self.tiles.at(p)).kind()
                    == TileKind::End implies now.contains(p) by {
                if p == pos {
                    assert(now[before.len() as int] == pos);
                } else {
                    assert(old(self).tiles.at(p).kind() == TileKind::End);
                    let i = choose|i: int| 0 <= i < before.len() && before[i] == p;
                    assert(now[i] == p);
                }
            }
            assert forall|i: int| 0 <= i < self.starts@.len() implies in_bounds(
                #[trigger] self.starts@[i],
                self.tiles.size(),
            ) && self.tiles.at(self.starts@[i]).kind() == TileKind::Start by {
                assert(old(self).tiles.at(self.starts@[i]).kind() == TileKind::Start);
            }
            assert forall|p: TilePos|
                in_bounds(p, self.tiles.size()) && (#[trigger] self.tiles.at(p)).kind()
                    == TileKind::Start implies self.starts@.contains(p) by {
                assert(old(self).tiles.at(p).kind() == TileKind::Start);
            }
            assert forall|i: int| 0 <= i < self.flows@.len() implies (#[trigger] self.flows@[i]).wf()
                && self.flows@[i].size() == self.tiles.size() by {
                if i < before.len() {
                    assert(self.flows@[i] == blank.flows@[i]);
                }
            }
            assert forall|p: TilePos, end: TilePos| end != pos implies self.reach(p, end)
                == blank.reach(p, end) by {
                if before.contains(end) {
                    let k = before.index_of(end);
                    assert(now[k] == end);
                    assert(now.contains(end));
                    let j = now.index_of(end);
                    assert(now[j] == now[k]);
                } else if now.contains(end) {
                    let j = now.index_of(end);
                    assert(before[j] == end);
                }
            }
            assert forall|p: TilePos| self.reach(p, pos) is None by {
                if in_bounds(p, self.size()) {
                    assert(now[before.len() as int] == pos);
                    let j = now.index_of(pos);
                    assert(now[j] == now[before.len() as int]);
                    crate::grid::lemma_index(p, size);
                }
            }
            assert forall|p: TilePos| old(self).reach(p, pos) is None by {}
            assert forall|p: TilePos, end: TilePos| #[trigger]
                self.reach(p, end) == (if p == pos {
                    None
                } else {
                    old(self).reach(p, end)
                }) by {
                if end != pos {
                    assert(self.reach(p, end) == blank.reach(p, end));
                }
            }
        }
        true
    }

    /// The start tiles, oldest first.
    pub fn start_tiles(&self) -> (r: Vec<TilePos>)
        ensures
            r@ == self.starts(),
    {
        self.starts.clone()
    }

    /// The end tiles, oldest first.
    pub fn end_tiles(&self) -> (r: Vec<TilePos>)
        ensures
            r@ == self.ends(),
    {
        self.ends.clone()
    }
}

/// Clears the map for a fresh round: every drawn river tile becomes empty,
/// start and end tiles stay in place with their state as when placed, no
/// spirit is bound for any tile, and no distance is recorded.
pub fn reset_tilemap(map: &mut Tilemap)
    requires
        old(map).wf(),
    ensures
        final(map).wf(),
        final(map).size() == old(map).size(),
        final(map).max_spirits() == old(map).max_spirits(),
        final(map).starts() == old(map).starts(),
        final(map).ends() == old(map).ends(),
        final(map).changed(),
        forall|p: TilePos|
            in_bounds(p, old(map).size()) ==> #[trigger] final(map).tile(p) == cleared(
                old(map).tile(p),
            ),
        forall|p: TilePos, end: TilePos| final(map).reach(p, end) is None,
{
    map.changed = true;
    let size = map.tiles.extent();
    let ghost first = map.tiles;
    let mut y: u32 = 0;
    while y < size.y
        invariant
            map.inv(),
            map.changed,
            map.tiles.size() == size,
            first == old(map).tiles,
            first.size() == size,
            map.max_spirits == old(map).max_spirits,
            map.starts@ == old(map).starts@,
            map.ends@ == old(map).ends@,
            y <= size.y,
            forall|p: TilePos|
                in_bounds(p, size) ==> #[trigger] map.tiles.at(p) == (if p.y < y {
                    cleared(first.at(p))
                } else {
                    first.at(p)
                }),
        decreases size.y - y,
    {
        let mut x: u32 = 0;
        while x < size.x
            invariant
                map.inv(),
                map.changed,
                map.tiles.size() == size,
                first == old(map).tiles,
                first.size() == size,
                map.max_spirits == old(map).max_spirits,
                map.starts@ == old(map).starts@,
                map.ends@ == old(map).ends@,
                y < size.y,
                x <= size.x,
                forall|p: TilePos|
                    in_bounds(p, size) ==> #[trigger] map.tiles.at(p) == (if p.y < y || (p.y == y
                        && p.x < x) {
                        cleared(first.at(p))
                    } else {
                        first.at(p)
                    }),
            decreases size.x - x,
        {
            let pos = TilePos { x, y };
            let fresh = match map.tiles.get(pos) {
                Tile::Empty => Tile::Empty,
                Tile::Path(_) => Tile::Empty,
                Tile::Start(_, _) => Tile::Start(StartTile::default(), PathTile::default()),
                Tile::End(e, _) => Tile::End(e, PathTile::default()),
            };
            map.tiles.set(pos, fresh);
            x = x + 1;
        }
        y = y + 1;
    }
    let mut flows: Vec<Layer<Option<usize>>> = Vec::new();
    let mut i: usize = 0;
    while i < map.ends.len()
        invariant
            map.inv(),
            map.changed,
            map.tiles.size() == size,
            i <= map.ends@.len(),
            flows@.len() == i,
            forall|k: int|
                0 <= k < i ==> (#[trigger] flows@[k]).wf() && flows@[k].size() == size && forall|
                    j: int,
                | 0 <= j < flows@[k].cells().len() ==> flows@[k].cells()[j] is None,
        decreases map.ends@.len() - i,
    {
        let field: Layer<Option<usize>> = Layer::new(size, None);
        flows.push(field);
        i = i + 1;
    }
    map.flows = flows;
    proof {
        assert forall|p: TilePos, end: TilePos| map.reach(p, end) is None by {
            if map.ends@.contains(end) && in_bounds(p, map.size()) {
                crate::grid::lemma_index(p, size);
            }
        }
    }
}

} // verus!
