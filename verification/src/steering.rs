//! How a spirit picks the tile it moves to next: what each neighbour
//! offers, and which offer wins.

use crate::autotile::river_sides;
use crate::grid::{in_bounds, TilePos};
use crate::tilemap::Tilemap;
use vstd::prelude::*;

verus! {

/// An end tile and the recorded distance to it.
#[derive(Clone, Copy, Debug, PartialEq, Eq, Structural)]
pub struct Goal {
    pub end: TilePos,
    pub distance: usize,
}

/// What a neighbouring tile offers a spirit: how many spirits are bound
/// for it already, and the end it leads to with the distance left from
/// there, if it leads anywhere.
#[derive(Clone, Copy, Debug, PartialEq, Eq, Structural)]
pub struct Offer {
    pub tile: TilePos,
    pub count: u32,
    pub goal: Option<Goal>,
}

/// The random numbers that one decision consumes: one for each of the up
/// to four neighbours, to choose among ends that are equally near, and one
/// to choose among offers that are equally good.
#[derive(Clone, Copy, Debug, PartialEq, Eq, Structural)]
pub struct Jitter {
    pub first: usize,
    pub second: usize,
    pub third: usize,
    pub fourth: usize,
    pub pick: usize,
}

impl Jitter {
    /// The number for the `i`-th neighbour.
    pub open spec fn spec_roll(self, i: usize) -> usize {
        if i == 0 {
            self.first
        } else if i == 1 {
            self.second
        } else if i == 2 {
            self.third
        } else {
            self.fourth
        }
    }

    /// The number for the `i`-th neighbour.
    #[verifier::when_used_as_spec(spec_roll)]
    pub fn roll(self, i: usize) -> (r: usize)
        ensures
            r == self.spec_roll(i),
    {
        if i == 0 {
            self.first
        } else if i == 1 {
            self.second
        } else if i == 2 {
            self.third
        } else {
            self.fourth
        }
    }
}

/// The smaller of two recorded distances, where `None` is farther than any.
pub open spec fn nearer(a: Option<usize>, b: Option<usize>) -> Option<usize> {
    match (a, b) {
        (Some(x), Some(y)) => if y < x {
            Some(y)
        } else {
            Some(x)
        },
        (None, _) => b,
        (_, None) => a,
    }
}

/// The least distance recorded at `pos` to any of the first `n` ends.
pub open spec fn least_upto(map: &Tilemap, pos: TilePos, n: int) -> Option<usize>
    decreases n,
{
    if n <= 0 {
        None
    } else {
        nearer(least_upto(map, pos, n - 1), map.distance(pos, map.ends()[n - 1]))
    }
}

/// Those of the first `n` ends that are at the recorded distance `d` from
/// `pos`, oldest first.
pub open spec fn tied_upto(map: &Tilemap, pos: TilePos, d: usize, n: int) -> Seq<TilePos>
    decreases n,
{
    if n <= 0 {
        Seq::empty()
    } else if map.distance(pos, map.ends()[n - 1]) == Some(d) {
        tied_upto(map, pos, d, n - 1).push(map.ends()[n - 1])
    } else {
        tied_upto(map, pos, d, n - 1)
    }
}

/// The end nearest to `pos` by the recorded distances; among several
/// equally near, the one that `roll` selects. `None` where no distance to
/// any end is recorded at `pos`.
pub open spec fn nearest_end(map: &Tilemap, pos: TilePos, roll: usize) -> Option<Goal> {
    match least_upto(map, pos, map.ends().len() as int) {
        Some(d) => {
            let tied = tied_upto(map, pos, d, map.ends().len() as int);
            Some(Goal { end: tied[roll as int % tied.len() as int], distance: d })
        },
        None => None,
    }
}

/// The least distance is recorded for one of the ends and no end has a
/// smaller one; the tied ends are exactly the ends at that distance.
pub proof fn lemma_least_upto(map: &Tilemap, pos: TilePos, n: int)
    requires
        0 <= n <= map.ends().len(),
    ensures
        forall|i: int|
            0 <= i < n ==> nearer(
                least_upto(map, pos, n),
                #[trigger] map.distance(pos, map.ends()[i]),
            ) == least_upto(map, pos, n),
        least_upto(map, pos, n) matches Some(d) ==> tied_upto(map, pos, d, n).len() > 0,
        forall|d: usize, k: int|
            0 <= k < tied_upto(map, pos, d, n).len() ==> {
                let e = #[trigger] tied_upto(map, pos, d, n)[k];
                map.ends().contains(e) && map.distance(pos, e) == Some(d)
            },
    decreases n,
{
    if n > 0 {
        lemma_least_upto(map, pos, n - 1);
        let last = map.ends()[n - 1];
        assert(map.ends().contains(last));
        match least_upto(map, pos, n) {
            Some(d) => {
                if map.distance(pos, last) == Some(d) {
                    assert(tied_upto(map, pos, d, n).len() > 0);
                } else {
                    assert(least_upto(map, pos, n - 1) == Some(d));
                }
            },
            None => {},
        }
        assert forall|d: usize, k: int| 0 <= k < tied_upto(map, pos, d, n).len() implies {
            let e = #[trigger] tied_upto(map, pos, d, n)[k];
            map.ends().contains(e) && map.distance(pos, e) == Some(d)
        } by {
            if k < tied_upto(map, pos, d, n - 1).len() {
                assert(tied_upto(map, pos, d, n)[k] == tied_upto(map, pos, d, n - 1)[k]);
            }
        }
    }
}

/// The nearest end is an end of the map at the distance given for it, and
/// no end has a smaller recorded distance; where there is none, no distance
/// to any end is recorded.
pub proof fn lemma_nearest_end(map: &Tilemap, pos: TilePos, roll: usize)
    ensures
        match nearest_end(map, pos, roll) {
            Some(goal) => {
                &&& map.ends().contains(goal.end)
                &&& map.distance(pos, goal.end) == Some(goal.distance)
                &&& forall|e: TilePos|
                    map.ends().contains(e) ==> (match #[trigger] map.distance(pos, e) {
                        Some(d) => goal.distance <= d,
                        None => true,
                    })
            },
            None => forall|e: TilePos|
                map.ends().contains(e) ==> (#[trigger] map.distance(pos, e)) is None,
        },
{
    let n = map.ends().len() as int;
    lemma_least_upto(map, pos, n);
    assert forall|e: TilePos| map.ends().contains(e) implies nearer(
        least_upto(map, pos, n),
        #[trigger] map.distance(pos, e),
    ) == least_upto(map, pos, n) by {
        let i = choose|i: int| 0 <= i < n && map.ends()[i] == e;
        assert(map.distance(pos, map.ends()[i]) == map.distance(pos, e));
    }
    match least_upto(map, pos, n) {
        Some(d) => {
            let tied = tied_upto(map, pos, d, n);
            let k = roll as int % tied.len() as int;
            assert(0 <= k < tied.len()) by (nonlinear_arith)
                requires
                    k == roll as int % tied.len() as int,
                    tied.len() > 0,
                    roll >= 0,
            ;
            assert(map.ends().contains(tied[k]) && map.distance(pos, tied[k]) == Some(d));
        },
        None => {},
    }
}

/// On a start tile no distance is read, so no end is nearest.
proof fn lemma_least_on_start(map: &Tilemap, pos: TilePos, n: int)
    requires
        in_bounds(pos, map.size()),
        map.tile(pos).is_start(),
    ensures
        least_upto(map, pos, n) is None,
    decreases n,
{
    if n > 0 {
        lemma_least_on_start(map, pos, n - 1);
    }
}

impl Tilemap {
    /// Finds the end nearest to `pos` by the recorded distances, letting
    /// `roll` choose among ends that are equally near.
    pub fn nearest(&self, pos: TilePos, roll: usize) -> (r: Option<Goal>)
        requires
            self.wf(),
            in_bounds(pos, self.size()),
        ensures
            r == nearest_end(self, pos, roll),
    {
        if self.tiles.get(pos).is_start() {
            proof {
                lemma_least_on_start(self, pos, self.ends@.len() as int);
            }
            return None;
        }
        let mut least: Option<usize> = None;
        let mut i: usize = 0;
        while i < self.ends.len()
            invariant
                self.wf(),
                in_bounds(pos, self.size()),
                !self.tile(pos).is_start(),
                i <= self.ends@.len(),
                least == least_upto(self, pos, i as int),
            decreases self.ends@.len() - i,
        {
            proof {
                self.lemma_distance_at(pos, i as int);
            }
            let here = self.flows[i].get(pos);
            least = match (least, here) {
                (Some(x), Some(y)) => if y < x {
                    Some(y)
                } else {
                    Some(x)
                },
                (None, _) => here,
                (_, None) => least,
            };
            i = i + 1;
        }
        match least {
            None => None,
            Some(d) => {
                let mut tied: Vec<TilePos> = Vec::new();
                let mut k: usize = 0;
                while k < self.ends.len()
                    invariant
                        self.wf(),
                        in_bounds(pos, self.size()),
                        !self.tile(pos).is_start(),
                        k <= self.ends@.len(),
                        tied@ == tied_upto(self, pos, d, k as int),
                    decreases self.ends@.len() - k,
                {
                    proof {
                        self.lemma_distance_at(pos, k as int);
                    }
                    match self.flows[k].get(pos) {
                        Some(x) => {
                            if x == d {
                                tied.push(self.ends[k]);
                            }
                        },
                        None => {},
                    }
                    k = k + 1;
                }
                proof {
                    lemma_least_upto(self, pos, self.ends@.len() as int);
                }
                Some(Goal { end: tied[roll % tied.len()], distance: d })
            },
        }
    }

    /// The distance read towards the `i`-th end on a tile that is no start
    /// is the one held by the `i`-th flow field.
    pub(crate) proof fn lemma_distance_at(&self, pos: TilePos, i: int)
        requires
            self.wf(),
            in_bounds(pos, self.size()),
            !self.tile(pos).is_start(),
            0 <= i < self.ends@.len(),
        ensures
            self.distance(pos, self.ends@[i]) == self.flows@[i].at(pos),
    {
        let end = self.ends@[i];
        assert(self.ends@.contains(end));
        let k = self.ends@.index_of(end);
        assert(self.ends@[k] == self.ends@[i]);
    }
}

/// The end that `tile` leads a spirit to and the distance left from there:
/// towards the end the spirit has chosen, if it has chosen one, else
/// towards the nearest.
pub open spec fn goal_for(
    map: &Tilemap,
    chosen: Option<TilePos>,
    tile: TilePos,
    roll: usize,
) -> Option<Goal> {
    match chosen {
        Some(end) => match map.distance(tile, end) {
            Some(d) => Some(Goal { end, distance: d }),
            None => None,
        },
        None => nearest_end(map, tile, roll),
    }
}

/// The offers of the first `n` tiles of `around`: one for each that is no
/// start tile.
pub open spec fn offers_upto(
    map: &Tilemap,
    chosen: Option<TilePos>,
    around: Seq<TilePos>,
    jitter: Jitter,
    n: int,
) -> Seq<Offer>
    decreases n,
{
    if n <= 0 {
        Seq::empty()
    } else {
        let rest = offers_upto(map, chosen, around, jitter, n - 1);
        let tile = around[n - 1];
        if map.tile(tile).is_start() {
            rest
        } else {
            rest.push(
                Offer {
                    tile,
                    count: map.tile(tile).count(),
                    goal: goal_for(map, chosen, tile, jitter.roll((n - 1) as usize)),
                },
            )
        }
    }
}

/// The offers of the tiles around `pos`: one for each neighbour that
/// carries a river and is no start tile.
pub open spec fn offers_at(
    map: &Tilemap,
    chosen: Option<TilePos>,
    pos: TilePos,
    jitter: Jitter,
) -> Seq<Offer> {
    let around = river_sides(map.network(), pos);
    offers_upto(map, chosen, around, jitter, around.len() as int)
}

/// Whether `tile` is among the first `n` tiles of `around`.
pub open spec fn listed(around: Seq<TilePos>, n: int, tile: TilePos) -> bool {
    exists|i: int| 0 <= i < n && #[trigger] around[i] == tile
}

/// Whether `offer` leads where its tile leads a spirit that has chosen
/// `chosen`, for some random number.
pub open spec fn leads(map: &Tilemap, chosen: Option<TilePos>, offer: Offer) -> bool {
    exists|roll: usize| offer.goal == #[trigger] goal_for(map, chosen, offer.tile, roll)
}

/// On a map whose distances are up to date, the goal that a tile which is
/// no start leads to is an end of the map, at the number of moves of a
/// shortest route from that end to the tile.
pub proof fn lemma_goal_is_true(map: &Tilemap, chosen: Option<TilePos>, tile: TilePos, roll: usize)
    requires
        map.wf(),
        !map.changed(),
        in_bounds(tile, map.size()),
        !map.tile(tile).is_start(),
    ensures
        goal_for(map, chosen, tile, roll) matches Some(goal) ==> map.ends().contains(goal.end)
            && crate::route::hop_distance(map.network(), goal.end, tile) == Some(
            goal.distance as nat,
        ),
{
    lemma_nearest_end(map, tile, roll);
    match goal_for(map, chosen, tile, roll) {
        Some(goal) => {
            assert(map.distance(tile, goal.end) == Some(goal.distance));
            assert(map.ends().contains(goal.end));
            map.lemma_distance_solved(tile, goal.end);
        },
        None => {},
    }
}

/// Each offer is for one of the first `n` tiles of `around` that is no
/// start tile, states the count of that tile and leads where that tile
/// leads; each such tile has its offer.
pub proof fn lemma_offers_upto(
    map: &Tilemap,
    chosen: Option<TilePos>,
    around: Seq<TilePos>,
    jitter: Jitter,
    n: int,
)
    requires
        0 <= n <= around.len(),
    ensures
        offers_upto(map, chosen, around, jitter, n).len() <= n,
        forall|k: int|
            0 <= k < offers_upto(map, chosen, around, jitter, n).len() ==> {
                let o = #[trigger] offers_upto(map, chosen, around, jitter, n)[k];
                &&& listed(around, n, o.tile)
                &&& leads(map, chosen, o)
                &&& !map.tile(o.tile).is_start()
                &&& o.count == map.tile(o.tile).count()
            },
        forall|i: int|
            0 <= i < n && !map.tile(#[trigger] around[i]).is_start() ==> exists|k: int|
                0 <= k < offers_upto(map, chosen, around, jitter, n).len() && (
                #[trigger] offers_upto(map, chosen, around, jitter, n)[k]).tile == around[i],
    decreases n,
{
    if n > 0 {
        lemma_offers_upto(map, chosen, around, jitter, n - 1);
        let now = offers_upto(map, chosen, around, jitter, n);
        let rest = offers_upto(map, chosen, around, jitter, n - 1);
        assert forall|k: int| 0 <= k < now.len() implies {
            let o = #[trigger] now[k];
            &&& listed(around, n, o.tile)
            &&& leads(map, chosen, o)
            &&& !map.tile(o.tile).is_start()
            &&& o.count == map.tile(o.tile).count()
        } by {
            if k < rest.len() {
                assert(now[k] == rest[k]);
                assert(listed(around, n - 1, rest[k].tile));
                let w = choose|w: int| 0 <= w < n - 1 && #[trigger] around[w] == rest[k].tile;
                assert(around[w] == rest[k].tile);
            } else {
                assert(around[n - 1] == now[k].tile);
                assert(now[k].goal == goal_for(
                    map,
                    chosen,
                    now[k].tile,
                    jitter.roll((n - 1) as usize),
                ));
            }
        }
        assert forall|i: int| 0 <= i < n && !map.tile(#[trigger] around[i]).is_start() implies exists|
            k: int,
        |
            0 <= k < now.len() && (#[trigger] now[k]).tile == around[i] by {
            if i < n - 1 {
                let k = choose|k: int| 0 <= k < rest.len() && (#[trigger] rest[k]).tile == around[i];
                assert(now[k].tile == around[i]);
            } else {
                assert(now[now.len() - 1].tile == around[i]);
            }
        }
    }
}

/// Whether a spirit may take `offer`: the tile has room for one more
/// spirit and brings the spirit strictly nearer to an end than `held`,
/// the distance it holds now (`None` when it holds none).
pub open spec fn qualifies(offer: Offer, held: Option<usize>, max: u32) -> bool {
    &&& offer.count < max
    &&& offer.goal matches Some(goal)
    &&& (held matches Some(t) ==> goal.distance < t)
}

/// The qualifying offers among the first `n` that lead to another tile
/// than `prev`.
pub open spec fn fresh_upto(
    offers: Seq<Offer>,
    prev: TilePos,
    held: Option<usize>,
    max: u32,
    n: int,
) -> Seq<Offer>
    decreases n,
{
    if n <= 0 {
        Seq::empty()
    } else if qualifies(offers[n - 1], held, max) && offers[n - 1].tile != prev {
        fresh_upto(offers, prev, held, max, n - 1).push(offers[n - 1])
    } else {
        fresh_upto(offers, prev, held, max, n - 1)
    }
}

/// The first qualifying offer among the first `n` that leads back to `prev`.
pub open spec fn back_upto(
    offers: Seq<Offer>,
    prev: TilePos,
    held: Option<usize>,
    max: u32,
    n: int,
) -> Option<Offer>
    decreases n,
{
    if n <= 0 {
        None
    } else {
        match back_upto(offers, prev, held, max, n - 1) {
            Some(o) => Some(o),
            None => if qualifies(offers[n - 1], held, max) && offers[n - 1].tile == prev {
                Some(offers[n - 1])
            } else {
                None
            },
        }
    }
}

/// The distance that `offer` leaves to its end.
pub open spec fn left(offer: Offer) -> usize {
    match offer.goal {
        Some(goal) => goal.distance,
        None => usize::MAX,
    }
}

/// The least distance left by any of the first `n` offers.
pub open spec fn least_left(offers: Seq<Offer>, n: int) -> usize
    decreases n,
{
    if n <= 0 {
        usize::MAX
    } else if left(offers[n - 1]) < least_left(offers, n - 1) {
        left(offers[n - 1])
    } else {
        least_left(offers, n - 1)
    }
}

/// Those of the first `n` offers that leave the distance `d`.
pub open spec fn leaving_upto(offers: Seq<Offer>, d: usize, n: int) -> Seq<Offer>
    decreases n,
{
    if n <= 0 {
        Seq::empty()
    } else if left(offers[n - 1]) == d {
        leaving_upto(offers, d, n - 1).push(offers[n - 1])
    } else {
        leaving_upto(offers, d, n - 1)
    }
}

/// The offer that a spirit takes. Among the qualifying offers that do not
/// lead back to `prev` it is one that leaves the least distance, the one
/// that `pick` selects among several; only where there is none, it is the
/// qualifying offer that leads back to `prev`, if there is one.
pub open spec fn choice(
    offers: Seq<Offer>,
    prev: TilePos,
    held: Option<usize>,
    max: u32,
    pick: usize,
) -> Option<Offer> {
    let fresh = fresh_upto(offers, prev, held, max, offers.len() as int);
    if fresh.len() > 0 {
        let best = leaving_upto(fresh, least_left(fresh, fresh.len() as int), fresh.len() as int);
        Some(best[pick as int % best.len() as int])
    } else {
        back_upto(offers, prev, held, max, offers.len() as int)
    }
}

/// The offers kept are offers that qualify and lead elsewhere than back,
/// and every such offer among the first `n` is kept.
proof fn lemma_fresh_upto(
    offers: Seq<Offer>,
    prev: TilePos,
    held: Option<usize>,
    max: u32,
    n: int,
)
    requires
        0 <= n <= offers.len(),
    ensures
        forall|k: int|
            0 <= k < fresh_upto(offers, prev, held, max, n).len() ==> {
                let o = #[trigger] fresh_upto(offers, prev, held, max, n)[k];
                offers.contains(o) && qualifies(o, held, max) && o.tile != prev
            },
        forall|i: int|
            0 <= i < n && qualifies(#[trigger] offers[i], held, max) && offers[i].tile != prev
                ==> fresh_upto(offers, prev, held, max, n).contains(offers[i]),
    decreases n,
{
    if n > 0 {
        lemma_fresh_upto(offers, prev, held, max, n - 1);
        let now = fresh_upto(offers, prev, held, max, n);
        let rest = fresh_upto(offers, prev, held, max, n - 1);
        assert forall|k: int| 0 <= k < now.len() implies {
            let o = #[trigger] now[k];
            offers.contains(o) && qualifies(o, held, max) && o.tile != prev
        } by {
            if k < rest.len() {
                assert(now[k] == rest[k]);
            }
        }
        assert forall|i: int|
            0 <= i < n && qualifies(#[trigger] offers[i], held, max) && offers[i].tile
                != prev implies now.contains(offers[i]) by {
            if i < n - 1 {
                let k = choose|k: int| 0 <= k < rest.len() && rest[k] == offers[i];
                assert(now[k] == offers[i]);
            } else {
                assert(now[now.len() - 1] == offers[i]);
            }
        }
    }
}

/// The offer found leads back and qualifies; none is found only where no
/// offer among the first `n` does both.
proof fn lemma_back_upto(
    offers: Seq<Offer>,
    prev: TilePos,
    held: Option<usize>,
    max: u32,
    n: int,
)
    requires
        0 <= n <= offers.len(),
    ensures
        match back_upto(offers, prev, held, max, n) {
            Some(o) => offers.contains(o) && qualifies(o, held, max) && o.tile == prev,
            None => forall|i: int|
                0 <= i < n ==> !(qualifies(#[trigger] offers[i], held, max) && offers[i].tile
                    == prev),
        },
    decreases n,
{
    if n > 0 {
        lemma_back_upto(offers, prev, held, max, n - 1);
    }
}

/// The least distance left is left by one of the first `n` offers, and
/// none of them leaves less.
proof fn lemma_least_left(offers: Seq<Offer>, n: int)
    requires
        0 <= n <= offers.len(),
    ensures
        forall|i: int| 0 <= i < n ==> least_left(offers, n) <= left(#[trigger] offers[i]),
        n > 0 ==> exists|i: int| 0 <= i < n && left(#[trigger] offers[i]) == least_left(offers, n),
    decreases n,
{
    if n > 0 {
        lemma_least_left(offers, n - 1);
        if n > 1 && !(left(offers[n - 1]) < least_left(offers, n - 1)) {
            let i = choose|i: int|
                0 <= i < n - 1 && left(#[trigger] offers[i]) == least_left(offers, n - 1);
            assert(left(offers[i]) == least_left(offers, n));
        } else {
            assert(left(offers[n - 1]) == least_left(offers, n));
        }
    }
}

/// The offers kept are offers that leave the distance `d`, and there is
/// one as soon as one of the first `n` offers leaves it.
proof fn lemma_leaving_upto(offers: Seq<Offer>, d: usize, n: int)
    requires
        0 <= n <= offers.len(),
    ensures
        forall|k: int|
            0 <= k < leaving_upto(offers, d, n).len() ==> {
                let o = #[trigger] leaving_upto(offers, d, n)[k];
                offers.contains(o) && left(o) == d
            },
        (exists|i: int| 0 <= i < n && left(#[trigger] offers[i]) == d) ==> leaving_upto(
            offers,
            d,
            n,
        ).len() > 0,
    decreases n,
{
    if n > 0 {
        lemma_leaving_upto(offers, d, n - 1);
        let now = leaving_upto(offers, d, n);
        let rest = leaving_upto(offers, d, n - 1);
        assert forall|k: int| 0 <= k < now.len() implies {
            let o = #[trigger] now[k];
            offers.contains(o) && left(o) == d
        } by {
            if k < rest.len() {
                assert(now[k] == rest[k]);
            }
        }
        if exists|i: int| 0 <= i < n && left(#[trigger] offers[i]) == d {
            let i = choose|i: int| 0 <= i < n && left(#[trigger] offers[i]) == d;
            if i < n - 1 {
                assert(rest.len() > 0);
            }
        }
    }
}

/// What holds of the offer taken. It is one of the offers and qualifies, so
/// its tile has room for one more spirit. It leads back to `prev` only
/// where no qualifying offer leads anywhere else; otherwise no qualifying
/// offer that leads elsewhere leaves a smaller distance. No offer is taken
/// only where none qualifies.
pub proof fn lemma_choice(
    offers: Seq<Offer>,
    prev: TilePos,
    held: Option<usize>,
    max: u32,
    pick: usize,
)
    ensures
        match choice(offers, prev, held, max, pick) {
            Some(taken) => {
                &&& offers.contains(taken)
                &&& qualifies(taken, held, max)
                &&& taken.count < max
                &&& taken.tile == prev ==> forall|i: int|
                    0 <= i < offers.len() && qualifies(#[trigger] offers[i], held, max)
                        ==> offers[i].tile == prev
                &&& taken.tile != prev ==> forall|i: int|
                    0 <= i < offers.len() && qualifies(#[trigger] offers[i], held, max)
                        && offers[i].tile != prev ==> left(taken) <= left(offers[i])
            },
            None => forall|i: int| 0 <= i < offers.len() ==> !qualifies(
                #[trigger] offers[i],
                held,
                max,
            ),
        },
{
    let n = offers.len() as int;
    let fresh = fresh_upto(offers, prev, held, max, n);
    lemma_fresh_upto(offers, prev, held, max, n);
    lemma_back_upto(offers, prev, held, max, n);
    if fresh.len() > 0 {
        let m = fresh.len() as int;
        let d = least_left(fresh, m);
        let best = leaving_upto(fresh, d, m);
        lemma_least_left(fresh, m);
        lemma_leaving_upto(fresh, d, m);
        let k = pick as int % best.len() as int;
        assert(0 <= k < best.len()) by (nonlinear_arith)
            requires
                k == pick as int % best.len() as int,
                best.len() > 0,
                pick >= 0,
        ;
        let taken = best[k];
        assert(fresh.contains(taken));
        let w = choose|w: int| 0 <= w < fresh.len() && fresh[w] == taken;
        assert(fresh[w] == taken);
        assert forall|i: int|
            0 <= i < offers.len() && qualifies(#[trigger] offers[i], held, max)
                && offers[i].tile != prev implies left(taken) <= left(offers[i]) by {
            assert(fresh.contains(offers[i]));
            let v = choose|v: int| 0 <= v < fresh.len() && fresh[v] == offers[i];
            assert(least_left(fresh, m) <= left(fresh[v]));
        }
    } else {
        assert forall|i: int|
            0 <= i < offers.len() && qualifies(#[trigger] offers[i], held, max)
                implies offers[i].tile == prev by {
            if offers[i].tile != prev {
                assert(fresh.contains(offers[i]));
            }
        }
    }
}

/// Picks the offer that a spirit takes among `offers`, where `prev` is the
/// tile it came from, `held` the distance it holds, `max` the most
/// spirits that may be bound for one tile, and `pick` a random number that
/// settles ties.
pub fn choose_offer(
    offers: &Vec<Offer>,
    prev: TilePos,
    held: Option<usize>,
    max: u32,
    pick: usize,
) -> (r: Option<Offer>)
    ensures
        r == choice(offers@, prev, held, max, pick),
        r matches Some(taken) ==> offers@.contains(taken) && qualifies(taken, held, max),
        r matches Some(taken) && taken.tile == prev ==> forall|i: int|
            0 <= i < offers@.len() && qualifies(#[trigger] offers@[i], held, max)
                ==> offers@[i].tile == prev,
        r is None ==> forall|i: int|
            0 <= i < offers@.len() ==> !qualifies(#[trigger] offers@[i], held, max),
{
    proof {
        lemma_choice(offers@, prev, held, max, pick);
    }
    let mut fresh: Vec<Offer> = Vec::new();
    let mut back: Option<Offer> = None;
    let mut i: usize = 0;
    while i < offers.len()
        invariant
            i <= offers@.len(),
            fresh@ == fresh_upto(offers@, prev, held, max, i as int),
            back == back_upto(offers@, prev, held, max, i as int),
        decreases offers@.len() - i,
    {
        let offer = offers[i];
        let good = offer.count < max && match offer.goal {
            Some(goal) => match held {
                Some(t) => goal.distance < t,
                None => true,
            },
            None => false,
        };
        if good {
            if offer.tile.x == prev.x && offer.tile.y == prev.y {
                if back.is_none() {
                    back = Some(offer);
                }
            } else {
                fresh.push(offer);
            }
        }
        i = i + 1;
    }
    if fresh.len() == 0 {
        return back;
    }
    let mut least: usize = usize::MAX;
    let mut k: usize = 0;
    while k < fresh.len()
        invariant
            k <= fresh@.len(),
            least == least_left(fresh@, k as int),
        decreases fresh@.len() - k,
    {
        let d = match fresh[k].goal {
            Some(goal) => goal.distance,
            None => usize::MAX,
        };
        if d < least {
            least = d;
        }
        k = k + 1;
    }
    let mut best: Vec<Offer> = Vec::new();
    let mut j: usize = 0;
    while j < fresh.len()
        invariant
            j <= fresh@.len(),
            best@ == leaving_upto(fresh@, least, j as int),
        decreases fresh@.len() - j,
    {
        let d = match fresh[j].goal {
            Some(goal) => goal.distance,
            None => usize::MAX,
        };
        if d == least {
            best.push(fresh[j]);
        }
        j = j + 1;
    }
    proof {
        lemma_least_left(fresh@, fresh@.len() as int);
        lemma_leaving_upto(fresh@, least, fresh@.len() as int);
    }
    Some(best[pick % best.len()])
}

impl Tilemap {
    /// Collects what the tiles around `pos` offer a spirit that has chosen
    /// the end `chosen`, or none.
    pub fn offers(&self, chosen: Option<TilePos>, pos: TilePos, jitter: Jitter) -> (r: Vec<Offer>)
        requires
            self.wf(),
        ensures
            r@ == offers_at(self, chosen, pos, jitter),
    {
        let around = self.path_neighbours(pos);
        let mut r: Vec<Offer> = Vec::new();
        let mut i: usize = 0;
        while i < around.len()
            invariant
                self.wf(),
                around@ == river_sides(self.network(), pos),
                i <= around@.len(),
                r@ == offers_upto(self, chosen, around@, jitter, i as int),
            decreases around@.len() - i,
        {
            let tile = around[i];
            assert(in_bounds(tile, self.size())) by {
                crate::autotile::lemma_river_sides_passable(self.network(), pos, i as int);
            }
            let state = self.tiles.get(tile);
            if !state.is_start() {
                let goal = match chosen {
                    Some(end) => match self.distance_to(tile, end) {
                        Some(d) => Some(Goal { end, distance: d }),
                        None => None,
                    },
                    None => self.nearest(tile, jitter.roll(i)),
                };
                r.push(Offer { tile, count: state.count(), goal });
            }
            i = i + 1;
        }
        r
    }
}

} // verus!
