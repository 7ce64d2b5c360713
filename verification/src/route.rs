//! Routes through the river network and the hop distance they define.
//!
//! A network gives each tile of the grid its role. Every tile but an empty
//! one carries a river: drawn river tiles, and start and end tiles as well.
//! A route starts on an end tile and moves from tile to adjacent tile over
//! river, other end tiles included; it never leaves a start tile again, so
//! a start may close a route but never lie inside one.

use crate::grid::{adjacent, TilePos};
use crate::tile::TileKind;
use vstd::prelude::*;

verus! {

/// Whether `pos` is a tile of the network that carries a river: a drawn
/// river tile, a start or an end.
pub open spec fn passable(net: Map<TilePos, TileKind>, pos: TilePos) -> bool {
    net.dom().contains(pos) && net[pos] != TileKind::Empty
}

/// Whether `pos` is a start tile of the network.
pub open spec fn is_start(net: Map<TilePos, TileKind>, pos: TilePos) -> bool {
    net.dom().contains(pos) && net[pos] == TileKind::Start
}

/// Whether a route may move from `from` to `to`.
pub open spec fn step(net: Map<TilePos, TileKind>, from: TilePos, to: TilePos) -> bool {
    adjacent(from, to) && passable(net, to) && !is_start(net, from)
}

/// Whether the `i`-th move of `route` is allowed.
pub open spec fn link(net: Map<TilePos, TileKind>, route: Seq<TilePos>, i: int) -> bool {
    step(net, route[i - 1], route[i])
}

/// Whether `route` is a route of the network that starts on `end`.
pub open spec fn is_route(net: Map<TilePos, TileKind>, end: TilePos, route: Seq<TilePos>) -> bool {
    &&& route.len() > 0
    &&& route[0] == end
    &&& passable(net, end)
    &&& forall|i: int| 0 < i < route.len() ==> #[trigger] link(net, route, i)
}

/// Whether some route from `end` arrives on `pos` after exactly `hops` moves.
pub open spec fn reaches(net: Map<TilePos, TileKind>, end: TilePos, pos: TilePos, hops: nat) -> bool {
    exists|route: Seq<TilePos>|
        #[trigger] is_route(net, end, route) && route.len() == hops + 1 && route.last() == pos
}

/// Whether `hops` is the length of a shortest route from `end` to `pos`.
pub open spec fn is_least(net: Map<TilePos, TileKind>, end: TilePos, pos: TilePos, hops: nat) -> bool {
    reaches(net, end, pos, hops) && forall|k: nat| k < hops ==> !reaches(net, end, pos, k)
}

/// The number of moves of a shortest route from `end` to `pos`, or `None`
/// where no route arrives on `pos`.
pub open spec fn hop_distance(net: Map<TilePos, TileKind>, end: TilePos, pos: TilePos) -> Option<nat> {
    if exists|h: nat| reaches(net, end, pos, h) {
        Some(choose|h: nat| is_least(net, end, pos, h))
    } else {
        None
    }
}

/// A tile that some route arrives on has a shortest route, of at most the
/// length of that route.
pub proof fn lemma_least_exists(net: Map<TilePos, TileKind>, end: TilePos, pos: TilePos, hops: nat)
    requires
        reaches(net, end, pos, hops),
    ensures
        exists|h: nat| h <= hops && is_least(net, end, pos, h),
    decreases hops,
{
    if exists|k: nat| k < hops && reaches(net, end, pos, k) {
        let k = choose|k: nat| k < hops && reaches(net, end, pos, k);
        lemma_least_exists(net, end, pos, k);
        let h = choose|h: nat| h <= k && is_least(net, end, pos, h);
        assert(h <= hops && is_least(net, end, pos, h));
    } else {
        assert(is_least(net, end, pos, hops));
    }
}

/// The hop distance of `pos` is `hops` exactly when a route of `hops` moves
/// arrives on `pos` and no shorter one does.
pub proof fn lemma_hop_distance_is_least(
    net: Map<TilePos, TileKind>,
    end: TilePos,
    pos: TilePos,
    hops: nat,
)
    ensures
        hop_distance(net, end, pos) == Some(hops) <==> is_least(net, end, pos, hops),
{
    if is_least(net, end, pos, hops) {
        let h = choose|h: nat| is_least(net, end, pos, h);
        assert(is_least(net, end, pos, h));
        assert(h == hops) by {
            if h < hops {
                assert(!reaches(net, end, pos, h));
            }
            if hops < h {
                assert(!reaches(net, end, pos, hops));
            }
        }
    }
    if hop_distance(net, end, pos) == Some(hops) {
        let k = choose|k: nat| reaches(net, end, pos, k);
        lemma_least_exists(net, end, pos, k);
    }
}

/// A tile that a route of `hops` moves arrives on has a hop distance of at
/// most `hops`.
pub proof fn lemma_hop_distance_bound(
    net: Map<TilePos, TileKind>,
    end: TilePos,
    pos: TilePos,
    hops: nat,
)
    requires
        reaches(net, end, pos, hops),
    ensures
        hop_distance(net, end, pos) is Some,
        hop_distance(net, end, pos)->0 <= hops,
        net.dom().contains(pos),
{
    lemma_least_exists(net, end, pos, hops);
    let h = choose|h: nat| h <= hops && is_least(net, end, pos, h);
    lemma_hop_distance_is_least(net, end, pos, h);
    let route = choose|route: Seq<TilePos>|
        #[trigger] is_route(net, end, route) && route.len() == hops + 1 && route.last() == pos;
    if hops > 0 {
        assert(link(net, route, hops as int));
    }
}

/// The end tile is its own route, and the only tile at no moves from itself.
pub proof fn lemma_reaches_end(net: Map<TilePos, TileKind>, end: TilePos, pos: TilePos)
    ensures
        reaches(net, end, pos, 0) <==> pos == end && passable(net, end),
{
    if pos == end && passable(net, end) {
        let route = seq![end];
        assert(is_route(net, end, route) && route.len() == 1 && route.last() == pos);
    }
}

/// A route grows by one allowed move.
pub proof fn lemma_reaches_extend(
    net: Map<TilePos, TileKind>,
    end: TilePos,
    from: TilePos,
    hops: nat,
    to: TilePos,
)
    requires
        reaches(net, end, from, hops),
        step(net, from, to),
    ensures
        reaches(net, end, to, hops + 1),
{
    let route = choose|route: Seq<TilePos>|
        #[trigger] is_route(net, end, route) && route.len() == hops + 1 && route.last() == from;
    let longer = route.push(to);
    assert forall|i: int| 0 < i < longer.len() implies #[trigger] link(net, longer, i) by {
        if i < route.len() {
            assert(link(net, route, i));
        }
    }
    assert(is_route(net, end, longer) && longer.len() == hops + 2 && longer.last() == to);
}

/// A route of at least one move arrives from a tile that a route one move
/// shorter arrives on.
pub proof fn lemma_reaches_shorten(
    net: Map<TilePos, TileKind>,
    end: TilePos,
    pos: TilePos,
    hops: nat,
) -> (from: TilePos)
    requires
        hops > 0,
        reaches(net, end, pos, hops),
    ensures
        reaches(net, end, from, (hops - 1) as nat),
        step(net, from, pos),
{
    let route = choose|route: Seq<TilePos>|
        #[trigger] is_route(net, end, route) && route.len() == hops + 1 && route.last() == pos;
    let shorter = route.drop_last();
    assert forall|i: int| 0 < i < shorter.len() implies #[trigger] link(net, shorter, i) by {
        assert(link(net, route, i));
    }
    assert(is_route(net, end, shorter) && shorter.len() == hops && shorter.last() == route[hops
        - 1]);
    assert(link(net, route, hops as int));
    route[hops - 1]
}

/// A tile at hop distance `hops + 1` is one allowed move from a tile at hop
/// distance `hops`.
pub proof fn lemma_previous_level(
    net: Map<TilePos, TileKind>,
    end: TilePos,
    pos: TilePos,
    hops: nat,
) -> (from: TilePos)
    requires
        hop_distance(net, end, pos) == Some(hops + 1),
    ensures
        hop_distance(net, end, from) == Some(hops),
        step(net, from, pos),
{
    lemma_hop_distance_is_least(net, end, pos, hops + 1);
    let from = lemma_reaches_shorten(net, end, pos, hops + 1);
    lemma_hop_distance_bound(net, end, from, hops);
    let d = hop_distance(net, end, from)->0;
    lemma_hop_distance_is_least(net, end, from, d);
    if d < hops {
        lemma_reaches_extend(net, end, from, d, pos);
        assert(!reaches(net, end, pos, d + 1));
    }
    from
}

/// Where one level of hop distances is empty, every later level is empty.
pub proof fn lemma_levels_end(net: Map<TilePos, TileKind>, end: TilePos, gap: nat, hops: nat)
    requires
        forall|p: TilePos| hop_distance(net, end, p) != Some(gap),
        gap <= hops,
    ensures
        forall|p: TilePos| hop_distance(net, end, p) != Some(hops),
    decreases hops,
{
    if gap < hops {
        lemma_levels_end(net, end, gap, (hops - 1) as nat);
        assert forall|p: TilePos| hop_distance(net, end, p) != Some(hops) by {
            if hop_distance(net, end, p) == Some(hops) {
                let from = lemma_previous_level(net, end, p, (hops - 1) as nat);
            }
        }
    }
}

/// A recorded distance as a number of moves.
pub open spec fn stored(d: Option<usize>) -> Option<nat> {
    match d {
        Some(d) => Some(d as nat),
        None => None,
    }
}

/// The distance that a solve records for `pos` towards `end`: the hop
/// distance, but nothing on a start tile, which no spirit may pass through.
pub open spec fn solved_distance(net: Map<TilePos, TileKind>, end: TilePos, pos: TilePos) -> Option<nat> {
    if net[pos] == TileKind::Start {
        None
    } else {
        hop_distance(net, end, pos)
    }
}

/// The network without its start tiles: each becomes an empty tile.
pub open spec fn without_starts(net: Map<TilePos, TileKind>) -> Map<TilePos, TileKind> {
    Map::new(
        |p: TilePos| net.dom().contains(p),
        |p: TilePos|
            if net[p] == TileKind::Start {
                TileKind::Empty
            } else {
                net[p]
            },
    )
}

/// No route has a start tile anywhere but at its far end.
pub proof fn lemma_route_avoids_starts(
    net: Map<TilePos, TileKind>,
    end: TilePos,
    route: Seq<TilePos>,
    i: int,
)
    requires
        is_route(net, end, route),
        0 <= i < route.len() - 1,
    ensures
        !is_start(net, route[i]),
{
    assert(link(net, route, i + 1));
}

/// A route to a tile that is no start is still a route when every start
/// tile is taken off the network, and the other way round.
pub proof fn lemma_route_without_starts(
    net: Map<TilePos, TileKind>,
    end: TilePos,
    pos: TilePos,
    hops: nat,
)
    requires
        !is_start(net, pos),
    ensures
        reaches(without_starts(net), end, pos, hops) <==> reaches(net, end, pos, hops),
{
    let bare = without_starts(net);
    if reaches(net, end, pos, hops) {
        let route = choose|route: Seq<TilePos>|
            #[trigger] is_route(net, end, route) && route.len() == hops + 1 && route.last() == pos;
        assert forall|i: int| 0 < i < route.len() implies #[trigger] link(bare, route, i) by {
            assert(link(net, route, i));
            if i < route.len() - 1 {
                lemma_route_avoids_starts(net, end, route, i);
            }
        }
        if route.len() > 1 {
            assert(link(net, route, 1));
        }
        assert(is_route(bare, end, route));
    }
    if reaches(bare, end, pos, hops) {
        let route = choose|route: Seq<TilePos>|
            #[trigger] is_route(bare, end, route) && route.len() == hops + 1 && route.last() == pos;
        assert forall|i: int| 0 < i < route.len() implies #[trigger] link(net, route, i) by {
            assert(link(bare, route, i));
            if i > 1 {
                assert(link(bare, route, i - 1));
            }
        }
        assert(is_route(net, end, route));
    }
}

/// Start tiles are opaque to routes: taking every start tile off the network
/// changes the hop distance of no other tile, so it never makes one longer.
pub proof fn lemma_start_opacity(net: Map<TilePos, TileKind>, end: TilePos, pos: TilePos)
    requires
        !is_start(net, pos),
    ensures
        hop_distance(without_starts(net), end, pos) == hop_distance(net, end, pos),
{
    let bare = without_starts(net);
    assert forall|h: nat| reaches(bare, end, pos, h) == reaches(net, end, pos, h) by {
        lemma_route_without_starts(net, end, pos, h);
    }
    match hop_distance(net, end, pos) {
        Some(h) => {
            lemma_hop_distance_is_least(net, end, pos, h);
            assert(is_least(bare, end, pos, h));
            lemma_hop_distance_is_least(bare, end, pos, h);
        },
        None => {},
    }
}

} // verus!
