//! Breadth-first flood of the river network from one end tile.

use crate::grid::{get_neighbours, in_bounds, lemma_index, lemma_neighbours, neighbours, spec_index, Layer, TilePos};
use crate::route::{
    hop_distance, is_start, lemma_hop_distance_bound, lemma_hop_distance_is_least,
    lemma_levels_end, lemma_previous_level, lemma_reaches_end, lemma_reaches_extend, passable,
    step, stored,
};
use crate::tile::{Tile, TileKind};
use crate::tilemap::network_of;
use vstd::prelude::*;

verus! {

/// How many entries of `s` are `None`.
pub open spec fn count_none(s: Seq<Option<usize>>) -> nat
    decreases s.len(),
{
    if s.len() == 0 {
        0
    } else {
        count_none(s.drop_last()) + if s.last() is None {
            1nat
        } else {
            0nat
        }
    }
}

/// No more entries are `None` than there are entries.
proof fn lemma_count_none_bound(s: Seq<Option<usize>>)
    ensures
        count_none(s) <= s.len(),
    decreases s.len(),
{
    if s.len() > 0 {
        lemma_count_none_bound(s.drop_last());
    }
}

/// Filling an entry that was `None` leaves one `None` fewer.
proof fn lemma_count_none_update(s: Seq<Option<usize>>, i: int, v: usize)
    requires
        0 <= i < s.len(),
        s[i] is None,
    ensures
        count_none(s.update(i, Some(v))) + 1 == count_none(s),
    decreases s.len(),
{
    let t = s.update(i, Some(v));
    if i == s.len() - 1 {
        assert(t.drop_last() =~= s.drop_last());
    } else {
        lemma_count_none_update(s.drop_last(), i, v);
        assert(t.drop_last() =~= s.drop_last().update(i, Some(v)));
    }
}

/// The hop distance of `pos` where it is at most `hops`, as it is stored.
pub open spec fn within(net: Map<TilePos, TileKind>, end: TilePos, pos: TilePos, hops: nat) -> Option<usize> {
    match hop_distance(net, end, pos) {
        Some(d) => if d <= hops {
            Some(d as usize)
        } else {
            None
        },
        None => None,
    }
}

/// Whether `field` holds the hop distance of every tile within `hops` moves
/// of `end`, and nothing for any other tile.
pub open spec fn level_solved(
    net: Map<TilePos, TileKind>,
    end: TilePos,
    field: Layer<Option<usize>>,
    hops: nat,
) -> bool {
    forall|p: TilePos|
        in_bounds(p, field.size()) ==> #[trigger] field.at(p) == within(net, end, p, hops)
}

/// Whether `frontier` lists exactly the tiles that `field` puts at `hops`.
pub open spec fn is_level(field: Layer<Option<usize>>, frontier: Seq<TilePos>, hops: usize) -> bool {
    &&& forall|i: int|
        0 <= i < frontier.len() ==> in_bounds(#[trigger] frontier[i], field.size()) && field.at(
            frontier[i],
        ) == Some(hops)
    &&& forall|p: TilePos|
        in_bounds(p, field.size()) && #[trigger] field.at(p) == Some(hops) ==> frontier.contains(p)
}

/// Whether every tile that a route may move to from `from` has a distance.
pub open spec fn closed_at(
    net: Map<TilePos, TileKind>,
    field: Layer<Option<usize>>,
    from: TilePos,
) -> bool {
    forall|q: TilePos|
        in_bounds(q, field.size()) && step(net, from, q) ==> (#[trigger] field.at(q)) is Some
}

/// The state of a flood while the tiles at `hops` are expanded: `before`
/// is the field when the level began, `done` counts the tiles of the
/// frontier already expanded, and `next` collects the tiles found since.
pub open spec fn expanding(
    net: Map<TilePos, TileKind>,
    end: TilePos,
    before: Layer<Option<usize>>,
    field: Layer<Option<usize>>,
    frontier: Seq<TilePos>,
    done: int,
    next: Seq<TilePos>,
    hops: usize,
) -> bool {
    &&& field.wf()
    &&& field.size() == before.size()
    &&& hops < usize::MAX
    &&& forall|p: TilePos|
        in_bounds(p, field.size()) && (#[trigger] before.at(p)) is Some ==> field.at(p)
            == before.at(p)
    &&& forall|p: TilePos|
        in_bounds(p, field.size()) && before.at(p) is None && (#[trigger] field.at(p)) is Some
            ==> field.at(p) == Some((hops + 1) as usize) && hop_distance(net, end, p) == Some(
            (hops + 1) as nat,
        )
    &&& forall|j: int| 0 <= j < done ==> closed_at(net, field, #[trigger] frontier[j])
    &&& forall|i: int|
        0 <= i < next.len() ==> in_bounds(#[trigger] next[i], field.size()) && before.at(next[i])
            is None && field.at(next[i]) is Some
    &&& forall|p: TilePos|
        in_bounds(p, field.size()) && before.at(p) is None && (#[trigger] field.at(p)) is Some
            ==> next.contains(p)
    &&& count_none(field.cells()) + next.len() == count_none(before.cells())
}

/// Once every tile of the frontier is expanded, the field is solved one
/// level further and the tiles found are that level.
proof fn lemma_level_done(
    net: Map<TilePos, TileKind>,
    end: TilePos,
    before: Layer<Option<usize>>,
    field: Layer<Option<usize>>,
    frontier: Seq<TilePos>,
    next: Seq<TilePos>,
    hops: usize,
)
    requires
        net == network_of_size(net, before.size()),
        level_solved(net, end, before, hops as nat),
        is_level(before, frontier, hops),
        expanding(net, end, before, field, frontier, frontier.len() as int, next, hops),
    ensures
        level_solved(net, end, field, (hops + 1) as nat),
        is_level(field, next, (hops + 1) as usize),
{
    assert forall|p: TilePos| in_bounds(p, field.size()) implies #[trigger] field.at(p) == within(
        net,
        end,
        p,
        (hops + 1) as nat,
    ) by {
        assert(before.at(p) == within(net, end, p, hops as nat));
        if before.at(p) is None && field.at(p) is None && hop_distance(net, end, p) == Some(
            (hops + 1) as nat,
        ) {
            let from = lemma_previous_level(net, end, p, hops as nat);
            lemma_hop_distance_is_least(net, end, from, hops as nat);
            lemma_hop_distance_bound(net, end, from, hops as nat);
            assert(in_bounds(from, before.size()));
            assert(before.at(from) == within(net, end, from, hops as nat));
            assert(frontier.contains(from));
            let j = choose|j: int| 0 <= j < frontier.len() && frontier[j] == from;
            assert(closed_at(net, field, frontier[j]));
            assert(field.at(p) is Some);
        }
    }
    assert forall|p: TilePos|
        in_bounds(p, field.size()) && #[trigger] field.at(p) == Some(
            (hops + 1) as usize,
        ) implies next.contains(p) by {
        assert(before.at(p) == within(net, end, p, hops as nat));
    }
}

/// The domain of `net` is the grid of extent `size`.
pub open spec fn network_of_size(net: Map<TilePos, TileKind>, size: crate::grid::TilemapSize) -> Map<TilePos, TileKind> {
    Map::new(|p: TilePos| in_bounds(p, size), |p: TilePos| net[p])
}

/// Once a level is empty, the field holds the hop distance of every tile.
proof fn lemma_flood_done(
    net: Map<TilePos, TileKind>,
    end: TilePos,
    field: Layer<Option<usize>>,
    hops: usize,
)
    requires
        net == network_of_size(net, field.size()),
        level_solved(net, end, field, hops as nat),
        is_level(field, Seq::<TilePos>::empty(), hops),
    ensures
        forall|p: TilePos|
            in_bounds(p, field.size()) ==> stored(#[trigger] field.at(p)) == hop_distance(
                net,
                end,
                p,
            ),
{
    assert forall|p: TilePos| hop_distance(net, end, p) != Some(hops as nat) by {
        if hop_distance(net, end, p) == Some(hops as nat) {
            lemma_hop_distance_is_least(net, end, p, hops as nat);
            lemma_hop_distance_bound(net, end, p, hops as nat);
            assert(field.at(p) == within(net, end, p, hops as nat));
            assert(Seq::<TilePos>::empty().contains(p));
        }
    }
    assert forall|p: TilePos| in_bounds(p, field.size()) implies stored(#[trigger] field.at(p))
        == hop_distance(net, end, p) by {
        assert(field.at(p) == within(net, end, p, hops as nat));
        match hop_distance(net, end, p) {
            Some(d) => {
                if d >= hops {
                    lemma_levels_end(net, end, hops as nat, d);
                }
            },
            None => {},
        }
    }
}

/// Floods the network of `tiles` from `end`: the result holds, for every
/// tile, the number of moves of a shortest route from `end` to it, and
/// `None` where no route arrives.
pub fn flood(tiles: &Layer<Tile>, end: TilePos) -> (field: Layer<Option<usize>>)
    requires
        tiles.wf(),
        in_bounds(end, tiles.size()),
        tiles.at(end).is_path(),
    ensures
        field.wf(),
        field.size() == tiles.size(),
        forall|p: TilePos|
            in_bounds(p, tiles.size()) ==> stored(#[trigger] field.at(p)) == hop_distance(
                network_of(*tiles),
                end,
                p,
            ),
{
    let size = tiles.extent();
    let ghost net = network_of(*tiles);
    let mut field: Layer<Option<usize>> = Layer::new(size, None);
    let ghost blank = field;
    field.set(end, Some(0));
    let mut frontier: Vec<TilePos> = Vec::new();
    frontier.push(end);
    let mut hops: usize = 0;
    proof {
        assert(net =~= network_of_size(net, size));
        lemma_index(end, size);
        lemma_count_none_update(blank.cells(), spec_index(end, size), 0);
        lemma_count_none_bound(blank.cells());
        assert forall|p: TilePos| in_bounds(p, size) implies #[trigger] field.at(p) == within(
            net,
            end,
            p,
            0,
        ) by {
            lemma_index(p, size);
            lemma_reaches_end(net, end, p);
            if p == end {
                lemma_hop_distance_is_least(net, end, p, 0);
            } else {
                match hop_distance(net, end, p) {
                    Some(d) => {
                        lemma_hop_distance_is_least(net, end, p, d);
                    },
                    None => {},
                }
            }
        }
        assert(frontier@[0] == end);
        assert forall|p: TilePos| in_bounds(p, size) && p != end implies (#[trigger] field.at(
            p,
        )) is None by {
            lemma_index(p, size);
        }
    }
    while frontier.len() > 0
        invariant
            tiles.wf(),
            size == tiles.size(),
            net == network_of(*tiles),
            net == network_of_size(net, size),
            field.wf(),
            field.size() == size,
            level_solved(net, end, field, hops as nat),
            is_level(field, frontier@, hops),
            frontier@.len() > 0 ==> hops + count_none(field.cells()) + 1 <= field.cells().len(),
        decreases
            count_none(field.cells()) + (if frontier@.len() > 0 {
                1nat
            } else {
                0nat
            }),
    {
        let ghost before = field;
        let mut next: Vec<TilePos> = Vec::new();
        let mut i: usize = 0;
        proof {
            lemma_count_none_bound(field.cells());
        }
        while i < frontier.len()
            invariant
                tiles.wf(),
                size == tiles.size(),
                net == network_of(*tiles),
                net == network_of_size(net, size),
                before.size() == size,
                before.wf(),
                level_solved(net, end, before, hops as nat),
                is_level(before, frontier@, hops),
                hops + count_none(before.cells()) + 1 <= before.cells().len(),
                i <= frontier@.len(),
                expanding(net, end, before, field, frontier@, i as int, next@, hops),
            decreases frontier@.len() - i,
        {
            let from = frontier[i];
            if !tiles.get(from).is_start() {
                let around = get_neighbours(&from, &size);
                let mut j: usize = 0;
                proof {
                    lemma_neighbours(from, size);
                }
                while j < around.len()
                    invariant
                        tiles.wf(),
                        size == tiles.size(),
                        net == network_of(*tiles),
                        net == network_of_size(net, size),
                        before.size() == size,
                        before.wf(),
                        level_solved(net, end, before, hops as nat),
                        is_level(before, frontier@, hops),
                        hops + count_none(before.cells()) + 1 <= before.cells().len(),
                        i < frontier@.len(),
                        from == frontier@[i as int],
                        !is_start(net, from),
                        around@ == neighbours(from, size),
                        forall|q: TilePos|
                            around@.contains(q) <==> in_bounds(q, size) && crate::grid::adjacent(
                                from,
                                q,
                            ),
                        j <= around@.len(),
                        expanding(net, end, before, field, frontier@, i as int, next@, hops),
                        forall|t: int|
                            0 <= t < j && passable(net, #[trigger] around@[t]) ==> field.at(
                                around@[t],
                            ) is Some,
                    decreases around@.len() - j,
                {
                    let to = around[j];
                    assert(around@.contains(to));
                    if tiles.get(to).is_path() && field.get(to).is_none() {
                        proof {
                            lemma_index(to, size);
                            lemma_count_none_update(
                                field.cells(),
                                spec_index(to, size),
                                (hops + 1) as usize,
                            );
                            assert(before.at(to) is None);
                            assert(before.at(to) == within(net, end, to, hops as nat));
                            assert(before.at(from) == within(net, end, from, hops as nat));
                            lemma_hop_distance_is_least(net, end, from, hops as nat);
                            assert(step(net, from, to));
                            lemma_reaches_extend(net, end, from, hops as nat, to);
                            lemma_hop_distance_bound(net, end, to, (hops + 1) as nat);
                        }
                        let ghost prior = field;
                        let ghost found = next@;
                        field.set(to, Some(hops + 1));
                        next.push(to);
                        proof {
                            assert forall|k: int| 0 <= k < i implies closed_at(
                                net,
                                field,
                                #[trigger] frontier@[k],
                            ) by {
                                assert(closed_at(net, prior, frontier@[k]));
                            }
                            assert forall|p: TilePos|
                                in_bounds(p, field.size()) && before.at(p) is None && (
                                #[trigger] field.at(p)) is Some implies next@.contains(p) by {
                                if p == to {
                                    assert(next@[next@.len() - 1] == to);
                                } else {
                                    assert(prior.at(p) is Some);
                                    assert(found.contains(p));
                                    let w = choose|w: int| 0 <= w < found.len() && found[w] == p;
                                    assert(next@[w] == p);
                                }
                            }
                        }
                    }
                    j = j + 1;
                }
                proof {
                    assert forall|q: TilePos|
                        in_bounds(q, field.size()) && step(net, from, q) implies (
                    #[trigger] field.at(q)) is Some by {
                        assert(around@.contains(q));
                        let t = choose|t: int| 0 <= t < around@.len() && around@[t] == q;
                        assert(passable(net, around@[t]));
                    }
                }
            }
            i = i + 1;
        }
        proof {
            lemma_level_done(net, end, before, field, frontier@, next@, hops);
        }
        frontier = next;
        hops = hops + 1;
    }
    proof {
        assert(frontier@ =~= Seq::<TilePos>::empty());
        lemma_flood_done(net, end, field, hops);
    }
    field
}

} // verus!
