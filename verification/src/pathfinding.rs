//! The flow-field solver: one flood per end tile over the river network.

use crate::flood::flood;
use crate::grid::{in_bounds, Layer, TilePos};
use crate::route::{
    hop_distance, is_start, lemma_start_opacity, solved_distance, stored, without_starts,
};
use crate::autotile::{autotile, retiled};
use crate::tile::{StartTile, Tile, TileKind};
use crate::tilemap::{network_of, Tilemap};
use vstd::prelude::*;

verus! {

/// Whether a route from one of the first `n` tiles of `ends` arrives on `pos`.
pub open spec fn linked(net: Map<TilePos, TileKind>, ends: Seq<TilePos>, n: int, pos: TilePos) -> bool {
    exists|i: int| 0 <= i < n && (#[trigger] hop_distance(net, ends[i], pos)) is Some
}

/// The tile after a solve: a start tile that is linked to an end has been
/// completed once from then on; nothing else changes.
pub open spec fn solved_tile(tile: Tile, linked: bool) -> Tile {
    match tile {
        Tile::Start(s, p) => Tile::Start(
            StartTile {
                completed_once: s.completed_once || linked,
                spawn_millis: s.spawn_millis,
                lose_counter: s.lose_counter,
            },
            p,
        ),
        _ => tile,
    }
}

/// Recomputes every flow field from nothing and marks the start tiles that
/// a river links to an end. What is recorded on a start tile tells
/// whether a route arrives there; a spirit reads no distance on it.
pub fn pathfinding(map: &mut Tilemap)
    requires
        old(map).wf(),
    ensures
        final(map).wf(),
        final(map).size() == old(map).size(),
        final(map).max_spirits() == old(map).max_spirits(),
        final(map).starts() == old(map).starts(),
        final(map).ends() == old(map).ends(),
        final(map).changed() == old(map).changed(),
        final(map).network() == old(map).network(),
        forall|p: TilePos|
            in_bounds(p, old(map).size()) ==> #[trigger] final(map).tile(p) == solved_tile(
                old(map).tile(p),
                linked(old(map).network(), old(map).ends(), old(map).ends().len() as int, p),
            ),
        final(map).keeps_completed(old(map)),
        final(map).flows_solved(),
{
    let ghost net = map.network();
    let ghost first = map.tiles;
    let size = map.tiles.extent();
    let mut flows: Vec<Layer<Option<usize>>> = Vec::new();
    let mut e: usize = 0;
    while e < map.ends.len()
        invariant
            map.inv(),
            map.tiles.size() == size,
            first.size() == size,
            first == old(map).tiles,
            net == network_of(first),
            network_of(map.tiles) == net,
            map.max_spirits == old(map).max_spirits,
            map.starts@ == old(map).starts@,
            map.ends@ == old(map).ends@,
            map.changed == old(map).changed,
            e <= map.ends@.len(),
            flows@.len() == e,
            forall|k: int|
                0 <= k < e ==> (#[trigger] flows@[k]).wf() && flows@[k].size() == size,
            forall|k: int, p: TilePos|
                0 <= k < e && in_bounds(p, size) ==> stored(#[trigger] flows@[k].at(p))
                    == hop_distance(net, map.ends@[k], p),
            forall|p: TilePos|
                in_bounds(p, size) ==> #[trigger] map.tiles.at(p) == solved_tile(
                    first.at(p),
                    linked(net, map.ends@, e as int, p),
                ),
        decreases map.ends@.len() - e,
    {
        let end = map.ends[e];
        let field = flood(&map.tiles, end);
        let ghost raw = field;
        let ghost entry = map.tiles;
        let mut s: usize = 0;
        while s < map.starts.len()
            invariant
                map.inv(),
                map.tiles.size() == size,
                entry.size() == size,
                network_of(map.tiles) == net,
                network_of(entry) == net,
                map.max_spirits == old(map).max_spirits,
                map.starts@ == old(map).starts@,
                map.ends@ == old(map).ends@,
                map.changed == old(map).changed,
                e < map.ends@.len(),
                end == map.ends@[e as int],
                s <= map.starts@.len(),
                field.wf(),
                field.size() == size,
                raw == field,
                forall|p: TilePos|
                    in_bounds(p, size) ==> stored(#[trigger] raw.at(p)) == hop_distance(
                        net,
                        end,
                        p,
                    ),
                forall|p: TilePos|
                    in_bounds(p, size) ==> #[trigger] map.tiles.at(p) == (if map.starts@.take(
                        s as int,
                    ).contains(p) {
                        solved_tile(entry.at(p), raw.at(p) is Some)
                    } else {
                        entry.at(p)
                    }),
            decreases map.starts@.len() - s,
        {
            let at = map.starts[s];
            let ghost seen = map.starts@.take(s as int);
            let ghost seen_next = map.starts@.take(s + 1);
            proof {
                assert(seen_next =~= seen.push(at));
                assert forall|p: TilePos| seen_next.contains(p) == (seen.contains(p) || p == at) by {
                    if seen.contains(p) {
                        let w = choose|w: int| 0 <= w < seen.len() && seen[w] == p;
                        assert(seen_next[w] == p);
                    }
                    if p == at {
                        assert(seen_next[s as int] == p);
                    }
                }
                assert(!seen.contains(at)) by {
                    if seen.contains(at) {
                        let w = choose|w: int| 0 <= w < seen.len() && seen[w] == at;
                        assert(map.starts@[w] == map.starts@[s as int]);
                    }
                }
            }
            if field.get(at).is_some() {
                let tile = map.tiles.get(at);
                match tile {
                    Tile::Start(state, path) => {
                        let marked = StartTile {
                            completed_once: true,
                            spawn_millis: state.spawn_millis,
                            lose_counter: state.lose_counter,
                        };
                        map.tiles.set(at, Tile::Start(marked, path));
                    },
                    _ => {},
                }
            }
            proof {
                assert(network_of(map.tiles) =~= net);
            }
            s = s + 1;
        }
        proof {
            assert(map.starts@.take(s as int) =~= map.starts@);
            assert forall|p: TilePos| in_bounds(p, size) implies #[trigger] map.tiles.at(p)
                == solved_tile(first.at(p), linked(net, map.ends@, e + 1, p)) by {
                assert(entry.at(p) == solved_tile(first.at(p), linked(net, map.ends@, e as int, p)));
                assert(net[p] == entry.at(p).kind());
                let here = hop_distance(net, map.ends@[e as int], p) is Some;
                assert(linked(net, map.ends@, e + 1, p) == (linked(net, map.ends@, e as int, p)
                    || here)) by {
                    if linked(net, map.ends@, e + 1, p) {
                        let w = choose|w: int|
                            0 <= w < e + 1 && (#[trigger] hop_distance(net, map.ends@[w], p))
                                is Some;
                        if w < e {
                            assert(linked(net, map.ends@, e as int, p));
                        }
                    }
                }
            }
        }
        flows.push(field);
        e = e + 1;
    }
    map.flows = flows;
    proof {
        assert(map.network() =~= old(map).network());
        assert forall|end: TilePos, pos: TilePos|
            map.ends().contains(end) && in_bounds(pos, map.size()) implies stored(
            #[trigger] map.reach(pos, end),
        ) == hop_distance(map.network(), end, pos) by {
            let k = map.ends@.index_of(end);
            assert(stored(map.flows@[k].at(pos)) == hop_distance(net, map.ends@[k], pos));
        }
    }
}

/// On a solved map, the distance that a spirit reads on a tile that is no
/// start is the number of moves of a shortest route from the end to it,
/// and there is none where no route arrives.
pub proof fn lemma_distance_correct(map: &Tilemap, end: TilePos, pos: TilePos)
    requires
        map.flows_solved(),
        map.ends().contains(end),
        in_bounds(pos, map.size()),
        !map.tile(pos).is_start(),
    ensures
        stored(map.distance(pos, end)) == hop_distance(map.network(), end, pos),
{
    map.lemma_distance_solved(pos, end);
}

/// Taking every start tile off the network changes the distance that a
/// solve records on no other tile: no recorded distance counts a route
/// through a start tile.
pub proof fn lemma_solved_without_starts(net: Map<TilePos, TileKind>, end: TilePos, pos: TilePos)
    requires
        net.dom().contains(pos),
        !is_start(net, pos),
    ensures
        solved_distance(without_starts(net), end, pos) == solved_distance(net, end, pos),
{
    lemma_start_opacity(net, end, pos);
}

/// Brings the outlines and the flow fields up to date if the river has
/// changed since they last were, and tells whether it did so. Run after
/// the edits of a tick and before the spirits decide.
pub fn update_river(map: &mut Tilemap) -> (ran: bool)
    requires
        old(map).wf(),
    ensures
        final(map).wf(),
        ran == old(map).changed(),
        !final(map).changed(),
        final(map).size() == old(map).size(),
        final(map).max_spirits() == old(map).max_spirits(),
        final(map).starts() == old(map).starts(),
        final(map).ends() == old(map).ends(),
        final(map).network() == old(map).network(),
        final(map).keeps_completed(old(map)),
        final(map).flows_solved(),
        ran ==> forall|p: TilePos|
            in_bounds(p, old(map).size()) ==> #[trigger] final(map).tile(p) == solved_tile(
                retiled(old(map).network(), p, old(map).tile(p)),
                linked(old(map).network(), old(map).ends(), old(map).ends().len() as int, p),
            ),
        !ran ==> final(map).same_tiles(old(map)) && final(map).same_frame(old(map)),
{
    if !map.changed {
        return false;
    }
    autotile(map);
    proof {
        assert(crate::autotile::kinds(old(map).grid()) =~= old(map).network());
        assert forall|p: TilePos| in_bounds(p, old(map).size()) implies #[trigger] map.tile(p)
            == retiled(old(map).network(), p, old(map).tile(p)) by {
            assert(map.grid()[p] == map.tile(p));
            assert(old(map).grid()[p] == old(map).tile(p));
        }
    }
    pathfinding(map);
    let ghost solved = *map;
    map.changed = false;
    proof {
        assert forall|end: TilePos, pos: TilePos|
            map.ends().contains(end) && in_bounds(pos, map.size()) implies stored(
            #[trigger] map.reach(pos, end),
        ) == hop_distance(map.network(), end, pos) by {
            assert(map.reach(pos, end) == solved.reach(pos, end));
        }
    }
    true
}

} // verus!
