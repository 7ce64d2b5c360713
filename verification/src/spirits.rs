//! Spirits: where they stand, where they are bound for, and the decision
//! each takes when it arrives on a tile.

use crate::grid::{in_bounds, TilePos};
use crate::random::random_below;
use crate::steering::{choice, choose_offer, lemma_choice, offers_at, qualifies, Jitter, Offer};
use crate::tile::{
    PathTile, StartTile, Tile, LOSE_COUNT, MIN_SPAWN_MILLIS, SPAWN_STEP_MILLIS,
};
use crate::tilemap::Tilemap;
use vstd::prelude::*;

verus! {

/// A spirit on the map.
#[derive(Clone, Copy, Debug, PartialEq, Eq, Structural)]
pub struct Spirit {
    /// The tile that the spirit last set out from.
    pub prev_tile: TilePos,
    /// The tile that the spirit stands on.
    pub curr_tile: TilePos,
    /// The distance to its end that the spirit has to improve on; `None`
    /// while any distance will do.
    pub curr_distance: Option<usize>,
    /// The tile that the spirit is bound for.
    pub next_tile: Option<TilePos>,
    /// The end that the spirit has chosen.
    pub selected_end: Option<TilePos>,
}

/// What a spirit does after one decision.
#[derive(Clone, Copy, Debug, PartialEq, Eq, Structural)]
pub enum Decision {
    /// It is on its way to the tile it is bound for, or off the grid.
    Travelling,
    /// It has arrived on an end tile and leaves the map.
    Arrived,
    /// It stands on no river with no river beside it, and is removed.
    Stranded,
    /// No tile around it will do: it waits where it is.
    Stalled,
    /// It sets out for the tile.
    Advance(TilePos),
}

/// A decision with what it leaves behind: the spirit afterwards, the tile
/// that one more spirit is bound for, and the tile that one spirit fewer
/// is bound for.
pub struct Outcome {
    pub decision: Decision,
    pub spirit: Spirit,
    pub bound: Option<TilePos>,
    pub freed: Option<TilePos>,
}

impl Spirit {
    /// A spirit that has just appeared on `curr_tile`.
    pub fn new(curr_tile: TilePos) -> (r: Self)
        ensures
            r == (Spirit {
                prev_tile: curr_tile,
                curr_tile,
                curr_distance: None,
                next_tile: None,
                selected_end: None,
            }),
    {
        Spirit {
            prev_tile: curr_tile,
            curr_tile,
            curr_distance: None,
            next_tile: None,
            selected_end: None,
        }
    }

    /// Whether the river tile `pos` that a spirit stands on has been cut
    /// off from `end`: it carries a river, and nothing is recorded on it
    /// for the way from `end`. A start tile is cut off like any other: a
    /// spirit reads no distance on it, yet what is recorded tells whether a
    /// route from `end` arrives there.
    pub open spec fn cut_off(map: &Tilemap, pos: TilePos, end: TilePos) -> bool {
        map.tile(pos).is_path() && map.reach(pos, end) is None
    }

    /// The spirit once it has noticed that the tile `pos` it stands on has
    /// been cut off from the end it had chosen: it forgets the end, the
    /// tile it was bound for and the distance it held. Otherwise it is as
    /// it was.
    pub open spec fn noticing(self, map: &Tilemap, pos: TilePos) -> Spirit {
        if self.selected_end matches Some(end) && Self::cut_off(map, pos, end) {
            Spirit {
                prev_tile: self.prev_tile,
                curr_tile: self.curr_tile,
                curr_distance: None,
                next_tile: None,
                selected_end: None,
            }
        } else {
            self
        }
    }

    /// The distance that the spirit has to improve on while it stands on
    /// `pos`: what is recorded there towards its chosen end, else what it
    /// held before; and none at all where `pos` carries no river.
    pub open spec fn holding(self, map: &Tilemap, pos: TilePos) -> Option<usize> {
        if !map.tile(pos).is_path() {
            None
        } else {
            match self.selected_end {
                Some(end) => match map.distance(pos, end) {
                    Some(d) => Some(d),
                    None => self.curr_distance,
                },
                None => self.curr_distance,
            }
        }
    }

    /// The decision of the spirit when it is found on the tile `pos`, with
    /// the random numbers `jitter`. Off the grid nothing happens. Else the
    /// spirit first notices an end that the tile it stands on, start tile
    /// or not, was cut off from. While it is bound for
    /// a tile and still stands where it stood, or has not reached that tile
    /// yet, it travels on. Once there, or bound for nothing, it decides: on
    /// an end tile it arrives; on no river and with no offer around it is
    /// stranded; else it takes the offer chosen for it, sets out from
    /// `pos`, and from then on holds the end and the distance of that
    /// offer. With no offer to take it stalls and forgets its end.
    pub open spec fn outcome(self, map: &Tilemap, pos: TilePos, jitter: Jitter) -> Outcome {
        let aware = self.noticing(map, pos);
        let here = Spirit { curr_tile: pos, ..aware };
        let idle = Spirit { next_tile: None, ..here };
        let held = idle.holding(map, pos);
        let offers = offers_at(map, idle.selected_end, pos, jitter);
        if !in_bounds(pos, map.size()) {
            Outcome { decision: Decision::Travelling, spirit: self, bound: None, freed: None }
        } else if aware.next_tile is Some && aware.selected_end is Some && aware.curr_tile == pos {
            Outcome { decision: Decision::Travelling, spirit: aware, bound: None, freed: None }
        } else if here.next_tile matches Some(next) && next != pos {
            Outcome { decision: Decision::Travelling, spirit: here, bound: None, freed: None }
        } else if map.tile(pos).is_end() {
            Outcome { decision: Decision::Arrived, spirit: idle, bound: None, freed: Some(pos) }
        } else if offers.len() == 0 && !map.tile(pos).is_path() {
            Outcome {
                decision: Decision::Stranded,
                spirit: Spirit { curr_distance: None, ..idle },
                bound: None,
                freed: None,
            }
        } else {
            match choice(offers, idle.prev_tile, held, map.max_spirits(), jitter.pick) {
                Some(taken) => Outcome {
                    decision: Decision::Advance(taken.tile),
                    spirit: Spirit {
                        prev_tile: pos,
                        curr_tile: pos,
                        curr_distance: Some(taken.goal->0.distance),
                        next_tile: Some(taken.tile),
                        selected_end: Some(taken.goal->0.end),
                    },
                    bound: Some(taken.tile),
                    freed: Some(pos),
                },
                None => Outcome {
                    decision: Decision::Stalled,
                    spirit: Spirit { curr_distance: held, selected_end: None, ..idle },
                    bound: None,
                    freed: None,
                },
            }
        }
    }
}

/// The tile at `pos` after a decision with the given outcome: one spirit
/// more where the spirit is bound for, one fewer where it set out from.
pub open spec fn settled(tile: Tile, pos: TilePos, outcome: Outcome) -> Tile {
    if outcome.bound == Some(pos) {
        tile.bound()
    } else if outcome.freed == Some(pos) {
        tile.freed()
    } else {
        tile
    }
}

/// Whether `post` and `after` are what the decision of the spirit `before`
/// on the map `pre`, found on `pos` with the random numbers `jitter`,
/// leaves behind.
pub open spec fn decided(
    pre: &Tilemap,
    post: &Tilemap,
    before: Spirit,
    after: Spirit,
    pos: TilePos,
    jitter: Jitter,
    decision: Decision,
) -> bool {
    let outcome = before.outcome(pre, pos, jitter);
    &&& decision == outcome.decision
    &&& after == outcome.spirit
    &&& post.same_frame(pre)
    &&& post.changed() == pre.changed()
    &&& post.keeps_completed(pre)
    &&& forall|p: TilePos|
        in_bounds(p, pre.size()) ==> #[trigger] post.tile(p) == settled(pre.tile(p), p, outcome)
}

/// A spirit only sets out for a river tile beside it that is no start and
/// that has room for one more spirit. It goes back to the tile it came
/// from only where no other tile around it has room and brings it nearer.
pub proof fn lemma_outcome(spirit: Spirit, map: &Tilemap, pos: TilePos, jitter: Jitter)
    requires
        map.wf(),
    ensures
        spirit.outcome(map, pos, jitter).decision matches Decision::Advance(tile) ==> {
            let chosen = spirit.noticing(map, pos).selected_end;
            let held = (Spirit { curr_tile: pos, next_tile: None, ..spirit.noticing(map, pos) }).holding(
                map,
                pos,
            );
            let offers = offers_at(map, chosen, pos, jitter);
            &&& in_bounds(tile, map.size())
            &&& crate::grid::adjacent(pos, tile)
            &&& map.tile(tile).is_path()
            &&& !map.tile(tile).is_start()
            &&& map.tile(tile).count() < map.max_spirits()
            &&& tile == spirit.prev_tile ==> forall|i: int|
                0 <= i < offers.len() && qualifies(#[trigger] offers[i], held, map.max_spirits())
                    ==> offers[i].tile == spirit.prev_tile
        },
{
    let aware = spirit.noticing(map, pos);
    let idle = Spirit { curr_tile: pos, next_tile: None, ..aware };
    let held = idle.holding(map, pos);
    let offers = offers_at(map, idle.selected_end, pos, jitter);
    let around = crate::autotile::river_sides(map.network(), pos);
    lemma_choice(offers, idle.prev_tile, held, map.max_spirits(), jitter.pick);
    crate::steering::lemma_offers_upto(map, idle.selected_end, around, jitter, around.len() as int);
    if spirit.outcome(map, pos, jitter).decision matches Decision::Advance(tile) {
        let taken = choice(offers, idle.prev_tile, held, map.max_spirits(), jitter.pick)->0;
        let k = choose|k: int| 0 <= k < offers.len() && offers[k] == taken;
        assert(offers[k] == taken);
        assert(crate::steering::listed(around, around.len() as int, taken.tile));
        let i = choose|i: int| 0 <= i < around.len() && #[trigger] around[i] == taken.tile;
        crate::autotile::lemma_river_sides_passable(map.network(), pos, i);
    }
}

/// On a map whose distances are up to date, a spirit that sets out has
/// chosen an end of the map and holds the number of moves of a shortest
/// route from that end to the tile it is bound for; and that number is
/// smaller than the distance it had to improve on.
pub proof fn lemma_advance_is_nearer(spirit: Spirit, map: &Tilemap, pos: TilePos, jitter: Jitter)
    requires
        map.wf(),
        !map.changed(),
        spirit.outcome(map, pos, jitter).decision is Advance,
    ensures
        ({
            let tile = spirit.outcome(map, pos, jitter).decision->Advance_0;
            let after = spirit.outcome(map, pos, jitter).spirit;
            let before = Spirit { curr_tile: pos, next_tile: None, ..spirit.noticing(map, pos) };
            &&& after.next_tile == Some(tile)
            &&& after.selected_end matches Some(end)
            &&& after.curr_distance matches Some(left)
            &&& map.ends().contains(end)
            &&& crate::route::hop_distance(map.network(), end, tile) == Some(left as nat)
            &&& before.holding(map, pos) matches Some(held) ==> left < held
        }),
{
    let aware = spirit.noticing(map, pos);
    let idle = Spirit { curr_tile: pos, next_tile: None, ..aware };
    let held = idle.holding(map, pos);
    let offers = offers_at(map, idle.selected_end, pos, jitter);
    let around = crate::autotile::river_sides(map.network(), pos);
    lemma_outcome(spirit, map, pos, jitter);
    lemma_choice(offers, idle.prev_tile, held, map.max_spirits(), jitter.pick);
    crate::steering::lemma_offers_upto(map, idle.selected_end, around, jitter, around.len() as int);
    let taken = choice(offers, idle.prev_tile, held, map.max_spirits(), jitter.pick)->0;
    let k = choose|k: int| 0 <= k < offers.len() && offers[k] == taken;
    assert(offers[k] == taken);
    assert(crate::steering::leads(map, idle.selected_end, taken));
    let roll = choose|roll: usize|
        taken.goal == #[trigger] crate::steering::goal_for(map, idle.selected_end, taken.tile, roll);
    crate::steering::lemma_goal_is_true(map, idle.selected_end, taken.tile, roll);
}

/// A spirit decides once for each tile it is on: found again on the tile it
/// has just set out from, start tile or not, it travels on, and the second
/// decision changes neither the spirit nor any count.
pub proof fn lemma_decides_once(
    spirit: Spirit,
    map: &Tilemap,
    post: &Tilemap,
    pos: TilePos,
    first: Jitter,
    second: Jitter,
)
    requires
        map.wf(),
        !map.changed(),
        spirit.outcome(map, pos, first).decision is Advance,
        decided(
            map,
            post,
            spirit,
            spirit.outcome(map, pos, first).spirit,
            pos,
            first,
            spirit.outcome(map, pos, first).decision,
        ),
    ensures
        spirit.outcome(map, pos, first).spirit.outcome(post, pos, second) == (Outcome {
            decision: Decision::Travelling,
            spirit: spirit.outcome(map, pos, first).spirit,
            bound: None,
            freed: None,
        }),
{
    let after = spirit.outcome(map, pos, first).spirit;
    let tile = spirit.outcome(map, pos, first).decision->Advance_0;
    let net = map.network();
    lemma_outcome(spirit, map, pos, first);
    lemma_advance_is_nearer(spirit, map, pos, first);
    let end = after.selected_end->0;
    let left = after.curr_distance->0;
    assert(post.tile(pos) == settled(map.tile(pos), pos, spirit.outcome(map, pos, first)));
    assert(post.reach(pos, end) == map.reach(pos, end));
    if map.tile(pos).is_path() {
        crate::route::lemma_hop_distance_is_least(net, end, tile, left as nat);
        assert(crate::route::step(net, tile, pos));
        crate::route::lemma_reaches_extend(net, end, tile, left as nat, pos);
        crate::route::lemma_hop_distance_bound(net, end, pos, (left + 1) as nat);
        assert(crate::route::stored(map.reach(pos, end)) == crate::route::hop_distance(
            net,
            end,
            pos,
        ));
    }
    assert(!Spirit::cut_off(post, pos, end));
}

/// On a map whose distances are up to date, a river tile, start tiles
/// included, is cut off from an end of the map exactly when no route from
/// that end arrives on it.
pub proof fn lemma_cut_off(map: &Tilemap, pos: TilePos, end: TilePos)
    requires
        map.wf(),
        !map.changed(),
        in_bounds(pos, map.size()),
        map.ends().contains(end),
    ensures
        Spirit::cut_off(map, pos, end) == (map.tile(pos).is_path() && crate::route::hop_distance(
            map.network(),
            end,
            pos,
        ) is None),
{
    assert(crate::route::stored(map.reach(pos, end)) == crate::route::hop_distance(
        map.network(),
        end,
        pos,
    ));
}

/// Frees the end tile `end` of a spirit that has arrived on it.
pub fn clear_end_count(map: &mut Tilemap, end: TilePos)
    requires
        old(map).wf(),
    ensures
        final(map).wf(),
        final(map).same_frame(old(map)),
        final(map).changed() == old(map).changed(),
        final(map).keeps_completed(old(map)),
        final(map).same_tiles_but(old(map), end, end),
        in_bounds(end, old(map).size()) ==> final(map).tile(end) == (if old(map).tile(
            end,
        ).is_end() {
            old(map).tile(end).freed()
        } else {
            old(map).tile(end)
        }),
{
    if map.contains(end) {
        let tile = map.tiles.get(end);
        if tile.is_end() {
            map.put_tile(end, tile.freed(), false);
        }
    }
}

/// Takes the decision of `spirit`, found on the tile `tile_pos`, with the
/// random numbers `jitter`, and books it on the map. Spirits decide on
/// distances that are up to date: the river is to be brought up to date
/// after the edits of a tick and before any spirit decides.
pub fn advance(map: &mut Tilemap, spirit: &mut Spirit, tile_pos: TilePos, jitter: Jitter) -> (decision:
    Decision)
    requires
        old(map).wf(),
        !old(map).changed(),
    ensures
        final(map).wf(),
        decided(old(map), final(map), *old(spirit), *final(spirit), tile_pos, jitter, decision),
{
    if !map.contains(tile_pos) {
        return Decision::Travelling;
    }
    let here = map.tiles.get(tile_pos);
    match spirit.selected_end {
        Some(end) => {
            if here.is_path() && map.reach_to(tile_pos, end).is_none() {
                spirit.selected_end = None;
                spirit.next_tile = None;
                spirit.curr_distance = None;
            }
        },
        None => {},
    }
    if spirit.next_tile.is_some() && spirit.selected_end.is_some() && spirit.curr_tile.x
        == tile_pos.x && spirit.curr_tile.y == tile_pos.y {
        return Decision::Travelling;
    }
    spirit.curr_tile = tile_pos;
    match spirit.next_tile {
        Some(next) => {
            if next.x != tile_pos.x || next.y != tile_pos.y {
                return Decision::Travelling;
            }
        },
        None => {},
    }
    spirit.next_tile = None;
    if here.is_end() {
        clear_end_count(map, tile_pos);
        return Decision::Arrived;
    }
    let held = if !here.is_path() {
        None
    } else {
        match spirit.selected_end {
            Some(end) => match map.distance_to(tile_pos, end) {
                Some(d) => Some(d),
                None => spirit.curr_distance,
            },
            None => spirit.curr_distance,
        }
    };
    let offers = map.offers(spirit.selected_end, tile_pos, jitter);
    if offers.len() == 0 && !here.is_path() {
        spirit.curr_distance = None;
        return Decision::Stranded;
    }
    proof {
        lemma_outcome(*old(spirit), map, tile_pos, jitter);
        lemma_choice(offers@, spirit.prev_tile, held, map.max_spirits, jitter.pick);
    }
    match choose_offer(&offers, spirit.prev_tile, held, map.max_spirits, jitter.pick) {
        None => {
            spirit.curr_distance = held;
            spirit.selected_end = None;
            Decision::Stalled
        },
        Some(taken) => {
            match taken.goal {
                Some(goal) => {
                    spirit.curr_distance = Some(goal.distance);
                    spirit.selected_end = Some(goal.end);
                },
                None => {},
            }
            spirit.prev_tile = tile_pos;
            spirit.next_tile = Some(taken.tile);
            let target = map.tiles.get(taken.tile);
            map.put_tile(taken.tile, target.bound(), false);
            map.put_tile(tile_pos, here.freed(), false);
            Decision::Advance(taken.tile)
        },
    }
}

/// Takes the decision of `spirit`, found on the tile `tile_pos`, and books
/// it on the map. Ties are settled by chance. The river is to be brought
/// up to date before any spirit decides.
pub fn next_tile_spirit(map: &mut Tilemap, spirit: &mut Spirit, tile_pos: TilePos) -> (decision:
    Decision)
    requires
        old(map).wf(),
        !old(map).changed(),
    ensures
        final(map).wf(),
        exists|jitter: Jitter|
            decided(old(map), final(map), *old(spirit), *final(spirit), tile_pos, jitter, decision),
{
    let jitter = Jitter {
        first: random_below(usize::MAX),
        second: random_below(usize::MAX),
        third: random_below(usize::MAX),
        fourth: random_below(usize::MAX),
        pick: random_below(usize::MAX),
    };
    advance(map, spirit, tile_pos, jitter)
}

/// The most spirits that may wait on a start tile before it stops spawning.
pub const SPAWN_ROOM: u32 = 2;

/// The most spirits that may wait on a start tile of a map that allows
/// `max_spirits` on one tile.
pub open spec fn spawn_room(max_spirits: u32) -> u32 {
    if max_spirits < SPAWN_ROOM {
        max_spirits
    } else {
        SPAWN_ROOM
    }
}

/// The spawn interval after a spawn: a step shorter, but not below the
/// shortest interval, and never longer than before.
pub open spec fn shortened(millis: u32) -> u32 {
    if millis <= MIN_SPAWN_MILLIS {
        millis
    } else if millis - SPAWN_STEP_MILLIS < MIN_SPAWN_MILLIS {
        MIN_SPAWN_MILLIS
    } else {
        (millis - SPAWN_STEP_MILLIS) as u32
    }
}

/// Whether a spawn attempt on the start tile `tile` succeeds: a river has
/// linked the tile to an end before, and fewer spirits wait on it than it
/// has room for.
pub open spec fn spawns(tile: Tile, max_spirits: u32) -> bool {
    &&& tile matches Tile::Start(state, path)
    &&& state.completed_once
    &&& path.count < spawn_room(max_spirits)
}

/// Whether the congestion counter of `tile` can still rise by one.
pub open spec fn countable(tile: Tile) -> bool {
    tile matches Tile::Start(state, _) ==> state.lose_counter < u32::MAX
}

/// The start tile `tile` after a spawn attempt. An attempt that spawns
/// nothing raises the congestion counter by one and leaves count and
/// interval as they are. A spawn takes one off the counter, down to nought
/// at most, shortens the interval and leaves one more spirit waiting on the
/// tile. Every attempt counts, whatever the counter has reached.
pub open spec fn attempted(tile: Tile, max_spirits: u32) -> Tile {
    match tile {
        Tile::Start(state, path) => if spawns(tile, max_spirits) {
            Tile::Start(
                StartTile {
                    completed_once: true,
                    spawn_millis: shortened(state.spawn_millis),
                    lose_counter: if state.lose_counter >= 1 {
                        (state.lose_counter - 1) as u32
                    } else {
                        0
                    },
                },
                PathTile { count: (path.count + 1) as u32, shape: path.shape, rot: path.rot },
            )
        } else {
            Tile::Start(
                StartTile {
                    completed_once: state.completed_once,
                    spawn_millis: state.spawn_millis,
                    lose_counter: (state.lose_counter + 1) as u32,
                },
                path,
            )
        },
        _ => tile,
    }
}

/// Makes the spawn attempt of the start tile `start` for this tick, where
/// `finished` says whether its spawn interval has just elapsed. Returns
/// the spirit that was spawned, if one was. The congestion counter must
/// have room to rise.
pub fn spawn_spirit(map: &mut Tilemap, start: TilePos, finished: bool) -> (r: Option<Spirit>)
    requires
        old(map).wf(),
        finished && in_bounds(start, old(map).size()) ==> countable(old(map).tile(start)),
    ensures
        final(map).wf(),
        final(map).same_frame(old(map)),
        final(map).changed() == old(map).changed(),
        final(map).keeps_completed(old(map)),
        final(map).same_tiles_but(old(map), start, start),
        in_bounds(start, old(map).size()) ==> final(map).tile(start) == (if finished {
            attempted(old(map).tile(start), old(map).max_spirits())
        } else {
            old(map).tile(start)
        }),
        r == (if finished && in_bounds(start, old(map).size()) && spawns(
            old(map).tile(start),
            old(map).max_spirits(),
        ) {
            Some(
                Spirit {
                    prev_tile: start,
                    curr_tile: start,
                    curr_distance: None,
                    next_tile: None,
                    selected_end: None,
                },
            )
        } else {
            None
        }),
{
    if !finished || !map.contains(start) {
        return None;
    }
    let tile = map.tiles.get(start);
    match tile {
        Tile::Start(state, path) => {
            let room = if map.max_spirits < SPAWN_ROOM {
                map.max_spirits
            } else {
                SPAWN_ROOM
            };
            if !state.completed_once || path.count >= room {
                let waiting = StartTile {
                    completed_once: state.completed_once,
                    spawn_millis: state.spawn_millis,
                    lose_counter: state.lose_counter + 1,
                };
                map.put_tile(start, Tile::Start(waiting, path), false);
                return None;
            }
            let millis = if state.spawn_millis <= MIN_SPAWN_MILLIS {
                state.spawn_millis
            } else if state.spawn_millis - SPAWN_STEP_MILLIS < MIN_SPAWN_MILLIS {
                MIN_SPAWN_MILLIS
            } else {
                state.spawn_millis - SPAWN_STEP_MILLIS
            };
            let eased = StartTile {
                completed_once: true,
                spawn_millis: millis,
                lose_counter: if state.lose_counter >= 1 {
                    state.lose_counter - 1
                } else {
                    0
                },
            };
            let fuller = PathTile { count: path.count + 1, shape: path.shape, rot: path.rot };
            map.put_tile(start, Tile::Start(eased, fuller), false);
            Some(Spirit::new(start))
        },
        _ => None,
    }
}

/// Whether the round is lost: the congestion counter of some start tile
/// has reached the losing count.
pub open spec fn lost(map: &Tilemap) -> bool {
    exists|i: int|
        0 <= i < map.starts().len() && (#[trigger] map.tile(map.starts()[i])).start()->0.lose_counter
            >= LOSE_COUNT
}

/// Tells whether the round is lost.
pub fn check_lose_count(map: &Tilemap) -> (r: bool)
    requires
        map.wf(),
    ensures
        r == lost(map),
{
    let mut i: usize = 0;
    while i < map.starts.len()
        invariant
            map.wf(),
            i <= map.starts@.len(),
            forall|k: int|
                0 <= k < i ==> (#[trigger] map.tile(map.starts()[k])).start()->0.lose_counter
                    < LOSE_COUNT,
        decreases map.starts@.len() - i,
    {
        match map.tiles.get(map.starts[i]) {
            Tile::Start(state, _) => {
                if state.lose_counter >= LOSE_COUNT {
                    assert(map.tile(map.starts()[i as int]).start()->0.lose_counter >= LOSE_COUNT);
                    return true;
                }
            },
            _ => {},
        }
        i = i + 1;
    }
    false
}

/// What a start tile shows of its congestion counter.
#[derive(Clone, Copy, Debug, PartialEq, Eq, Structural)]
pub enum LoseText {
    /// The counter is low: nothing is shown.
    Hidden,
    /// The number of spawn attempts that the tile can still bear, halved.
    Countdown(u32),
    /// The round is as good as lost.
    Alarm,
}

/// The warning for a congestion counter of `counter`: a countdown over the
/// last ten, as half of what is left until six short of the losing count,
/// rounded up; an alarm from there on.
pub open spec fn spec_lose_text(counter: u32) -> LoseText {
    if counter + 6 >= LOSE_COUNT {
        LoseText::Alarm
    } else if counter + 26 < LOSE_COUNT {
        LoseText::Hidden
    } else {
        LoseText::Countdown(((LOSE_COUNT - 5 - counter) / 2) as u32)
    }
}

/// Works out the warning that a start tile shows.
pub fn lose_text(counter: u32) -> (r: LoseText)
    ensures
        r == spec_lose_text(counter),
{
    if counter >= LOSE_COUNT - 6 {
        LoseText::Alarm
    } else if counter < LOSE_COUNT - 26 {
        LoseText::Hidden
    } else {
        LoseText::Countdown((LOSE_COUNT - 5 - counter) / 2)
    }
}

} // verus!
