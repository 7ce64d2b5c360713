//! The course of a round: the score, and the start and end tiles that the
//! score brings onto the map.

use crate::editor::TilesAvailable;
use crate::grid::{in_bounds, spec_tile_distance, tile_distance, TilePos, TilemapSize};
use crate::level::{level_offset, play_to_real_size, LevelSize, MAP_WIDTH};
use crate::random::random_below;
use crate::tile::{EndTile, PathShape, PathTile, StartTile, Tile, INITIAL_SPAWN_MILLIS};
use crate::tilemap::Tilemap;
use vstd::prelude::*;

verus! {

/// The tiles that a new start tile adds to those available.
pub const START_BONUS: u32 = 2;

/// The tiles that a new end tile adds to those available.
pub const END_BONUS: u32 = 4;

/// The spirits brought home in this round, in the last one, and in the
/// best one so far.
#[derive(Clone, Copy, Debug, PartialEq, Eq, Structural)]
pub struct GameScore {
    pub score: u32,
    pub last_score: u32,
    pub best_score: u32,
}

impl Default for GameScore {
    fn default() -> (r: Self)
        ensures
            r == (GameScore { score: 0, last_score: 0, best_score: 0 }),
    {
        GameScore { score: 0, last_score: 0, best_score: 0 }
    }
}

impl GameScore {
    /// Counts one more spirit brought home.
    pub fn add_point(&mut self)
        requires
            old(self).score < u32::MAX,
        ensures
            final(self).score == old(self).score + 1,
            final(self).last_score == old(self).last_score,
            final(self).best_score == old(self).best_score,
    {
        self.score = self.score + 1;
    }
}

/// How many start and end tiles the round has brought onto the map.
#[derive(Clone, Copy, Debug, PartialEq, Eq, Structural)]
pub struct SpawnedCount {
    pub start: usize,
    pub end: usize,
}

impl Default for SpawnedCount {
    fn default() -> (r: Self)
        ensures
            r == (SpawnedCount { start: 0, end: 0 }),
    {
        SpawnedCount { start: 0, end: 0 }
    }
}

/// Closes a round: its score becomes the last score, and the best score
/// where it beats it; the score and the counts start over.
pub fn reset_score(score: &mut GameScore, count: &mut SpawnedCount)
    ensures
        final(score).score == 0,
        final(score).last_score == old(score).score,
        final(score).best_score == (if old(score).score > old(score).best_score {
            old(score).score
        } else {
            old(score).best_score
        }),
        *final(count) == (SpawnedCount { start: 0, end: 0 }),
{
    score.last_score = score.score;
    if score.score > score.best_score {
        score.best_score = score.score;
    }
    score.score = 0;
    count.start = 0;
    count.end = 0;
}

/// The scores at which the first start tiles appear.
pub open spec fn start_scores() -> Seq<int> {
    seq![
        0,
        5,
        25,
        50,
        100,
        130,
        160,
        220,
        260,
        300,
        400,
        500,
        700,
        900,
        1200,
        1500,
        2000,
        2500,
        3500,
        5000,
    ]
}

/// The scores at which the first end tiles appear.
pub open spec fn end_scores() -> Seq<int> {
    seq![0, 70, 200, 350, 600, 1000, 3000]
}

/// The score at which the next start tile appears when `count` have
/// appeared: by the list, and every thousand past its end.
pub open spec fn next_start_score(count: nat) -> int {
    if count < start_scores().len() {
        start_scores()[count as int]
    } else {
        5000 + (count + 1 - start_scores().len()) * 1000
    }
}

/// The score at which the next end tile appears when `count` have
/// appeared: by the list, and every ten thousand past its end.
pub open spec fn next_end_score(count: nat) -> int {
    if count < end_scores().len() {
        end_scores()[count as int]
    } else {
        (count + 1 - end_scores().len()) * 10000
    }
}

/// Tells whether the score calls for the next start tile.
pub fn start_due(count: usize, score: u32) -> (r: bool)
    ensures
        r == (score >= next_start_score(count as nat)),
{
    if count < 20 {
        let at: u32 = if count == 0 {
            0
        } else if count == 1 {
            5
        } else if count == 2 {
            25
        } else if count == 3 {
            50
        } else if count == 4 {
            100
        } else if count == 5 {
            130
        } else if count == 6 {
            160
        } else if count == 7 {
            220
        } else if count == 8 {
            260
        } else if count == 9 {
            300
        } else if count == 10 {
            400
        } else if count == 11 {
            500
        } else if count == 12 {
            700
        } else if count == 13 {
            900
        } else if count == 14 {
            1200
        } else if count == 15 {
            1500
        } else if count == 16 {
            2000
        } else if count == 17 {
            2500
        } else if count == 18 {
            3500
        } else {
            5000
        };
        score >= at
    } else if count >= 5_000_000 {
        false
    } else {
        score as u64 >= 5000 + (count as u64 - 19) * 1000
    }
}

/// Tells whether the score calls for the next end tile.
pub fn end_due(count: usize, score: u32) -> (r: bool)
    ensures
        r == (score >= next_end_score(count as nat)),
{
    if count < 7 {
        let at: u32 = if count == 0 {
            0
        } else if count == 1 {
            70
        } else if count == 2 {
            200
        } else if count == 3 {
            350
        } else if count == 4 {
            600
        } else if count == 5 {
            1000
        } else {
            3000
        };
        score >= at
    } else if count >= 5_000_000 {
        false
    } else {
        score as u64 >= (count as u64 - 6) * 10000
    }
}

/// Whether the playable part grows when the `count`-th start tile appears:
/// with the first and then with every fourth, until it is as wide as the map.
pub open spec fn grows(level: LevelSize, count: nat) -> bool {
    (count + 3) % 4 == 0 && level.0.x < MAP_WIDTH
}

/// The playable part two tiles larger each way.
pub open spec fn grown(level: LevelSize) -> LevelSize {
    LevelSize(TilemapSize { x: (level.0.x + 2) as u32, y: (level.0.y + 2) as u32 })
}

/// Whether `pos` is farther than two steps from every tile of `sites`.
pub open spec fn clear_of(pos: TilePos, sites: Seq<TilePos>) -> bool {
    forall|i: int| 0 <= i < sites.len() ==> spec_tile_distance(pos, #[trigger] sites[i]) > 2
}

/// Tells whether `pos` is farther than two steps from every tile of `sites`.
pub fn is_clear_of(pos: &TilePos, sites: &Vec<TilePos>) -> (r: bool)
    ensures
        r == clear_of(*pos, sites@),
{
    let mut i: usize = 0;
    while i < sites.len()
        invariant
            i <= sites@.len(),
            forall|k: int| 0 <= k < i ==> spec_tile_distance(*pos, #[trigger] sites@[k]) > 2,
        decreases sites@.len() - i,
    {
        if tile_distance(pos, &sites[i]) <= 2 {
            return false;
        }
        i = i + 1;
    }
    true
}

/// The `k`-th tile of the rim of the rectangle of extent `size` at
/// `offset`: along the columns first, the tile of the first row and then
/// that of the last; then along the rows, the tile of the first column and
/// then that of the last.
pub open spec fn rim_at(offset: TilemapSize, size: TilemapSize, k: int) -> TilePos {
    if k < 2 * size.x {
        TilePos {
            x: (offset.x + k / 2) as u32,
            y: (if k % 2 == 0 {
                offset.y as int
            } else {
                offset.y + size.y - 1
            }) as u32,
        }
    } else {
        let j = k - 2 * size.x;
        TilePos {
            x: (if j % 2 == 0 {
                offset.x as int
            } else {
                offset.x + size.x - 1
            }) as u32,
            y: (offset.y + j / 2) as u32,
        }
    }
}

/// The number of entries of the rim: two for each column and two for each
/// row, and none where the rectangle has no tile.
pub open spec fn rim_len(size: TilemapSize) -> int {
    if size.x == 0 || size.y == 0 {
        0
    } else {
        2 * size.x + 2 * size.y
    }
}

/// Those of the first `n` entries of the rim that are clear of `starts`
/// and of `ends`.
pub open spec fn possible_upto(
    offset: TilemapSize,
    size: TilemapSize,
    starts: Seq<TilePos>,
    ends: Seq<TilePos>,
    n: int,
) -> Seq<TilePos>
    decreases n,
{
    if n <= 0 {
        Seq::empty()
    } else {
        let rest = possible_upto(offset, size, starts, ends, n - 1);
        let pos = rim_at(offset, size, n - 1);
        if clear_of(pos, starts) && clear_of(pos, ends) {
            rest.push(pos)
        } else {
            rest
        }
    }
}

/// The tiles at which a start or an end may appear: the rim of the
/// playable part without what is within two steps of a start or an end.
pub open spec fn possible(
    offset: TilemapSize,
    size: TilemapSize,
    starts: Seq<TilePos>,
    ends: Seq<TilePos>,
) -> Seq<TilePos> {
    possible_upto(offset, size, starts, ends, rim_len(size))
}

/// The tile that `roll` selects among `possible`, if there is any.
pub open spec fn picked(possible: Seq<TilePos>, roll: usize) -> Option<TilePos> {
    if possible.len() == 0 {
        None
    } else {
        Some(possible[roll as int % possible.len() as int])
    }
}

/// Every tile at which a start or an end may appear is a tile of the
/// rectangle and is farther than two steps from every start and end.
pub proof fn lemma_possible(
    offset: TilemapSize,
    size: TilemapSize,
    starts: Seq<TilePos>,
    ends: Seq<TilePos>,
    n: int,
)
    requires
        0 <= n <= rim_len(size),
        offset.x + size.x <= u32::MAX,
        offset.y + size.y <= u32::MAX,
    ensures
        possible_upto(offset, size, starts, ends, n).len() <= n,
        forall|k: int|
            0 <= k < possible_upto(offset, size, starts, ends, n).len() ==> {
                let pos = #[trigger] possible_upto(offset, size, starts, ends, n)[k];
                &&& offset.x <= pos.x < offset.x + size.x
                &&& offset.y <= pos.y < offset.y + size.y
                &&& clear_of(pos, starts)
                &&& clear_of(pos, ends)
            },
    decreases n,
{
    if n > 0 {
        lemma_possible(offset, size, starts, ends, n - 1);
        let now = possible_upto(offset, size, starts, ends, n);
        let rest = possible_upto(offset, size, starts, ends, n - 1);
        assert forall|k: int| 0 <= k < now.len() implies {
            let pos = #[trigger] now[k];
            &&& offset.x <= pos.x < offset.x + size.x
            &&& offset.y <= pos.y < offset.y + size.y
            &&& clear_of(pos, starts)
            &&& clear_of(pos, ends)
        } by {
            if k < rest.len() {
                assert(now[k] == rest[k]);
            }
        }
    }
}

/// Lists the tiles at which a start or an end may appear in the rectangle
/// of extent `size` at `offset`.
pub fn spawn_candidates(
    offset: &TilemapSize,
    size: &TilemapSize,
    starts: &Vec<TilePos>,
    ends: &Vec<TilePos>,
) -> (r: Vec<TilePos>)
    requires
        offset.x + size.x <= u32::MAX,
        offset.y + size.y <= u32::MAX,
    ensures
        r@ == possible(*offset, *size, starts@, ends@),
{
    let mut r: Vec<TilePos> = Vec::new();
    if size.x == 0 || size.y == 0 {
        return r;
    }
    let mut i: u32 = 0;
    while i < size.x
        invariant
            size.x > 0,
            size.y > 0,
            offset.x + size.x <= u32::MAX,
            offset.y + size.y <= u32::MAX,
            i <= size.x,
            r@ == possible_upto(*offset, *size, starts@, ends@, 2 * i),
        decreases size.x - i,
    {
        let low = TilePos { x: offset.x + i, y: offset.y };
        let high = TilePos { x: offset.x + i, y: offset.y + (size.y - 1) };
        assert(rim_at(*offset, *size, 2 * i) == low);
        assert(rim_at(*offset, *size, 2 * i + 1) == high);
        if is_clear_of(&low, starts) && is_clear_of(&low, ends) {
            r.push(low);
        }
        assert(r@ == possible_upto(*offset, *size, starts@, ends@, 2 * i + 1));
        if is_clear_of(&high, starts) && is_clear_of(&high, ends) {
            r.push(high);
        }
        i = i + 1;
    }
    let mut j: u32 = 0;
    while j < size.y
        invariant
            size.x > 0,
            size.y > 0,
            offset.x + size.x <= u32::MAX,
            offset.y + size.y <= u32::MAX,
            j <= size.y,
            r@ == possible_upto(*offset, *size, starts@, ends@, 2 * size.x + 2 * j),
        decreases size.y - j,
    {
        let left = TilePos { x: offset.x, y: offset.y + j };
        let right = TilePos { x: offset.x + (size.x - 1), y: offset.y + j };
        assert(rim_at(*offset, *size, 2 * size.x + 2 * j) == left);
        assert(rim_at(*offset, *size, 2 * size.x + 2 * j + 1) == right);
        if is_clear_of(&left, starts) && is_clear_of(&left, ends) {
            r.push(left);
        }
        assert(r@ == possible_upto(*offset, *size, starts@, ends@, 2 * size.x + 2 * j + 1));
        if is_clear_of(&right, starts) && is_clear_of(&right, ends) {
            r.push(right);
        }
        j = j + 1;
    }
    r
}

/// Picks the tile that `roll` selects among `possible`.
pub fn pick_spawn_pos(possible: &Vec<TilePos>, roll: usize) -> (r: Option<TilePos>)
    ensures
        r == picked(possible@, roll),
{
    if possible.len() == 0 {
        None
    } else {
        Some(possible[roll % possible.len()])
    }
}

/// Picks by chance a tile at which a start or an end may appear in the
/// rectangle of extent `size` at `offset`, or `None` where there is none.
pub fn get_spawn_pos(
    offset: &TilemapSize,
    size: &TilemapSize,
    starts: &Vec<TilePos>,
    ends: &Vec<TilePos>,
) -> (r: Option<TilePos>)
    requires
        offset.x + size.x <= u32::MAX,
        offset.y + size.y <= u32::MAX,
    ensures
        r is None <==> possible(*offset, *size, starts@, ends@).len() == 0,
        r matches Some(pos) ==> possible(*offset, *size, starts@, ends@).contains(pos),
{
    let possible = spawn_candidates(offset, size, starts, ends);
    if possible.len() == 0 {
        return None;
    }
    let roll = random_below(possible.len());
    Some(possible[roll])
}

/// Where the first start tile appears: one tile in from the near side of
/// the playable part, in its middle row.
pub open spec fn first_start(level: LevelSize) -> TilePos {
    TilePos {
        x: (level_offset(level).x + 1) as u32,
        y: (level_offset(level).y + level.0.y / 2) as u32,
    }
}

/// Where the first end tile appears: one tile in from the far side of the
/// playable part, in its middle row.
pub open spec fn first_end(level: LevelSize) -> TilePos {
    TilePos {
        x: (level_offset(level).x + level.0.x - 2) as u32,
        y: (level_offset(level).y + level.0.y / 2) as u32,
    }
}

/// Where the `nth` tile of its kind is to appear: the first at `first`,
/// every later one at a tile of the rim that `roll` selects.
pub open spec fn wanted(
    level: LevelSize,
    nth: nat,
    first: TilePos,
    starts: Seq<TilePos>,
    ends: Seq<TilePos>,
    roll: usize,
) -> Option<TilePos> {
    if nth <= 1 {
        Some(first)
    } else {
        picked(possible(level_offset(level), level.0, starts, ends), roll)
    }
}

/// What a score brings onto the map.
#[derive(Clone, Copy, Debug, PartialEq, Eq, Structural)]
pub struct Spawned {
    /// Where a start tile appeared.
    pub start: Option<TilePos>,
    /// Where an end tile appeared.
    pub end: Option<TilePos>,
    /// Whether the playable part grew.
    pub grew: bool,
}

/// The start tile as it is placed.
pub open spec fn fresh_start() -> Tile {
    Tile::Start(
        StartTile { completed_once: false, spawn_millis: INITIAL_SPAWN_MILLIS, lose_counter: 0 },
        PathTile { count: 0, shape: PathShape::End, rot: 0 },
    )
}

/// The end tile as it is placed.
pub open spec fn fresh_end() -> Tile {
    Tile::End(EndTile, PathTile { count: 0, shape: PathShape::End, rot: 0 })
}

/// Whether the score calls for a start tile.
pub open spec fn start_is_due(count: SpawnedCount, score: u32) -> bool {
    score >= next_start_score(count.start as nat)
}

/// Whether the score calls for an end tile.
pub open spec fn end_is_due(count: SpawnedCount, score: u32) -> bool {
    score >= next_end_score(count.end as nat)
}

/// The counts once the tiles that the score calls for are counted.
pub open spec fn counted(count: SpawnedCount, score: u32) -> SpawnedCount {
    SpawnedCount {
        start: if start_is_due(count, score) {
            (count.start + 1) as usize
        } else {
            count.start
        },
        end: if end_is_due(count, score) {
            (count.end + 1) as usize
        } else {
            count.end
        },
    }
}

/// The playable part once the score is taken into account.
pub open spec fn level_after(level: LevelSize, count: SpawnedCount, score: u32) -> LevelSize {
    if start_is_due(count, score) && grows(level, counted(count, score).start as nat) {
        grown(level)
    } else {
        level
    }
}

/// Whether the playable part that the score calls for fits the map: the
/// part as it is, or two tiles larger each way where it is to grow.
pub open spec fn fits_after(level: LevelSize, count: SpawnedCount, score: u32) -> bool {
    if start_is_due(count, score) && grows(level, counted(count, score).start as nat) {
        level.0.x + 2 <= MAP_WIDTH && level.0.y + 2 <= crate::level::MAP_HEIGHT
    } else {
        level.fits()
    }
}

/// Where a start tile appears on `map` for the score: where one is
/// wanted, if a start can be placed there.
pub open spec fn start_site(
    map: &Tilemap,
    level: LevelSize,
    count: SpawnedCount,
    score: u32,
    roll: usize,
) -> Option<TilePos> {
    let after = level_after(level, count, score);
    if !start_is_due(count, score) {
        None
    } else {
        match wanted(
            after,
            counted(count, score).start as nat,
            first_start(after),
            map.starts(),
            map.ends(),
            roll,
        ) {
            Some(pos) => if map.placeable(pos) {
                Some(pos)
            } else {
                None
            },
            None => None,
        }
    }
}

/// Where an end tile appears on `map` for the score, once a start tile
/// has appeared at `start`: where one is wanted, if an end can be placed
/// there.
pub open spec fn end_site(
    map: &Tilemap,
    level: LevelSize,
    count: SpawnedCount,
    score: u32,
    start: Option<TilePos>,
    roll: usize,
) -> Option<TilePos> {
    let after = level_after(level, count, score);
    let starts = match start {
        Some(pos) => map.starts().push(pos),
        None => map.starts(),
    };
    if !end_is_due(count, score) {
        None
    } else {
        match wanted(
            after,
            counted(count, score).end as nat,
            first_end(after),
            starts,
            map.ends(),
            roll,
        ) {
            Some(pos) => if map.placeable(pos) && start != Some(pos) {
                Some(pos)
            } else {
                None
            },
            None => None,
        }
    }
}

/// Whether `post` is `pre` with a fresh start tile at `start` and a fresh
/// end tile at `end`, where these are given, and with nothing recorded on
/// either.
pub open spec fn placed_on(
    pre: &Tilemap,
    post: &Tilemap,
    start: Option<TilePos>,
    end: Option<TilePos>,
) -> bool {
    &&& post.size() == pre.size()
    &&& post.max_spirits() == pre.max_spirits()
    &&& post.starts() == (match start {
        Some(pos) => pre.starts().push(pos),
        None => pre.starts(),
    })
    &&& post.ends() == (match end {
        Some(pos) => pre.ends().push(pos),
        None => pre.ends(),
    })
    &&& post.changed() == (pre.changed() || start is Some || end is Some)
    &&& post.keeps_completed(pre)
    &&& forall|p: TilePos|
        in_bounds(p, pre.size()) ==> #[trigger] post.tile(p) == (if start == Some(p) {
            fresh_start()
        } else if end == Some(p) {
            fresh_end()
        } else {
            pre.tile(p)
        })
    &&& forall|p: TilePos, e: TilePos|
        #![trigger post.reach(p, e)]
        post.reach(p, e) == (if start == Some(p) || end == Some(p) {
            None
        } else {
            pre.reach(p, e)
        })
}

/// The site, if a start or an end can be placed there on `map`.
pub open spec fn open_site(map: &Tilemap, site: Option<TilePos>) -> Option<TilePos> {
    match site {
        Some(pos) => if map.placeable(pos) {
            Some(pos)
        } else {
            None
        },
        None => None,
    }
}

/// Places a start tile at `site` if one can be placed there, and adds
/// its bonus to the tiles available.
fn spawn_start(map: &mut Tilemap, available: &mut TilesAvailable, site: Option<TilePos>) -> (r:
    Option<TilePos>)
    requires
        old(map).wf(),
        old(available).0 + START_BONUS <= u32::MAX,
    ensures
        final(map).wf(),
        r == open_site(old(map), site),
        placed_on(old(map), final(map), r, None),
        final(available).0 == old(available).0 + (if r is Some {
            START_BONUS
        } else {
            0
        }),
{
    match site {
        Some(pos) => {
            if map.place_start(pos) {
                available.0 = available.0 + START_BONUS;
                Some(pos)
            } else {
                None
            }
        },
        None => None,
    }
}

/// Places an end tile at `site` if one can be placed there, and adds its
/// bonus to the tiles available.
fn spawn_end(map: &mut Tilemap, available: &mut TilesAvailable, site: Option<TilePos>) -> (r:
    Option<TilePos>)
    requires
        old(map).wf(),
        old(available).0 + END_BONUS <= u32::MAX,
    ensures
        final(map).wf(),
        r == open_site(old(map), site),
        placed_on(old(map), final(map), None, r),
        final(available).0 == old(available).0 + (if r is Some {
            END_BONUS
        } else {
            0
        }),
{
    match site {
        Some(pos) => {
            if map.place_end(pos) {
                available.0 = available.0 + END_BONUS;
                Some(pos)
            } else {
                None
            }
        },
        None => None,
    }
}

/// A start tile placed and then an end tile placed are both in place.
proof fn lemma_placed_both(
    pre: &Tilemap,
    mid: &Tilemap,
    post: &Tilemap,
    start: Option<TilePos>,
    end: Option<TilePos>,
)
    requires
        placed_on(pre, mid, start, None),
        placed_on(mid, post, None, end),
        start matches Some(pos) ==> in_bounds(pos, pre.size()),
        end == open_site(mid, end),
    ensures
        placed_on(pre, post, start, end),
        start is Some ==> start != end,
{
    assert forall|p: TilePos| in_bounds(p, pre.size()) implies #[trigger] post.tile(p) == (if start
        == Some(p) {
        fresh_start()
    } else if end == Some(p) {
        fresh_end()
    } else {
        pre.tile(p)
    }) by {
        assert(mid.tile(p) == (if start == Some(p) {
            fresh_start()
        } else {
            pre.tile(p)
        }));
    }
    assert forall|p: TilePos| in_bounds(p, pre.size()) implies (match #[trigger] pre.tile(p) {
        Tile::Start(s, _) => s.completed_once ==> post.tile(p).is_start() && post.tile(
            p,
        ).start()->0.completed_once,
        _ => true,
    }) by {
        let t = mid.tile(p);
    }
    assert forall|p: TilePos, e: TilePos| #[trigger]
        post.reach(p, e) == (if start == Some(p) || end == Some(p) {
            None
        } else {
            pre.reach(p, e)
        }) by {
        assert(mid.reach(p, e) == (if start == Some(p) {
            None
        } else {
            pre.reach(p, e)
        }));
    }
}

/// Brings onto the map the start and end tiles that `score` calls for,
/// with `start_roll` and `end_roll` to select among the tiles where they
/// may appear. The playable part that the score calls for must fit the
/// map. A start tile that is due is counted, grows the playable
/// part when its turn has come, appears at its place if it can, and adds
/// two tiles to those available; an end tile likewise, adding four.
pub fn spawn_start_end_with(
    map: &mut Tilemap,
    level: &mut LevelSize,
    available: &mut TilesAvailable,
    count: &mut SpawnedCount,
    score: u32,
    start_roll: usize,
    end_roll: usize,
) -> (r: Spawned)
    requires
        old(map).wf(),
        fits_after(*old(level), *old(count), score),
        old(available).0 + START_BONUS + END_BONUS <= u32::MAX,
    ensures
        final(map).wf(),
        final(level).fits(),
        old(level).wf() ==> final(level).wf(),
        *final(count) == counted(*old(count), score),
        *final(level) == level_after(*old(level), *old(count), score),
        r.grew == (*final(level) != *old(level)),
        r.start == start_site(old(map), *old(level), *old(count), score, start_roll),
        r.end == end_site(old(map), *old(level), *old(count), score, r.start, end_roll),
        placed_on(old(map), final(map), r.start, r.end),
        final(available).0 == old(available).0 + (if r.start is Some {
            START_BONUS
        } else {
            0
        }) + (if r.end is Some {
            END_BONUS
        } else {
            0
        }),
{
    let is_start = start_due(count.start, score);
    let is_end = end_due(count.end, score);
    if is_start {
        count.start = count.start + 1;
    }
    if is_end {
        count.end = count.end + 1;
    }
    let mut grew = false;
    if is_start && (count.start + 3) % 4 == 0 && level.0.x < MAP_WIDTH {
        level.0.x = level.0.x + 2;
        level.0.y = level.0.y + 2;
        grew = true;
    }
    let (offset, size) = play_to_real_size(level);
    let start_at = if !is_start {
        None
    } else if count.start <= 1 {
        Some(TilePos { x: offset.x + 1, y: offset.y + size.y / 2 })
    } else {
        let possible = spawn_candidates(&offset, &size, &map.starts, &map.ends);
        pick_spawn_pos(&possible, start_roll)
    };
    let start = spawn_start(map, available, start_at);
    let ghost mid = *map;
    let end_at = if !is_end {
        None
    } else if count.end <= 1 {
        Some(TilePos { x: offset.x + size.x - 2, y: offset.y + size.y / 2 })
    } else {
        let possible = spawn_candidates(&offset, &size, &map.starts, &map.ends);
        pick_spawn_pos(&possible, end_roll)
    };
    let end = spawn_end(map, available, end_at);
    proof {
        lemma_placed_both(old(map), &mid, map, start, end);
    }
    Spawned { start, end, grew }
}

/// Brings onto the map the start and end tiles that `score` calls for;
/// where one may appear at several tiles, chance selects among them.
pub fn spawn_start_end(
    map: &mut Tilemap,
    level: &mut LevelSize,
    available: &mut TilesAvailable,
    count: &mut SpawnedCount,
    score: u32,
) -> (r: Spawned)
    requires
        old(map).wf(),
        fits_after(*old(level), *old(count), score),
        old(available).0 + START_BONUS + END_BONUS <= u32::MAX,
    ensures
        final(map).wf(),
        final(level).fits(),
        old(level).wf() ==> final(level).wf(),
        *final(count) == counted(*old(count), score),
        *final(level) == level_after(*old(level), *old(count), score),
        r.grew == (*final(level) != *old(level)),
        exists|start_roll: usize, end_roll: usize|
            #![trigger start_site(old(map), *old(level), *old(count), score, start_roll), end_site(old(map), *old(level), *old(count), score, r.start, end_roll)]
            r.start == start_site(old(map), *old(level), *old(count), score, start_roll) && r.end
                == end_site(old(map), *old(level), *old(count), score, r.start, end_roll),
        placed_on(old(map), final(map), r.start, r.end),
        final(available).0 == old(available).0 + (if r.start is Some {
            START_BONUS
        } else {
            0
        }) + (if r.end is Some {
            END_BONUS
        } else {
            0
        }),
{
    let start_roll = random_below(usize::MAX);
    let end_roll = random_below(usize::MAX);
    spawn_start_end_with(map, level, available, count, score, start_roll, end_roll)
}

} // verus!
