//! The laws of the simulation: what holds of every board, tick after tick.

use vstd::prelude::*;
use crate::apply::{alive, apply_list, fades, index_of, lemma_survivors_last, survivors};
use crate::collision::{first_hit, hits, is_clear, lemma_first_hit};
use crate::playing_state::{all_wf, lemma_first_in_cell, unique_ids, Board};
use crate::resolver::{chain_gives_way, listed, tagged};
use crate::stepping::{
    lemma_after_all_preserves,
    lemma_apply_list_concat,
    lemma_apply_list_shape,
    lemma_index_of,
    lemma_survivors_selection,
    lemma_survivors_wf,
    lemma_tick_pointwise,
};
use crate::tile::{Direction, Tile, TileChange, Vector, FADE_STEPS, SPEED};

verus! {

/// The tile after a change, or the tile itself where there is none.
pub open spec fn opt_after(t: Tile, change: Option<TileChange>) -> Tile {
    match change {
        Some(c) => t.after(c),
        None => t,
    }
}

/// Applying two lists of changes one after the other is applying them joined.
pub proof fn lemma_after_all_concat(t: Tile, first: Seq<TileChange>, second: Seq<TileChange>)
    ensures
        t.after_all(first + second) == t.after_all(first).after_all(second),
    decreases second.len(),
{
    if second.len() == 0 {
        assert(first + second =~= first);
    } else {
        assert((first + second).drop_last() =~= first + second.drop_last());
        lemma_after_all_concat(t, first, second.drop_last());
    }
}

/// A list of no change or one acts as that change, if any.
pub proof fn lemma_after_listed(t: Tile, change: Option<TileChange>)
    ensures
        t.after_all(listed(change)) == opt_after(t, change),
{
    reveal_with_fuel(Tile::after_all, 2);
    match change {
        Some(c) => {
            assert(seq![c].drop_last() =~= Seq::<TileChange>::empty());
        },
        None => {},
    }
}

/// What a tick makes of a tile that is neither a wall nor fading, on a board
/// on which no fade is under way: the drag rule acts first, then the
/// movement rule, then the match rule.
pub proof fn lemma_stepped_tile(state: Board, t: Tile)
    requires
        t.playable(),
        t.fade_step == 0,
        !state.fading_out,
    ensures
        t.after_all(state.changes_for(t)) == opt_after(
            opt_after(opt_after(t, state.drag_change(t)), state.motion_change(t)),
            state.match_change(t),
        ),
{
    let a = listed(state.drag_change(t));
    let b = listed(state.motion_change(t));
    let c = listed(state.match_change(t));
    lemma_after_all_concat(t, a + b, c);
    lemma_after_all_concat(t, a, b);
    lemma_after_listed(t, state.drag_change(t));
    lemma_after_listed(t.after_all(a), state.motion_change(t));
    lemma_after_listed(t.after_all(a + b), state.match_change(t));
}

/// What a tick makes of a wall, of a fading tile, or of any tile while a
/// fade is under way.
pub proof fn lemma_stepped_still(state: Board, t: Tile)
    requires
        !t.playable() || t.fade_step > 0 || state.fading_out,
    ensures
        t.after_all(state.changes_for(t)) == (if t.playable() && t.fade_step > 0 {
            t.after(TileChange::FadeOut)
        } else {
            t
        }),
{
    reveal_with_fuel(Tile::after_all, 2);
    if t.playable() && t.fade_step > 0 {
        assert(seq![TileChange::FadeOut].drop_last() =~= Seq::<TileChange>::empty());
    }
}

/// A step changes the cell of a tile only where the tile crosses the border
/// of its cell: to the right or downwards when it leaves the last pixel of
/// the cell, to the left or upwards when it leaves the first. At a crossing
/// the offset within the cell starts over from the other end.
pub proof fn lemma_cell_changes_on_crossing(t: Tile)
    requires
        t.wf(),
        t.can_advance(),
    ensures
        ({
            let moved = t.after(TileChange::Move);
            let last = crate::tile::TILE_WIDTH - 1;
            &&& moved.cell_x() == t.cell_x() + (if t.velocity.x == SPEED && t.sub_x() == last {
                1int
            } else if t.velocity.x == -SPEED && t.sub_x() == 0 {
                -1int
            } else {
                0int
            })
            &&& moved.cell_y() == t.cell_y() + (if t.velocity.y == SPEED && t.sub_y() == last {
                1int
            } else if t.velocity.y == -SPEED && t.sub_y() == 0 {
                -1int
            } else {
                0int
            })
            &&& moved.sub_x() == (if moved.cell_x() == t.cell_x() {
                t.sub_x() + t.velocity.x
            } else if t.velocity.x == SPEED {
                0
            } else {
                last as int
            })
            &&& moved.sub_y() == (if moved.cell_y() == t.cell_y() {
                t.sub_y() + t.velocity.y
            } else if t.velocity.y == SPEED {
                0
            } else {
                last as int
            })
        }),
{
}

/// Whether no two tiles of `map` are at the same position.
pub open spec fn distinct_positions(map: Seq<Tile>) -> bool {
    forall|i: int, j: int|
        0 <= i < j < map.len() ==> (#[trigger] map[i]).position != (#[trigger] map[j]).position
}

/// Whether no two playable tiles of `map` are at the same position.
pub open spec fn playable_apart(map: Seq<Tile>) -> bool {
    forall|i: int, j: int|
        0 <= i < j < map.len() && (#[trigger] map[i]).playable() && (#[trigger] map[j]).playable()
            ==> map[i].position != map[j].position
}

/// Whether two playable tiles at rest occupy the same cell.
pub open spec fn share_cell(a: Tile, b: Tile) -> bool {
    &&& a.playable() && b.playable()
    &&& a.at_rest() && b.at_rest()
    &&& a.cell_x() == b.cell_x() && a.cell_y() == b.cell_y()
}

/// Whether no two playable tiles at rest occupy the same cell.
pub open spec fn cells_unique(map: Seq<Tile>) -> bool {
    forall|i: int, j: int| 0 <= i < j < map.len() ==> !share_cell(#[trigger] map[i], #[trigger] map[j])
}

impl Board {
    /// Whether tile `t` jumps to the cell under the cursor in this tick.
    pub open spec fn jumps(self, t: Tile) -> bool {
        &&& t.playable()
        &&& t.fade_step == 0
        &&& !self.fading_out
        &&& self.drag_change(t) matches Some(TileChange::Jump(_))
    }
}

/// Whether at most one tile jumps in the tick from this state.
pub open spec fn jumps_once(state: Board) -> bool {
    forall|i: int, j: int|
        0 <= i < j < state.map.len() ==> !(state.jumps(#[trigger] state.map[i]) && state.jumps(
            #[trigger] state.map[j],
        ))
}

/// Where a tick leaves a tile: where it was, one step of its velocity further
/// with nothing in the way there, or, after a jump, on the free cell under
/// the cursor.
pub proof fn lemma_final_position(state: Board, t: Tile)
    ensures
        ({
            let moved = t.after_all(state.changes_for(t));
            ||| moved.position == t.position
            ||| ({
                &&& moved.position.x == t.position.x + t.velocity.x
                &&& moved.position.y == t.position.y + t.velocity.y
                &&& state.ahead(t, t.velocity) is None
            })
            ||| ({
                &&& state.jumps(t)
                &&& moved.position.x == state.cursor_pixel().0
                &&& moved.position.y == state.cursor_pixel().1
                &&& first_hit(state.map, t.id, state.cursor_pixel().0, state.cursor_pixel().1) is None
            })
        }),
{
    if t.playable() && t.fade_step == 0 && !state.fading_out {
        lemma_stepped_tile(state, t);
    } else {
        lemma_stepped_still(state, t);
    }
}

/// Two tiles that share a cell while at rest are at the same position.
pub proof fn lemma_share_cell_position(a: Tile, b: Tile)
    requires
        share_cell(a, b),
    ensures
        a.position == b.position,
{
}

/// Cell uniqueness. On a well-formed board whose playable tiles are at
/// pairwise different positions, a tick in which at most one tile jumps
/// leaves the playable tiles at pairwise different positions; in particular
/// no two playable tiles at rest occupy the same cell. Where the walls and
/// blanks are at positions of their own as well, they stay so.
pub proof fn lemma_cells_stay_unique(state: Board)
    requires
        state.wf(),
        playable_apart(state.map),
        jumps_once(state),
    ensures
        playable_apart(state.ticked().map),
        cells_unique(state.ticked().map),
        distinct_positions(state.map) ==> distinct_positions(state.ticked().map),
{
    let map = state.map;
    let stepped = state.stepped();
    lemma_tick_pointwise(state);
    let next = state.ticked().map;
    let origin = lemma_survivors_selection(stepped);
    assert forall|k: int, l: int|
        0 <= k < l < next.len() && (#[trigger] next[k]).playable() && (
        #[trigger] next[l]).playable() implies next[k].position != next[l].position by {
        let i = origin[k];
        let j = origin[l];
        assert(i < j);
        lemma_after_all_preserves(map[i], state.changes_for(map[i]));
        lemma_after_all_preserves(map[j], state.changes_for(map[j]));
        assert(map[i].playable() && map[j].playable());
        lemma_pair_stays_apart(state, i, j);
    }
    assert forall|k: int, l: int| 0 <= k < l < next.len() implies !share_cell(
        #[trigger] next[k],
        #[trigger] next[l],
    ) by {
        if share_cell(next[k], next[l]) {
            lemma_share_cell_position(next[k], next[l]);
        }
    }
    if distinct_positions(map) {
        assert forall|k: int, l: int| 0 <= k < l < next.len() implies (#[trigger] next[k]).position
            != (#[trigger] next[l]).position by {
            assert(origin[k] < origin[l]);
            lemma_pair_stays_apart(state, origin[k], origin[l]);
        }
    }
}

/// Moving the cursor moves no tile: the tiles stay at pairwise different
/// positions.
pub proof fn lemma_cursor_moves_no_tile(state: Board, direction: Direction)
    ensures
        distinct_positions(state.map) ==> distinct_positions(state.moved(direction).map),
        playable_apart(state.map) ==> playable_apart(state.moved(direction).map),
        playable_count(state.moved(direction).map) == playable_count(state.map),
{
    let after = state.moved(direction).map;
    lemma_first_in_cell(state.map, state.player.0 as int, state.player.1 as int);
    assert(after.len() == state.map.len());
    assert forall|i: int| 0 <= i < after.len() implies (#[trigger] after[i]).position
        == state.map[i].position && after[i].c == state.map[i].c by {}
    if distinct_positions(state.map) {
        assert forall|i: int, j: int| 0 <= i < j < after.len() implies (
        #[trigger] after[i]).position != (#[trigger] after[j]).position by {
            assert(state.map[i].position != state.map[j].position);
        }
    }
    if playable_apart(state.map) {
        assert forall|i: int, j: int|
            0 <= i < j < after.len() && (#[trigger] after[i]).playable() && (
            #[trigger] after[j]).playable() implies after[i].position != after[j].position by {
            assert(state.map[i].playable() && state.map[j].playable());
        }
    }
    assert forall|i: int| 0 <= i < after.len() implies (#[trigger] after[i]).c
        == state.map[i].c by {}
    lemma_count_same_kinds(after, state.map);
}

/// Two tiles at different positions are at different positions after a tick,
/// unless both jump.
proof fn lemma_pair_stays_apart(state: Board, i: int, j: int)
    requires
        state.wf(),
        0 <= i < j < state.map.len(),
        state.map[i].position != state.map[j].position,
        !(state.jumps(state.map[i]) && state.jumps(state.map[j])),
    ensures
        state.stepped()[i].position != state.stepped()[j].position,
{
    let map = state.map;
    let a = map[i];
    let b = map[j];
    assert(a.id != b.id);
    assert(a.wf() && b.wf());
    lemma_final_position(state, a);
    lemma_final_position(state, b);
    let (px, py) = state.cursor_pixel();
    lemma_first_hit(map, a.id, a.position.x + a.velocity.x, a.position.y + a.velocity.y);
    lemma_first_hit(map, b.id, b.position.x + b.velocity.x, b.position.y + b.velocity.y);
    lemma_first_hit(map, a.id, px, py);
    lemma_first_hit(map, b.id, px, py);
    if state.ahead(a, a.velocity) is None {
        assert(!hits(map[j], a.id, a.position.x + a.velocity.x, a.position.y + a.velocity.y));
    }
    if state.ahead(b, b.velocity) is None {
        assert(!hits(map[i], b.id, b.position.x + b.velocity.x, b.position.y + b.velocity.y));
    }
    if first_hit(map, a.id, px, py) is None {
        assert(!hits(map[j], a.id, px, py));
    }
    if first_hit(map, b.id, px, py) is None {
        assert(!hits(map[i], b.id, px, py));
    }
}

/// The number of playable tiles of `map`.
pub open spec fn playable_count(map: Seq<Tile>) -> nat
    decreases map.len(),
{
    if map.len() == 0 {
        0
    } else if map.last().playable() {
        playable_count(map.drop_last()) + 1
    } else {
        playable_count(map.drop_last())
    }
}

/// The number of playable tiles of `map` whose fade has run its course.
pub open spec fn expired_count(map: Seq<Tile>) -> nat
    decreases map.len(),
{
    if map.len() == 0 {
        0
    } else if map.last().playable() && !alive(map.last()) {
        expired_count(map.drop_last()) + 1
    } else {
        expired_count(map.drop_last())
    }
}

/// Removing the tiles whose fade has run its course removes exactly those
/// from the count of playable tiles.
pub proof fn lemma_count_survivors(map: Seq<Tile>)
    ensures
        playable_count(survivors(map)) + expired_count(map) == playable_count(map),
    decreases map.len(),
{
    if map.len() == 0 {
        assert(survivors(map) =~= Seq::<Tile>::empty());
    } else {
        lemma_survivors_last(map);
        lemma_count_survivors(map.drop_last());
        if alive(map.last()) {
            let rest = survivors(map.drop_last());
            assert(rest.push(map.last()).drop_last() =~= rest);
        }
    }
}

/// Boards that hold the same kinds in the same places hold equally many
/// playable tiles.
pub proof fn lemma_count_same_kinds(a: Seq<Tile>, b: Seq<Tile>)
    requires
        a.len() == b.len(),
        forall|i: int| 0 <= i < a.len() ==> (#[trigger] a[i]).c == b[i].c,
    ensures
        playable_count(a) == playable_count(b),
    decreases a.len(),
{
    if a.len() > 0 {
        assert(a.last().c == b.last().c) by {
            assert(a[a.len() - 1].c == b[a.len() - 1].c);
        }
        assert forall|i: int| 0 <= i < a.drop_last().len() implies (#[trigger] a.drop_last()[i]).c
            == b.drop_last()[i].c by {
            assert(a[i].c == b[i].c);
        }
        lemma_count_same_kinds(a.drop_last(), b.drop_last());
    }
}

/// Conservation. A tick adds no tile, and the number of playable tiles goes
/// down by exactly the number of playable tiles whose fade has run its
/// course: nothing else takes a tile off the board.
pub proof fn lemma_conservation(state: Board)
    requires
        state.wf(),
    ensures
        state.ticked().map.len() <= state.map.len(),
        playable_count(state.ticked().map) + expired_count(state.stepped()) == playable_count(
            state.map,
        ),
        playable_count(state.ticked().map) <= playable_count(state.map),
{
    lemma_tick_pointwise(state);
    let stepped = state.stepped();
    assert forall|i: int| 0 <= i < stepped.len() implies (#[trigger] stepped[i]).c
        == state.map[i].c by {
        lemma_after_all_preserves(state.map[i], state.changes_for(state.map[i]));
    }
    lemma_count_same_kinds(stepped, state.map);
    lemma_count_survivors(stepped);
    lemma_survivors_wf(stepped);
}

/// Idempotence of resolution. The change list of a tick is a function of the
/// board, of the cell under the cursor and of whether a fade is under way:
/// two snapshots that agree on these give the same list, and so does the
/// same snapshot asked twice.
pub proof fn lemma_resolution_is_a_function(
    first: Board,
    second: Board,
    tiles: Seq<Tile>,
)
    requires
        first.map == second.map,
        first.player == second.player,
        first.fading_out == second.fading_out,
    ensures
        first.next_changes(tiles) == second.next_changes(tiles),
    decreases tiles.len(),
{
    if tiles.len() > 0 {
        lemma_resolution_is_a_function(first, second, tiles.drop_last());
        let t = tiles.last();
        lemma_first_hit(first.map, t.id, t.position.x as int, t.position.y + SPEED);
        lemma_first_hit(first.map, t.id, t.position.x + t.velocity.x, t.position.y + t.velocity.y);
        lemma_platforms_agree(first, second, t);
        if first.beneath(t) is Some {
            lemma_platforms_agree(first, second, first.map[first.beneath(t).unwrap()]);
        }
        if first.ahead(t, t.velocity) is Some {
            lemma_platforms_agree(first, second, first.map[first.ahead(t, t.velocity).unwrap()]);
        }
    }
}

/// Two snapshots with the same board give a tile at rest, and a platform, the
/// same change and the same velocity to leave the tick with.
proof fn lemma_platforms_agree(first: Board, second: Board, p: Tile)
    requires
        first.map == second.map,
    ensures
        first.leaving_velocity(p) == second.leaving_velocity(p),
        first.platform_change(p) == second.platform_change(p),
        first.ahead(p, Vector::zero()) is None ==> first.rest_change(p) == second.rest_change(p),
    decreases i32::MAX - p.position.y,
{
    if first.ahead(p, Vector::zero()) is None {
        match first.beneath(p) {
            Some(b) => {
                lemma_first_hit(first.map, p.id, p.position.x as int, p.position.y + SPEED);
                lemma_first_hit(first.map, p.id, p.position.x + 0, p.position.y + 0);
                lemma_platforms_agree(first, second, first.map[b]);
            },
            None => {},
        }
    }
}

/// Whether `chain` lists the tiles that `t` would push by `v`, one after the
/// other: the tile in the way of `t`, then the tile in the way of that one,
/// and so on.
pub open spec fn is_push_chain(map: Seq<Tile>, t: Tile, v: Vector, chain: Seq<int>) -> bool
    decreases chain.len(),
{
    chain.len() == 0 || (first_hit(map, t.id, t.position.x + v.x, t.position.y + v.y) == Some(
        chain[0],
    ) && is_push_chain(map, map[chain[0]], v, chain.drop_first()))
}

/// Push chains. A tile that is not playable cannot be pushed, and a chain
/// with a tile that is not playable anywhere in it cannot be pushed either.
pub proof fn lemma_wall_blocks_chain(
    map: Seq<Tile>,
    t: Tile,
    v: Vector,
    fuel: nat,
    chain: Seq<int>,
    k: int,
)
    requires
        is_push_chain(map, t, v, chain),
        0 <= k < chain.len(),
        !map[chain[k]].playable(),
    ensures
        !chain_gives_way(map, t, v, fuel),
    decreases chain.len(),
{
    if fuel > 0 && t.playable() {
        let ahead = map[chain[0]];
        if k > 0 {
            lemma_wall_blocks_chain(map, ahead, v, (fuel - 1) as nat, chain.drop_first(), k - 1);
        } else {
            assert(!chain_gives_way(map, ahead, v, (fuel - 1) as nat));
        }
    }
}

/// A chain that ends before a free spot can be pushed as long as all its
/// tiles are playable and it is no longer than the fuel allows.
pub proof fn lemma_free_chain_gives_way(
    map: Seq<Tile>,
    t: Tile,
    v: Vector,
    fuel: nat,
    chain: Seq<int>,
)
    requires
        is_push_chain(map, t, v, chain),
        chain.len() <= fuel,
        t.playable(),
        forall|k: int| 0 <= k < chain.len() ==> map[#[trigger] chain[k]].playable(),
        ({
            let end = if chain.len() == 0 {
                t
            } else {
                map[chain.last()]
            };
            first_hit(map, end.id, end.position.x + v.x, end.position.y + v.y) is None
        }),
    ensures
        chain_gives_way(map, t, v, fuel),
    decreases chain.len(),
{
    if chain.len() > 0 {
        let rest = chain.drop_first();
        assert(map[chain[0]].playable());
        assert forall|k: int| 0 <= k < rest.len() implies map[#[trigger] rest[k]].playable() by {
            assert(map[chain[k + 1]].playable());
        }
        if rest.len() > 0 {
            assert(rest.last() == chain.last());
        }
        lemma_free_chain_gives_way(map, map[chain[0]], v, (fuel - 1) as nat, rest);
    }
}

/// What the movement rule can give. Only a tile that moves, with nothing in
/// its way, moves on. Only a platform with something in its way bounces, and
/// only a tile that is no platform stops. Only a tile at rest with nothing
/// beneath it is given a fresh velocity, that of a fall. The movement rule
/// never makes a tile jump or fade, nor sets the riding flag alone.
pub proof fn lemma_motion_shape(state: Board, t: Tile)
    ensures
        state.motion_change(t) == Some(TileChange::Move) ==> t.velocity != Vector::zero()
            && is_clear(
            state.map,
            t.id,
            t.position.x + t.velocity.x,
            t.position.y + t.velocity.y,
        ),
        state.motion_change(t) == Some(TileChange::Bounce) ==> t.looping && state.ahead(
            t,
            t.velocity,
        ) is Some,
        state.motion_change(t) == Some(TileChange::Stop) ==> !t.looping && state.ahead(
            t,
            t.velocity,
        ) is Some,
        state.motion_change(t) == Some(TileChange::Fall) ==> t.rider(),
        state.motion_change(t) matches Some(TileChange::VelocityUpdate(v)) ==> v == Vector::fall()
            && t.velocity == Vector::zero() && state.beneath(t) is None,
        !(state.motion_change(t) matches Some(TileChange::Jump(_))),
        !(state.motion_change(t) matches Some(TileChange::RidingFlag(_))),
        state.motion_change(t) != Some(TileChange::FadeOut),
{
    lemma_first_hit(state.map, t.id, t.position.x + t.velocity.x, t.position.y + t.velocity.y);
}

/// A platform leaves the tick with the velocity that the riders are given.
pub proof fn lemma_platform_leaves(state: Board, p: Tile)
    requires
        !state.fading_out,
        p.looping,
    ensures
        p.after_all(state.changes_for(p)).velocity == state.leaving_velocity(p),
        p.wf() ==> state.leaving_velocity(p).quantized(),
{
    if p.playable() && p.fade_step == 0 {
        lemma_stepped_tile(state, p);
    } else {
        lemma_stepped_still(state, p);
    }
}

/// Whether platform `p` is the one that tile `t` rides when the tick is
/// over: it is a platform on the board, beneath `t` or in its way, and `v` is
/// the velocity with which it leaves the tick.
pub open spec fn carried_by(state: Board, t: Tile, p: int, v: Vector) -> bool {
    &&& 0 <= p < state.map.len()
    &&& state.map[p].looping
    &&& (state.beneath(t) == Some(p) || state.ahead(t, t.velocity) == Some(p))
    &&& v == state.leaving_velocity(state.map[p])
}

/// A tile that is told to start riding is given the velocity of a platform
/// that it touches.
proof fn lemma_start_riding(state: Board, t: Tile, v: Vector)
    requires
        !t.looping,
        state.motion_change(t) == Some(TileChange::StartRiding(v)),
    ensures
        exists|p: int| carried_by(state, t, p, v),
{
    let map = state.map;
    lemma_first_hit(map, t.id, t.position.x as int, t.position.y + SPEED);
    lemma_first_hit(map, t.id, t.position.x + t.velocity.x, t.position.y + t.velocity.y);
    if t.riding {
        let p = state.beneath(t).unwrap();
        let own = state.leaving_velocity(map[p]);
        if own != t.velocity || state.drag_change(t) is Some {
            assert(carried_by(state, t, p, v));
        } else {
            let c = state.ahead(t, t.velocity).unwrap();
            assert(carried_by(state, t, c, v));
        }
    } else if state.ahead(t, t.velocity) is Some {
        let c = state.ahead(t, t.velocity).unwrap();
        assert(carried_by(state, t, c, v));
    } else {
        let b = state.beneath(t).unwrap();
        assert(carried_by(state, t, b, v));
    }
}

/// A rider that is neither told to start riding nor to fall has no drag to
/// resolve and moves at the velocity of the platform beneath it.
proof fn lemma_keeps_riding(state: Board, t: Tile)
    requires
        !t.looping,
        t.riding,
        !(state.motion_change(t) matches Some(TileChange::StartRiding(_))),
        state.motion_change(t) != Some(TileChange::Fall),
    ensures
        state.drag_change(t) is None,
        exists|p: int| carried_by(state, t, p, t.velocity),
{
    let map = state.map;
    lemma_first_hit(map, t.id, t.position.x as int, t.position.y + SPEED);
    let p = state.beneath(t).unwrap();
    assert(carried_by(state, t, p, t.velocity));
}

/// Riding fidelity. On a well-formed board on which no fade is under way, a
/// playable tile that is no platform and that a tick leaves marked as riding
/// leaves the tick with the velocity of a platform it touches: the platform
/// beneath it or the one in its way.
pub proof fn lemma_riding_fidelity(state: Board, i: int)
    requires
        state.wf(),
        0 <= i < state.map.len(),
        !state.fading_out,
        state.map[i].playable(),
        state.map[i].fade_step == 0,
        !state.map[i].looping,
        state.stepped()[i].riding,
    ensures
        exists|p: int|
            {
                &&& 0 <= p < state.map.len()
                &&& (#[trigger] state.map[p]).looping
                &&& (state.beneath(state.map[i]) == Some(p) || state.ahead(
                    state.map[i],
                    state.map[i].velocity,
                ) == Some(p))
                &&& state.stepped()[i].velocity == state.stepped()[p].velocity
            },
{
    let map = state.map;
    let t = map[i];
    let left = state.stepped()[i];
    lemma_stepped_tile(state, t);
    let dragged = opt_after(t, state.drag_change(t));
    let moved = opt_after(dragged, state.motion_change(t));
    assert(left == opt_after(moved, state.match_change(t)));
    assert(left.riding == moved.riding && left.velocity == moved.velocity);
    assert(dragged.riding == t.riding);
    let v = moved.velocity;
    assert(exists|p: int| carried_by(state, t, p, v)) by {
        match state.motion_change(t) {
            Some(TileChange::StartRiding(w)) => {
                lemma_start_riding(state, t, w);
                let p = choose|p: int| carried_by(state, t, p, w);
                assert(map[p].wf());
                lemma_platform_leaves(state, map[p]);
            },
            _ => {
                lemma_keeps_riding(state, t);
            },
        }
    }
    let p = choose|p: int| carried_by(state, t, p, v);
    lemma_platform_leaves(state, map[p]);
    assert(map[p].looping);
    assert(state.stepped()[p].velocity == v);
}

impl Board {
    /// Whether tile `t` starts to fade in the tick from this state.
    pub open spec fn starts_fading(self, t: Tile) -> bool {
        &&& t.playable()
        &&& t.fade_step == 0
        &&& !self.fading_out
        &&& self.match_change(t) is Some
    }
}

/// Whether each state of the list is the one before it, one tick later.
pub open spec fn is_run(states: Seq<Board>) -> bool {
    forall|k: int| 0 <= k < states.len() - 1 ==> states[k + 1] == (#[trigger] states[k]).ticked()
}

/// The fade counter of the tile with identifier `id`, if it is on the board.
pub open spec fn fade_of(map: Seq<Tile>, id: u32) -> Option<u32> {
    match index_of(map, id) {
        Some(i) => Some(map[i].fade_step),
        None => None,
    }
}

/// One tick of a fade. A playable tile that fades, or starts to fade, has
/// its counter advanced by one; it stays on the board while the counter is
/// below the limit and is gone once the counter reaches it.
pub proof fn lemma_fade_advances(state: Board, id: u32)
    requires
        state.wf(),
        index_of(state.map, id) matches Some(i) && state.map[i].playable() && (
        state.map[i].fade_step > 0 || state.starts_fading(state.map[i])),
    ensures
        unique_ids(state.ticked().map),
        all_wf(state.ticked().map),
        ({
            let i = index_of(state.map, id).unwrap();
            let step = state.map[i].fade_step;
            if step + 1 < FADE_STEPS {
                &&& fade_of(state.ticked().map, id) == Some((step + 1) as u32)
                &&& state.ticked().map[index_of(state.ticked().map, id).unwrap()].playable()
            } else {
                fade_of(state.ticked().map, id) is None
            }
        }),
{
    let map = state.map;
    lemma_index_of(map, id);
    let i = index_of(map, id).unwrap();
    let t = map[i];
    lemma_tick_pointwise(state);
    let stepped = state.stepped();
    let next = state.ticked().map;
    lemma_apply_list_shape(map, state.next_changes(map));
    lemma_survivors_wf(stepped);
    if t.fade_step > 0 {
        lemma_stepped_still(state, t);
    } else {
        lemma_stepped_tile(state, t);
    }
    lemma_after_all_preserves(t, state.changes_for(t));
    let origin = lemma_survivors_selection(stepped);
    if alive(stepped[i]) {
        let k = choose|k: int| 0 <= k < origin.len() && origin[k] == i;
        assert(next[k] == stepped[i]);
        lemma_index_of(next, id);
        let found = index_of(next, id).unwrap();
        if found != k {
            if found < k {
                assert(next[found].id != next[k].id);
            } else {
                assert(next[k].id != next[found].id);
            }
        }
    } else {
        assert forall|k: int| 0 <= k < next.len() implies (#[trigger] next[k]).id != id by {
            assert(alive(next[k]));
            assert(next[k] == stepped[origin[k]]);
            if origin[k] < i {
                assert(stepped[origin[k]].id != stepped[i].id);
            } else if origin[k] > i {
                assert(stepped[i].id != stepped[origin[k]].id);
            }
        }
    }
}

/// Fade timing, step by step: `n` ticks after a tile started to fade its
/// counter stands at `n`, until it is removed at the limit.
proof fn lemma_fade_progress(states: Seq<Board>, id: u32, n: int)
    requires
        is_run(states),
        1 <= n < states.len(),
        n <= FADE_STEPS,
        states[0].wf(),
        index_of(states[0].map, id) matches Some(i) && states[0].starts_fading(
            states[0].map[i],
        ),
    ensures
        states[n].wf(),
        n < FADE_STEPS ==> fade_of(states[n].map, id) == Some(n as u32)
            && states[n].map[index_of(states[n].map, id).unwrap()].playable(),
        n == FADE_STEPS ==> fade_of(states[n].map, id) is None,
    decreases n,
{
    assert(states[n] == states[n - 1].ticked());
    if n > 1 {
        lemma_fade_progress(states, id, n - 1);
    }
    lemma_fade_advances(states[n - 1], id);
}

/// Fade timing. A tile that starts to fade in the tick from the first state
/// of a run is on the board with its counter at `k` after `k` ticks, for
/// every `k` below the limit of 50, and is gone after exactly 50 ticks.
pub proof fn lemma_fade_timing(states: Seq<Board>, id: u32)
    requires
        is_run(states),
        states.len() == FADE_STEPS + 1,
        states[0].wf(),
        index_of(states[0].map, id) matches Some(i) && states[0].starts_fading(
            states[0].map[i],
        ),
    ensures
        forall|k: int|
            1 <= k < FADE_STEPS ==> fade_of((#[trigger] states[k]).map, id) == Some(
                k as u32,
            ),
        fade_of(states[FADE_STEPS as int].map, id) is None,
{
    assert forall|k: int| 1 <= k < FADE_STEPS implies fade_of(
        (#[trigger] states[k]).map,
        id,
    ) == Some(k as u32) by {
        lemma_fade_progress(states, id, k);
    }
    lemma_fade_progress(states, id, FADE_STEPS as int);
}

/// A tick keeps the board well formed: every velocity stays among the five
/// quantized ones and no two tiles come to share an identifier.
pub proof fn lemma_tick_keeps_well_formed(state: Board)
    requires
        state.wf(),
    ensures
        state.ticked().wf(),
{
    lemma_apply_list_shape(state.map, state.next_changes(state.map));
    lemma_survivors_wf(apply_list(state.map, state.next_changes(state.map)));
}

/// The fade counter of a tile that stays on the board never goes down. In
/// particular a tile that fades never stops fading: it fades on until it is
/// removed.
pub proof fn lemma_fade_never_decreases(state: Board, id: u32)
    requires
        state.wf(),
        fade_of(state.map, id) is Some,
        fade_of(state.ticked().map, id) is Some,
    ensures
        fade_of(state.ticked().map, id).unwrap() >= fade_of(state.map, id).unwrap(),
{
    let map = state.map;
    let next = state.ticked().map;
    let stepped = state.stepped();
    lemma_tick_pointwise(state);
    lemma_index_of(map, id);
    lemma_index_of(next, id);
    let i = index_of(map, id).unwrap();
    let k = index_of(next, id).unwrap();
    let origin = lemma_survivors_selection(stepped);
    lemma_apply_list_shape(map, state.next_changes(map));
    assert(next[k] == stepped[origin[k]]);
    if origin[k] < i {
        assert(stepped[origin[k]].id != stepped[i].id);
    } else if origin[k] > i {
        assert(stepped[i].id != stepped[origin[k]].id);
    }
    lemma_after_all_preserves(map[i], state.changes_for(map[i]));
}

/// Cell uniqueness, tick after tick. Along a run that starts from a
/// well-formed board with its playable tiles at pairwise different
/// positions, and in which no tick makes two tiles jump, the playable tiles
/// are at pairwise different positions in every state, and no two playable
/// tiles at rest ever occupy the same cell.
pub proof fn lemma_cells_unique_along_run(states: Seq<Board>, n: int)
    requires
        is_run(states),
        0 <= n < states.len(),
        states[0].wf(),
        playable_apart(states[0].map),
        forall|k: int| 0 <= k < n ==> jumps_once(#[trigger] states[k]),
    ensures
        states[n].wf(),
        playable_apart(states[n].map),
        cells_unique(states[n].map),
    decreases n,
{
    if n == 0 {
        assert forall|k: int, l: int| 0 <= k < l < states[0].map.len() implies !share_cell(
            #[trigger] states[0].map[k],
            #[trigger] states[0].map[l],
        ) by {
            if share_cell(states[0].map[k], states[0].map[l]) {
                lemma_share_cell_position(states[0].map[k], states[0].map[l]);
            }
        }
    } else {
        lemma_cells_unique_along_run(states, n - 1);
        assert(states[n] == states[n - 1].ticked());
        assert(jumps_once(states[n - 1]));
        lemma_tick_keeps_well_formed(states[n - 1]);
        lemma_cells_stay_unique(states[n - 1]);
    }
}

/// Conservation, tick after tick. Along a run that starts from a well-formed
/// board the number of playable tiles never goes up.
pub proof fn lemma_conservation_along_run(states: Seq<Board>, m: int, n: int)
    requires
        is_run(states),
        0 <= m <= n < states.len(),
        states[0].wf(),
    ensures
        states[n].wf(),
        playable_count(states[n].map) <= playable_count(states[m].map),
    decreases n,
{
    if n == 0 {
    } else {
        assert(states[n] == states[n - 1].ticked());
        if m < n {
            lemma_conservation_along_run(states, m, n - 1);
        } else {
            lemma_conservation_along_run(states, n - 1, n - 1);
        }
        lemma_tick_keeps_well_formed(states[n - 1]);
        lemma_conservation(states[n - 1]);
    }
}

/// Whether tile `i` of `map` has the velocity of a platform on the board.
pub open spec fn follows_a_platform(map: Seq<Tile>, i: int) -> bool {
    exists|p: int|
        0 <= p < map.len() && (#[trigger] map[p]).looping && map[p].velocity == map[i].velocity
}

/// Whether every playable tile that rides has the velocity of a platform on
/// the board.
pub open spec fn riders_follow(map: Seq<Tile>) -> bool {
    forall|i: int|
        0 <= i < map.len() && (#[trigger] map[i]).playable() && map[i].rider()
            ==> follows_a_platform(map, i)
}

impl Board {
    /// Whether the fade flag is set whenever a playable tile fades, as it is
    /// after every tick.
    pub open spec fn fades_are_flagged(self) -> bool {
        forall|i: int|
            0 <= i < self.map.len() && (#[trigger] self.map[i]).playable() && self.map[i].fade_step
                > 0 ==> self.fading_out
    }

    /// Whether the fade of a platform runs its course in the tick from this
    /// state, so that the platform leaves the board.
    pub open spec fn platform_expires(self) -> bool {
        exists|p: int|
            0 <= p < self.map.len() && (#[trigger] self.map[p]).looping && !alive(
                self.stepped()[p],
            )
    }
}

/// Whether an identifier is on the board is not changed by a change list.
pub proof fn lemma_index_stays(map: Seq<Tile>, changes: Seq<(u32, TileChange)>, id: u32)
    ensures
        index_of(apply_list(map, changes), id) is Some <==> index_of(map, id) is Some,
{
    let after = apply_list(map, changes);
    lemma_apply_list_shape(map, changes);
    lemma_index_of(map, id);
    lemma_index_of(after, id);
    if index_of(map, id) is Some {
        let i = index_of(map, id).unwrap();
        assert(after[i].id == id);
    }
    if index_of(after, id) is Some {
        let i = index_of(after, id).unwrap();
        assert(after[i].id == map[i].id);
    }
}

/// A change list advances a fade if its first part does, or if its second
/// part does on the board that the first part leaves.
pub proof fn lemma_fades_concat(
    map: Seq<Tile>,
    first: Seq<(u32, TileChange)>,
    second: Seq<(u32, TileChange)>,
)
    ensures
        fades(map, first + second) == (fades(map, first)
            || fades(apply_list(map, first), second)),
    decreases second.len(),
{
    if second.len() == 0 {
        assert(first + second =~= first);
    } else {
        assert((first + second).drop_last() =~= first + second.drop_last());
        assert((first + second).last() == second.last());
        lemma_fades_concat(map, first, second.drop_last());
        lemma_apply_list_concat(map, first, second.drop_last());
    }
}

/// The changes of one tile advance a fade if the tile is on the board and a
/// fade is among them.
pub proof fn lemma_fades_tagged(map: Seq<Tile>, id: u32, changes: Seq<TileChange>)
    requires
        index_of(map, id) is Some,
        changes.contains(TileChange::FadeOut),
    ensures
        fades(map, tagged(id, changes)),
    decreases changes.len(),
{
    let all = tagged(id, changes);
    assert(all.drop_last() =~= tagged(id, changes.drop_last()));
    if changes.last() == TileChange::FadeOut {
        lemma_index_stays(map, all.drop_last(), id);
    } else {
        let k = choose|k: int| 0 <= k < changes.len() && changes[k] == TileChange::FadeOut;
        assert(changes.drop_last()[k] == TileChange::FadeOut);
        lemma_fades_tagged(map, id, changes.drop_last());
    }
}

/// A tick advances a fade if a fade is among the changes of one of its tiles.
pub proof fn lemma_tick_fades(state: Board, n: int, i: int)
    requires
        0 <= i < n <= state.map.len(),
        state.changes_for(state.map[i]).contains(TileChange::FadeOut),
    ensures
        fades(state.map, state.next_changes(state.map.take(n))),
    decreases n,
{
    let map = state.map;
    let prefix = map.take(n);
    assert(prefix.drop_last() =~= map.take(n - 1));
    assert(prefix.last() == map[n - 1]);
    let before = state.next_changes(map.take(n - 1));
    let own = tagged(map[n - 1].id, state.changes_for(map[n - 1]));
    lemma_fades_concat(map, before, own);
    if i < n - 1 {
        lemma_tick_fades(state, n - 1, i);
    } else {
        assert(index_of(map, map[n - 1].id) is Some);
        lemma_index_stays(map, before, map[n - 1].id);
        lemma_fades_tagged(apply_list(map, before), map[n - 1].id, state.changes_for(map[n - 1]));
    }
}

/// After a tick the fade flag is set whenever a playable tile fades.
pub proof fn lemma_tick_flags_fades(state: Board)
    requires
        state.wf(),
    ensures
        state.ticked().fades_are_flagged(),
{
    let map = state.map;
    let next = state.ticked().map;
    let stepped = state.stepped();
    lemma_tick_pointwise(state);
    let origin = lemma_survivors_selection(stepped);
    assert forall|k: int|
        0 <= k < next.len() && (#[trigger] next[k]).playable() && next[k].fade_step
            > 0 implies state.ticked().fading_out by {
        let i = origin[k];
        let t = map[i];
        assert(next[k] == stepped[i]);
        lemma_after_all_preserves(t, state.changes_for(t));
        if t.fade_step > 0 || state.fading_out {
            lemma_stepped_still(state, t);
            assert(state.changes_for(t) =~= seq![TileChange::FadeOut]);
            assert(state.changes_for(t)[0] == TileChange::FadeOut);
        } else {
            lemma_stepped_tile(state, t);
            let changes = state.changes_for(t);
            assert(state.match_change(t) == Some(TileChange::FadeOut));
            assert(changes[changes.len() - 1] == TileChange::FadeOut);
        }
        lemma_tick_fades(state, map.len() as int, i);
        assert(map.take(map.len() as int) =~= map);
    }
}

/// Riding fidelity, as an invariant of the tick. On a well-formed board on
/// which the fade flag is set whenever a playable tile fades, and on which
/// every playable rider has the velocity of a platform, every playable rider
/// has the velocity of a platform after the tick as well, provided that no
/// platform leaves the board in that tick. A rider touched by a platform
/// that bounces is reversed in the same tick.
pub proof fn lemma_riders_keep_following(state: Board)
    requires
        state.wf(),
        state.fades_are_flagged(),
        riders_follow(state.map),
        !state.platform_expires(),
    ensures
        riders_follow(state.ticked().map),
        state.ticked().wf(),
        state.ticked().fades_are_flagged(),
{
    let map = state.map;
    let next = state.ticked().map;
    let stepped = state.stepped();
    lemma_tick_pointwise(state);
    lemma_tick_keeps_well_formed(state);
    lemma_tick_flags_fades(state);
    let origin = lemma_survivors_selection(stepped);
    assert forall|k: int|
        0 <= k < next.len() && (#[trigger] next[k]).playable() && next[k].rider()
            implies follows_a_platform(next, k) by {
        let i = origin[k];
        let t = map[i];
        assert(next[k] == stepped[i]);
        lemma_after_all_preserves(t, state.changes_for(t));
        let p = lemma_rider_follows_stepped(state, i);
        lemma_after_all_preserves(map[p], state.changes_for(map[p]));
        assert(alive(stepped[p]));
        let l = choose|l: int| 0 <= l < origin.len() && origin[l] == p;
        assert(next[l] == stepped[p]);
        assert(next[l].looping && next[l].velocity == next[k].velocity);
    }
}

/// The platform whose velocity a playable rider has when the tiles have
/// taken the changes of a tick.
proof fn lemma_rider_follows_stepped(state: Board, i: int) -> (p: int)
    requires
        state.wf(),
        state.fades_are_flagged(),
        riders_follow(state.map),
        0 <= i < state.map.len(),
        state.map[i].playable(),
        state.stepped()[i].rider(),
    ensures
        0 <= p < state.map.len(),
        state.map[p].looping,
        state.stepped()[p].velocity == state.stepped()[i].velocity,
{
    let map = state.map;
    let t = map[i];
    lemma_after_all_preserves(t, state.changes_for(t));
    if state.fading_out || t.fade_step > 0 {
        assert(state.fading_out);
        lemma_stepped_still(state, t);
        assert(t.rider());
        assert(follows_a_platform(map, i));
        let p = choose|p: int|
            0 <= p < map.len() && (#[trigger] map[p]).looping && map[p].velocity == map[i].velocity;
        lemma_stepped_still(state, map[p]);
        p
    } else {
        lemma_riding_fidelity(state, i);
        let p = choose|p: int|
            {
                &&& 0 <= p < state.map.len()
                &&& (#[trigger] state.map[p]).looping
                &&& (state.beneath(state.map[i]) == Some(p) || state.ahead(
                    state.map[i],
                    state.map[i].velocity,
                ) == Some(p))
                &&& state.stepped()[i].velocity == state.stepped()[p].velocity
            };
        p
    }
}

/// Riding fidelity, tick after tick. Along a run that starts from a
/// well-formed board on which no playable tile fades unflagged and every
/// playable rider has the velocity of a platform, and in which no platform
/// leaves the board, every playable rider has the velocity of a platform in
/// every state.
pub proof fn lemma_riders_follow_along_run(states: Seq<Board>, n: int)
    requires
        is_run(states),
        0 <= n < states.len(),
        states[0].wf(),
        states[0].fades_are_flagged(),
        riders_follow(states[0].map),
        forall|k: int| 0 <= k < n ==> !(#[trigger] states[k]).platform_expires(),
    ensures
        states[n].wf(),
        states[n].fades_are_flagged(),
        riders_follow(states[n].map),
    decreases n,
{
    if n > 0 {
        lemma_riders_follow_along_run(states, n - 1);
        assert(states[n] == states[n - 1].ticked());
        assert(!states[n - 1].platform_expires());
        lemma_riders_keep_following(states[n - 1]);
    }
}

} // verus!
