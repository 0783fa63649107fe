//! How a change list acts on the board tile by tile: the facts that the laws
//! of the simulation are proved from.

use vstd::prelude::*;
use crate::apply::{
    alive,
    apply_list,
    apply_one,
    index_of,
    is_first_with_id,
    lemma_index_of_unique,
    lemma_survivors_last,
    survivors,
};
use crate::playing_state::{all_wf, unique_ids, Board};
use crate::resolver::tagged;
use crate::tile::{lemma_change_preserves, Tile, TileChange};

verus! {

/// Whether `b` holds the tiles of `a`, index by index, possibly changed: the
/// same identifiers, kinds and platforms in the same places.
pub open spec fn same_tiles(a: Seq<Tile>, b: Seq<Tile>) -> bool {
    &&& a.len() == b.len()
    &&& forall|i: int|
        0 <= i < a.len() ==> (#[trigger] b[i]).id == a[i].id && b[i].c == a[i].c && b[i].looping
            == a[i].looping
}

/// Whether `sub` holds some of the tiles of `map`, in their order.
pub open spec fn is_selection(sub: Seq<Tile>, map: Seq<Tile>, origin: Seq<int>) -> bool {
    &&& origin.len() == sub.len()
    &&& forall|k: int| 0 <= k < sub.len() ==> 0 <= #[trigger] origin[k] < map.len() && sub[k] == map[origin[k]]
    &&& forall|k: int, l: int| 0 <= k < l < sub.len() ==> #[trigger] origin[k] < #[trigger] origin[l]
}

impl Board {
    /// The board after every tile took its own changes of this tick, before
    /// the tiles whose fade has run its course are removed.
    pub open spec fn stepped(self) -> Seq<Tile> {
        Seq::new(self.map.len(), |i: int| self.map[i].after_all(self.changes_for(self.map[i])))
    }
}

/// A list of changes alters neither the identifier, nor the kind of a tile,
/// nor whether it is a platform, keeps its velocity quantized and never
/// lowers its fade counter.
pub proof fn lemma_after_all_preserves(t: Tile, changes: Seq<TileChange>)
    ensures
        t.after_all(changes).id == t.id,
        t.after_all(changes).c == t.c,
        t.after_all(changes).looping == t.looping,
        t.after_all(changes).fade_step >= t.fade_step,
        t.wf() ==> t.after_all(changes).wf(),
    decreases changes.len(),
{
    if changes.len() > 0 {
        lemma_after_all_preserves(t, changes.drop_last());
        lemma_change_preserves(t.after_all(changes.drop_last()), changes.last());
    }
}

/// One change keeps every tile in its place and the board well formed.
pub proof fn lemma_apply_one_shape(map: Seq<Tile>, id: u32, change: TileChange)
    ensures
        same_tiles(map, apply_one(map, id, change)),
        all_wf(map) ==> all_wf(apply_one(map, id, change)),
        unique_ids(map) ==> unique_ids(apply_one(map, id, change)),
{
    let after = apply_one(map, id, change);
    match index_of(map, id) {
        Some(i) => {
            lemma_index_of(map, id);
            lemma_change_preserves(map[i], change);
            assert forall|k: int| 0 <= k < map.len() implies (#[trigger] after[k]).id
                == map[k].id && after[k].c == map[k].c && after[k].looping == map[k].looping by {}
            if all_wf(map) {
                assert forall|k: int| 0 <= k < after.len() implies (#[trigger] after[k]).wf() by {
                    assert(map[k].wf());
                }
            }
            if unique_ids(map) {
                assert forall|k: int, l: int| 0 <= k < l < after.len() implies (
                #[trigger] after[k]).id != (#[trigger] after[l]).id by {
                    assert(map[k].id != map[l].id);
                }
            }
        },
        None => {},
    }
}

/// Whatever `index_of` returns is described by `is_first_with_id`.
pub proof fn lemma_index_of(map: Seq<Tile>, id: u32)
    ensures
        index_of(map, id) matches Some(i) ==> is_first_with_id(map, id, i),
        index_of(map, id) is None ==> forall|j: int| 0 <= j < map.len() ==> (#[trigger] map[j]).id != id,
{
    if index_of(map, id) is Some {
        lemma_some_first_with_id(map, id, map.len() as int);
    }
}

/// Among the first `n` tiles either none carries `id` or one of them is the first.
proof fn lemma_some_first_with_id(map: Seq<Tile>, id: u32, n: int)
    requires
        0 <= n <= map.len(),
    ensures
        (forall|j: int| 0 <= j < n ==> (#[trigger] map[j]).id != id) || (exists|i: int|
            is_first_with_id(map, id, i)),
    decreases n,
{
    if n > 0 {
        lemma_some_first_with_id(map, id, n - 1);
        if forall|j: int| 0 <= j < n - 1 ==> (#[trigger] map[j]).id != id {
            if map[n - 1].id == id {
                assert(is_first_with_id(map, id, n - 1));
            }
        }
    }
}

/// A change list keeps every tile in its place and the board well formed.
pub proof fn lemma_apply_list_shape(map: Seq<Tile>, changes: Seq<(u32, TileChange)>)
    ensures
        same_tiles(map, apply_list(map, changes)),
        all_wf(map) ==> all_wf(apply_list(map, changes)),
        unique_ids(map) ==> unique_ids(apply_list(map, changes)),
    decreases changes.len(),
{
    if changes.len() > 0 {
        let before = apply_list(map, changes.drop_last());
        lemma_apply_list_shape(map, changes.drop_last());
        lemma_apply_one_shape(before, changes.last().0, changes.last().1);
        let after = apply_list(map, changes);
        assert forall|i: int| 0 <= i < map.len() implies (#[trigger] after[i]).id == map[i].id
            && after[i].c == map[i].c && after[i].looping == map[i].looping by {
            assert(before[i].id == map[i].id);
        }
    }
}

/// Applying two change lists one after the other is applying them joined.
pub proof fn lemma_apply_list_concat(
    map: Seq<Tile>,
    first: Seq<(u32, TileChange)>,
    second: Seq<(u32, TileChange)>,
)
    ensures
        apply_list(map, first + second) == apply_list(apply_list(map, first), second),
    decreases second.len(),
{
    if second.len() == 0 {
        assert(first + second =~= first);
    } else {
        assert((first + second).drop_last() =~= first + second.drop_last());
        lemma_apply_list_concat(map, first, second.drop_last());
    }
}

/// The changes of one tile reach that tile and no other.
pub proof fn lemma_apply_tagged(map: Seq<Tile>, i: int, changes: Seq<TileChange>)
    requires
        0 <= i < map.len(),
        unique_ids(map),
    ensures
        apply_list(map, tagged(map[i].id, changes)) == map.update(i, map[i].after_all(changes)),
    decreases changes.len(),
{
    let id = map[i].id;
    if changes.len() == 0 {
        assert(map.update(i, map[i]) =~= map);
    } else {
        let all = tagged(id, changes);
        assert(all.drop_last() =~= tagged(id, changes.drop_last()));
        lemma_apply_tagged(map, i, changes.drop_last());
        let before = map.update(i, map[i].after_all(changes.drop_last()));
        lemma_after_all_preserves(map[i], changes.drop_last());
        assert forall|j: int| 0 <= j < i implies (#[trigger] before[j]).id != id by {
            assert(map[j].id != map[i].id);
        }
        lemma_index_of_unique(before, id, i);
        assert(before.update(i, before[i].after(changes.last())) =~= map.update(
            i,
            map[i].after_all(changes),
        ));
    }
}

/// The board after the changes of the first `n` tiles of a tick: those tiles
/// took their changes, the others are untouched.
pub proof fn lemma_tick_prefix(state: Board, n: int)
    requires
        unique_ids(state.map),
        0 <= n <= state.map.len(),
    ensures
        apply_list(state.map, state.next_changes(state.map.take(n))) == Seq::new(
            state.map.len(),
            |i: int|
                if i < n {
                    state.map[i].after_all(state.changes_for(state.map[i]))
                } else {
                    state.map[i]
                },
        ),
    decreases n,
{
    let map = state.map;
    let goal = Seq::new(
        map.len(),
        |i: int|
            if i < n {
                map[i].after_all(state.changes_for(map[i]))
            } else {
                map[i]
            },
    );
    if n == 0 {
        assert(map.take(0).len() == 0);
        assert(apply_list(map, state.next_changes(map.take(0))) =~= goal);
    } else {
        let prefix = map.take(n);
        assert(prefix.drop_last() =~= map.take(n - 1));
        assert(prefix.last() == map[n - 1]);
        lemma_tick_prefix(state, n - 1);
        let before = apply_list(map, state.next_changes(map.take(n - 1)));
        let own = state.changes_for(map[n - 1]);
        lemma_apply_list_concat(map, state.next_changes(map.take(n - 1)), tagged(map[n - 1].id, own));
        lemma_apply_list_shape(map, state.next_changes(map.take(n - 1)));
        assert(before[n - 1] == map[n - 1]);
        lemma_apply_tagged(before, n - 1, own);
        assert(before.update(n - 1, before[n - 1].after_all(own)) =~= goal);
    }
}

/// In a tick every tile takes its own changes and no others.
pub proof fn lemma_tick_pointwise(state: Board)
    requires
        unique_ids(state.map),
    ensures
        apply_list(state.map, state.next_changes(state.map)) == state.stepped(),
        state.ticked().map == survivors(state.stepped()),
{
    lemma_tick_prefix(state, state.map.len() as int);
    assert(state.map.take(state.map.len() as int) =~= state.map);
    assert(apply_list(state.map, state.next_changes(state.map)) =~= state.stepped());
}

/// The tiles that stay on the board are tiles of the board, in their order,
/// and all of them are alive.
pub proof fn lemma_survivors_selection(map: Seq<Tile>) -> (origin: Seq<int>)
    ensures
        is_selection(survivors(map), map, origin),
        forall|k: int| 0 <= k < survivors(map).len() ==> alive(#[trigger] survivors(map)[k]),
        forall|i: int|
            0 <= i < map.len() && alive(#[trigger] map[i]) ==> exists|k: int|
                0 <= k < origin.len() && origin[k] == i,
    decreases map.len(),
{
    if map.len() == 0 {
        assert(survivors(map) =~= Seq::empty());
        Seq::empty()
    } else {
        lemma_survivors_last(map);
        let rest = lemma_survivors_selection(map.drop_last());
        let origin = if alive(map.last()) {
            rest.push(map.len() - 1)
        } else {
            rest
        };
        let sub = survivors(map);
        assert forall|i: int| 0 <= i < map.len() && alive(#[trigger] map[i]) implies exists|k: int|
            0 <= k < origin.len() && origin[k] == i by {
            if i < map.len() - 1 {
                assert(alive(map.drop_last()[i]));
                let k = choose|k: int| 0 <= k < rest.len() && rest[k] == i;
                assert(origin[k] == i);
            } else {
                assert(origin[origin.len() - 1] == i);
            }
        }
        origin
    }
}

/// Removing the tiles whose fade has run its course keeps the board well formed.
pub proof fn lemma_survivors_wf(map: Seq<Tile>)
    ensures
        all_wf(map) ==> all_wf(survivors(map)),
        unique_ids(map) ==> unique_ids(survivors(map)),
        survivors(map).len() <= map.len(),
{
    let origin = lemma_survivors_selection(map);
    let sub = survivors(map);
    if all_wf(map) {
        assert forall|k: int| 0 <= k < sub.len() implies (#[trigger] sub[k]).wf() by {
            assert(map[origin[k]].wf());
        }
    }
    if unique_ids(map) {
        assert forall|k: int, l: int| 0 <= k < l < sub.len() implies (#[trigger] sub[k]).id != (
        #[trigger] sub[l]).id by {
            assert(origin[k] < origin[l]);
            assert(map[origin[k]].id != map[origin[l]].id);
        }
    }
    lemma_increasing_bound(origin, map.len() as int);
}

/// A strictly increasing list of indices below `bound` is no longer than `bound`.
proof fn lemma_increasing_bound(origin: Seq<int>, bound: int)
    requires
        0 <= bound,
        forall|k: int| 0 <= k < origin.len() ==> 0 <= #[trigger] origin[k] < bound,
        forall|k: int, l: int| 0 <= k < l < origin.len() ==> #[trigger] origin[k] < #[trigger] origin[l],
    ensures
        origin.len() <= bound,
    decreases origin.len(),
{
    if origin.len() > 0 {
        let rest = origin.drop_last();
        let top = origin.last();
        assert forall|k: int| 0 <= k < rest.len() implies 0 <= #[trigger] rest[k] < top by {
            assert(origin[k] < origin[origin.len() - 1]);
        }
        assert forall|k: int, l: int| 0 <= k < l < rest.len() implies #[trigger] rest[k]
            < #[trigger] rest[l] by {
            assert(origin[k] < origin[l]);
        }
        lemma_increasing_bound(rest, top);
    }
}

} // verus!
