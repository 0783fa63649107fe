//! Applying a change list to the board, and the tick that computes a change
//! list from the board and applies it.

use vstd::prelude::*;
use crate::laws::{
    cells_unique,
    jumps_once,
    lemma_cells_stay_unique,
    lemma_riders_keep_following,
    lemma_tick_flags_fades,
    playable_apart,
    riders_follow,
};
use crate::playing_state::{Board, PlayingState};
use crate::sound::Sounds;
use crate::stepping::{lemma_apply_list_shape, lemma_survivors_wf};
use crate::tile::{Tile, TileChange, FADE_STEPS};

verus! {

/// Whether index `i` holds the first tile of `map` with identifier `id`.
pub open spec fn is_first_with_id(map: Seq<Tile>, id: u32, i: int) -> bool {
    &&& 0 <= i < map.len()
    &&& map[i].id == id
    &&& forall|j: int| 0 <= j < i ==> (#[trigger] map[j]).id != id
}

/// Whether no tile of `map` has identifier `id`.
pub open spec fn id_is_absent(map: Seq<Tile>, id: u32) -> bool {
    forall|j: int| 0 <= j < map.len() ==> (#[trigger] map[j]).id != id
}

/// The index of the first tile of `map` with identifier `id`, if any.
pub open spec fn index_of(map: Seq<Tile>, id: u32) -> Option<int> {
    if id_is_absent(map, id) {
        None
    } else {
        Some(choose|i: int| is_first_with_id(map, id, i))
    }
}

/// The first tile with an identifier is the only index that
/// `is_first_with_id` accepts.
pub proof fn lemma_index_of_unique(map: Seq<Tile>, id: u32, i: int)
    requires
        is_first_with_id(map, id, i),
    ensures
        index_of(map, id) == Some(i),
{
    let j = choose|j: int| is_first_with_id(map, id, j);
    assert(is_first_with_id(map, id, j));
    if j < i {
        assert(map[j].id != id);
    }
    if i < j {
        assert(map[i].id != id);
    }
}

/// The board after one change to the tile with identifier `id`. A change for
/// an identifier that is not on the board is skipped.
pub open spec fn apply_one(map: Seq<Tile>, id: u32, change: TileChange) -> Seq<Tile> {
    match index_of(map, id) {
        Some(i) => map.update(i, map[i].after(change)),
        None => map,
    }
}

/// The board after a list of changes, applied first to last. Where a tile
/// receives several changes, a later one wins for the fields it sets.
pub open spec fn apply_list(map: Seq<Tile>, changes: Seq<(u32, TileChange)>) -> Seq<Tile>
    decreases changes.len(),
{
    if changes.len() == 0 {
        map
    } else {
        apply_one(apply_list(map, changes.drop_last()), changes.last().0, changes.last().1)
    }
}

/// Whether the last change of the list advances the fade of a tile on the board.
pub open spec fn last_fades(map: Seq<Tile>, changes: Seq<(u32, TileChange)>) -> bool
    recommends
        changes.len() > 0,
{
    changes.last().1 == TileChange::FadeOut && index_of(
        apply_list(map, changes.drop_last()),
        changes.last().0,
    ) is Some
}

/// Whether the last change of the list starts the fade of a tile on the board.
pub open spec fn last_starts_fade(map: Seq<Tile>, changes: Seq<(u32, TileChange)>) -> bool
    recommends
        changes.len() > 0,
{
    let before = apply_list(map, changes.drop_last());
    changes.last().1 == TileChange::FadeOut && match index_of(before, changes.last().0) {
        Some(i) => before[i].fade_step == 0,
        None => false,
    }
}

/// Whether some change of the list advances the fade of a tile on the board.
pub open spec fn fades(map: Seq<Tile>, changes: Seq<(u32, TileChange)>) -> bool
    decreases changes.len(),
{
    changes.len() > 0 && (fades(map, changes.drop_last()) || last_fades(map, changes))
}

/// The sounds of a change list: one for every fade that starts.
pub open spec fn fade_sounds(map: Seq<Tile>, changes: Seq<(u32, TileChange)>) -> Seq<Sounds>
    decreases changes.len(),
{
    if changes.len() == 0 {
        Seq::empty()
    } else if last_starts_fade(map, changes) {
        fade_sounds(map, changes.drop_last()).push(Sounds::Collided)
    } else {
        fade_sounds(map, changes.drop_last())
    }
}

/// A tile stays on the board until its fade has run its course.
pub open spec fn alive(t: Tile) -> bool {
    t.fade_step < FADE_STEPS
}

/// The tiles that stay on the board, in their order.
pub open spec fn survivors(map: Seq<Tile>) -> Seq<Tile> {
    map.filter(|t: Tile| alive(t))
}

/// The last tile of a board survives or not; the tiles before it are not
/// affected by that.
pub proof fn lemma_survivors_last(map: Seq<Tile>)
    requires
        map.len() > 0,
    ensures
        survivors(map) == (if alive(map.last()) {
            survivors(map.drop_last()).push(map.last())
        } else {
            survivors(map.drop_last())
        }),
{
    reveal_with_fuel(Seq::filter, 2);
}

/// Looks up the first tile with identifier `id`.
pub fn find_tile(map: &Vec<Tile>, id: u32) -> (found: Option<usize>)
    ensures
        found matches Some(i) ==> i < map@.len() && index_of(map@, id) == Some(i as int),
        found is None ==> index_of(map@, id) is None,
{
    let mut index: usize = 0;
    while index < map.len()
        invariant
            index <= map@.len(),
            forall|j: int| 0 <= j < index ==> (#[trigger] map@[j]).id != id,
        decreases map@.len() - index,
    {
        if map[index].id == id {
            proof {
                lemma_index_of_unique(map@, id, index as int);
            }
            return Some(index);
        }
        index = index + 1;
    }
    None
}

/// Drops the tiles whose fade has run its course.
pub fn sweep(map: &Vec<Tile>) -> (kept: Vec<Tile>)
    ensures
        kept@ == survivors(map@),
{
    let mut kept: Vec<Tile> = Vec::new();
    let mut index: usize = 0;
    while index < map.len()
        invariant
            index <= map@.len(),
            kept@ == survivors(map@.take(index as int)),
        decreases map@.len() - index,
    {
        proof {
            assert(map@.take(index + 1).drop_last() =~= map@.take(index as int));
            lemma_survivors_last(map@.take(index + 1));
        }
        if map[index].fade_step < FADE_STEPS {
            kept.push(map[index]);
        }
        index = index + 1;
    }
    assert(map@.take(map@.len() as int) =~= map@);
    kept
}

impl Board {
    /// The state after a change list was applied: the changes took effect
    /// first to last, the tiles whose fade has run its course are gone, and
    /// the fade flag tells whether a fade advanced.
    pub open spec fn applied(self, changes: Seq<(u32, TileChange)>) -> Board {
        Board {
            map: survivors(apply_list(self.map, changes)),
            fading_out: fades(self.map, changes),
            ..self
        }
    }

    /// The state one tick later.
    pub open spec fn ticked(self) -> Board {
        self.applied(self.next_changes(self.map))
    }

    /// The state without the first tile that carries identifier `id`.
    pub open spec fn without(self, id: u32) -> Board {
        Board {
            map: match index_of(self.map, id) {
                Some(i) => self.map.remove(i),
                None => self.map,
            },
            ..self
        }
    }
}

impl PlayingState {
    /// Removes the first tile with identifier `id` from the board. Returns
    /// whether there was one.
    pub fn remove(&mut self, id: u32) -> (removed: bool)
        ensures
            removed == index_of(old(self)@.map, id).is_some(),
            final(self)@ == old(self)@.without(id),
    {
        match find_tile(&self.map, id) {
            Some(i) => {
                self.map.remove(i);
                true
            },
            None => false,
        }
    }

    /// Applies a change list to the board, first to last, and then removes
    /// the tiles whose fade has run its course. A change for a tile that is
    /// not on the board, or one that cannot be carried out, is skipped.
    /// Returns the sounds to play: one for every fade that starts.
    pub fn apply_changes(&mut self, changes: &Vec<(u32, TileChange)>) -> (sounds: Vec<Sounds>)
        ensures
            final(self)@ == old(self)@.applied(changes@),
            sounds@ == fade_sounds(old(self)@.map, changes@),
            old(self)@.wf() ==> final(self)@.wf(),
    {
        proof {
            lemma_apply_list_shape(self.map@, changes@);
            lemma_survivors_wf(apply_list(self.map@, changes@));
        }
        let mut sounds: Vec<Sounds> = Vec::new();
        let mut fading = false;
        let mut k: usize = 0;
        while k < changes.len()
            invariant
                k <= changes@.len(),
                self.map@ == apply_list(old(self).map@, changes@.take(k as int)),
                fading == fades(old(self).map@, changes@.take(k as int)),
                sounds@ == fade_sounds(old(self).map@, changes@.take(k as int)),
                self@ == (Board { map: self.map@, ..old(self)@ }),
            decreases changes@.len() - k,
        {
            let (id, change) = changes[k];
            assert(changes@.take(k + 1).drop_last() =~= changes@.take(k as int));
            assert(changes@.take(k + 1).last() == changes@[k as int]);
            match find_tile(&self.map, id) {
                Some(i) => {
                    let mut tile = self.map[i];
                    match change {
                        TileChange::FadeOut => {
                            fading = true;
                            if tile.fade_step == 0 {
                                sounds.push(Sounds::Collided);
                            }
                        },
                        _ => {},
                    }
                    tile.apply(change);
                    self.map.set(i, tile);
                },
                None => {},
            }
            k = k + 1;
        }
        assert(changes@.take(changes@.len() as int) =~= changes@);
        self.fading_out = fading;
        self.map = sweep(&self.map);
        sounds
    }
}

/// Runs one tick: computes the change list from the board as it stands and
/// applies it. Returns the sounds to play. A tick in which at most one tile
/// jumps keeps the playable tiles of a well-formed board on cells of their
/// own, and a tick in which no platform leaves the board keeps every rider
/// at the velocity of a platform.
pub fn handle_move_tiles(level: &mut PlayingState) -> (sounds: Vec<Sounds>)
    ensures
        final(level)@ == old(level)@.ticked(),
        sounds@ == fade_sounds(old(level)@.map, old(level)@.next_changes(old(level)@.map)),
        old(level)@.wf() ==> final(level)@.wf(),
        old(level)@.wf() && playable_apart(old(level)@.map) && jumps_once(old(level)@)
            ==> playable_apart(final(level)@.map) && cells_unique(final(level)@.map),
        old(level)@.wf() ==> final(level)@.fades_are_flagged(),
        old(level)@.wf() && old(level)@.fades_are_flagged() && riders_follow(old(level)@.map)
            && !old(level)@.platform_expires() ==> riders_follow(final(level)@.map),
{
    proof {
        if level@.wf() {
            lemma_tick_flags_fades(level@);
            if playable_apart(level@.map) && jumps_once(level@) {
                lemma_cells_stay_unique(level@);
            }
            if level@.fades_are_flagged() && riders_follow(level@.map)
                && !level@.platform_expires() {
                lemma_riders_keep_following(level@);
            }
        }
    }
    let changes = level.next_map(&level.map);
    level.apply_changes(&changes)
}

} // verus!
