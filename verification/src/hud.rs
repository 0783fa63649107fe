//! What there is to draw: the sprites of the board, the cursor, and the
//! score board. Drawing itself is left to the host.

use std::collections::BTreeMap;
use vstd::prelude::*;
use vstd::std_specs::btree::group_btree_axioms;
use vstd::std_specs::cmp::OrdSpec;
use vstd::std_specs::iter::IteratorSpec;
use vstd::std_specs::hash::group_hash_axioms;
use crate::playing_state::{Board, PlayingState};
use crate::tile::{Tile, TILE_HEIGHT, TILE_WIDTH};

verus! {

/// Where a tile is found in the picture that holds all of them, and how
/// large it is drawn.
#[derive(Clone, Copy, Debug, PartialEq, Eq, Structural)]
pub struct TextureParams {
    pub source_x: u32,
    pub source_y: u32,
    pub source_width: u32,
    pub source_height: u32,
    pub dest_width: u32,
    pub dest_height: u32,
}

/// A tile to draw: its symbol and the pixel position of its upper left corner.
#[derive(Clone, Copy, Debug, PartialEq, Eq, Structural)]
pub struct Sprite {
    pub c: char,
    pub x: i64,
    pub y: i64,
}

/// What to draw of the board.
pub struct Scene {
    /// The background cells, in black.
    pub background: Vec<Sprite>,
    /// The tiles, those that blink out left away.
    pub sprites: Vec<Sprite>,
    /// Whether the level is complete.
    pub complete: bool,
}

/// What the score board shows.
pub struct ScoreBoard {
    pub score: u32,
    pub level: usize,
    pub time: u16,
    /// How many tiles of each kind are left, in the order of the symbols;
    /// kinds of which none is left are not listed.
    pub remaining: Vec<(char, usize)>,
}

/// The drawing parameters of a kind of tile, as a table of offsets gives
/// them. A symbol that the table does not hold has none.
pub open spec fn texture_params(table: Map<u32, u32>, c: char) -> Option<TextureParams> {
    if table.contains_key(c as u32) {
        Some(
            TextureParams {
                source_x: table[c as u32],
                source_y: 0,
                source_width: TILE_WIDTH as u32,
                source_height: TILE_HEIGHT as u32,
                dest_width: TILE_WIDTH as u32,
                dest_height: TILE_HEIGHT as u32,
            },
        )
    } else {
        None
    }
}

/// A fading tile blinks: it is drawn in one tick out of four.
pub open spec fn visible(t: Tile) -> bool {
    t.fade_step % 4 == 0
}

/// The sprite of a tile on a board drawn at the given offset.
pub open spec fn sprite_of(t: Tile, offset_x: i32, offset_y: i32) -> Sprite {
    Sprite {
        c: t.c,
        x: (t.position.x + offset_x) as i64,
        y: (t.position.y + offset_y) as i64,
    }
}

/// The sprites of all the given tiles.
pub open spec fn all_sprites(tiles: Seq<Tile>, offset_x: i32, offset_y: i32) -> Seq<Sprite> {
    Seq::new(tiles.len(), |i: int| sprite_of(tiles[i], offset_x, offset_y))
}

/// The sprites of the visible ones among the given tiles.
pub open spec fn visible_sprites(tiles: Seq<Tile>, offset_x: i32, offset_y: i32) -> Seq<Sprite>
    decreases tiles.len(),
{
    if tiles.len() == 0 {
        Seq::empty()
    } else if visible(tiles.last()) {
        visible_sprites(tiles.drop_last(), offset_x, offset_y).push(
            sprite_of(tiles.last(), offset_x, offset_y),
        )
    } else {
        visible_sprites(tiles.drop_last(), offset_x, offset_y)
    }
}

/// The number of tiles of kind `c`.
pub open spec fn kind_count(tiles: Seq<Tile>, c: char) -> nat
    decreases tiles.len(),
{
    if tiles.len() == 0 {
        0
    } else if tiles.last().c == c {
        kind_count(tiles.drop_last(), c) + 1
    } else {
        kind_count(tiles.drop_last(), c)
    }
}

impl Board {
    /// Pixel position at which the cursor is drawn.
    pub open spec fn cursor_corner(self) -> (int, int) {
        (
            self.offset_x + self.player.0 * TILE_WIDTH,
            self.offset_y + self.player.1 * TILE_HEIGHT,
        )
    }
}

impl PlayingState {
    /// Looks up how a kind of tile is drawn. A symbol that stands for no
    /// kind of tile has no drawing parameters.
    pub fn get_tile_texture_params(&self, c: char) -> (params: Option<TextureParams>)
        ensures
            params == texture_params(self@.tile_info, c),
    {
        broadcast use group_hash_axioms;

        let code: u32 = c as u32;
        match self.tile_info.get(&code) {
            Some(offset) => Some(
                TextureParams {
                    source_x: *offset,
                    source_y: 0,
                    source_width: 16,
                    source_height: 16,
                    dest_width: 16,
                    dest_height: 16,
                },
            ),
            None => None,
        }
    }
}

/// Counts the tiles of kind `c`.
pub fn count_kind(tiles: &Vec<Tile>, c: char) -> (count: usize)
    ensures
        count == kind_count(tiles@, c),
{
    let mut count: usize = 0;
    let mut k: usize = 0;
    while k < tiles.len()
        invariant
            k <= tiles@.len(),
            count <= k,
            count == kind_count(tiles@.take(k as int), c),
        decreases tiles@.len() - k,
    {
        assert(tiles@.take(k + 1).drop_last() =~= tiles@.take(k as int));
        if tiles[k].c == c {
            count = count + 1;
        }
        k = k + 1;
    }
    assert(tiles@.take(tiles@.len() as int) =~= tiles@);
    count
}

/// Tells where to draw the cursor: the pixel position of the upper left
/// corner of its frame.
pub fn handle_draw_player(level: &PlayingState) -> (corner: (i128, i128))
    ensures
        corner.0 == level@.cursor_corner().0,
        corner.1 == level@.cursor_corner().1,
{
    (
        level.offset_x as i128 + level.player.position.0 as i128 * 16,
        level.offset_y as i128 + level.player.position.1 as i128 * 16,
    )
}

/// Tells what to draw of the board: every background cell, every tile that
/// does not blink out in this tick, and whether the level is complete.
pub fn handle_draw_map(level: &PlayingState) -> (scene: Scene)
    ensures
        scene.background@ == all_sprites(level@.blanks, level@.offset_x, level@.offset_y),
        scene.sprites@ == visible_sprites(level@.map, level@.offset_x, level@.offset_y),
        scene.complete == level@.complete(),
{
    let mut background: Vec<Sprite> = Vec::new();
    let mut k: usize = 0;
    while k < level.blanks.len()
        invariant
            k <= level.blanks@.len(),
            background@ == all_sprites(
                level.blanks@.take(k as int),
                level.offset_x,
                level.offset_y,
            ),
        decreases level.blanks@.len() - k,
    {
        let t = &level.blanks[k];
        background.push(
            Sprite {
                c: t.c,
                x: t.position.x as i64 + level.offset_x as i64,
                y: t.position.y as i64 + level.offset_y as i64,
            },
        );
        assert(background@ =~= all_sprites(
            level.blanks@.take(k + 1),
            level.offset_x,
            level.offset_y,
        ));
        k = k + 1;
    }
    assert(level.blanks@.take(level.blanks@.len() as int) =~= level.blanks@);
    let mut sprites: Vec<Sprite> = Vec::new();
    let mut k: usize = 0;
    while k < level.map.len()
        invariant
            k <= level.map@.len(),
            sprites@ == visible_sprites(level.map@.take(k as int), level.offset_x, level.offset_y),
        decreases level.map@.len() - k,
    {
        assert(level.map@.take(k + 1).drop_last() =~= level.map@.take(k as int));
        let t = &level.map[k];
        if t.fade_step % 4 == 0 {
            sprites.push(
                Sprite {
                    c: t.c,
                    x: t.position.x as i64 + level.offset_x as i64,
                    y: t.position.y as i64 + level.offset_y as i64,
                },
            );
        }
        k = k + 1;
    }
    assert(level.map@.take(level.map@.len() as int) =~= level.map@);
    Scene { background, sprites, complete: level.is_complete() }
}

/// The code of a symbol, by which the tally is kept in order.
pub open spec fn code(c: char) -> u32 {
    c as u32
}

/// Whether the score board counts tiles of kind `c`.
pub open spec fn counted(c: char) -> bool {
    c == 'B' || c == 'C' || c == 'D' || c == 'E' || c == 'G' || c == 'P' || c == 'X'
}

/// Whether `tally` holds, for every counted kind of which `tiles` has any,
/// the symbol and the number of its tiles, under the code of the symbol, and
/// nothing else.
pub open spec fn tallied(tally: Map<u32, (char, usize)>, tiles: Seq<Tile>) -> bool {
    &&& forall|c: char|
        counted(c) ==> (#[trigger] tally.contains_key(code(c)) <==> kind_count(tiles, c) > 0)
    &&& forall|c: char|
        counted(c) && tally.contains_key(code(c)) ==> #[trigger] tally[code(c)] == (
            c,
            kind_count(tiles, c) as usize,
        )
    &&& forall|k: u32| #[trigger]
        tally.contains_key(k) ==> counted(tally[k].0) && code(tally[k].0) == k
}

/// No more tiles are of one kind than there are tiles.
pub proof fn lemma_kind_count_bound(tiles: Seq<Tile>, c: char)
    ensures
        kind_count(tiles, c) <= tiles.len(),
    decreases tiles.len(),
{
    if tiles.len() > 0 {
        lemma_kind_count_bound(tiles.drop_last(), c);
    }
}

/// Whether the codes of the symbols are ordered as numbers are, which is what
/// a map that keeps its keys in order relies on.
pub open spec fn codes_are_ordered() -> bool {
    vstd::laws_cmp::obeys_cmp::<u32>()
}

/// The codes of the symbols are ordered as numbers are.
pub proof fn lemma_codes_are_ordered()
    ensures
        codes_are_ordered(),
{
    broadcast use vstd::laws_cmp::group_laws_cmp;

}

/// Tallies the tiles of the counted kinds.
pub fn tally_of(tiles: &Vec<Tile>) -> (tally: BTreeMap<u32, (char, usize)>)
    ensures
        tallied(tally@, tiles@),
{
    broadcast use group_btree_axioms;

    proof {
        lemma_codes_are_ordered();
    }
    let mut tally: BTreeMap<u32, (char, usize)> = BTreeMap::new();
    let mut k: usize = 0;
    while k < tiles.len()
        invariant
            k <= tiles@.len(),
            tallied(tally@, tiles@.take(k as int)),
            codes_are_ordered(),
        decreases tiles@.len() - k,
    {
        let c = tiles[k].c;
        proof {
            assert(tiles@.take(k + 1).drop_last() =~= tiles@.take(k as int));
            lemma_kind_count_bound(tiles@.take(k as int), c);
        }
        if c == 'B' || c == 'C' || c == 'D' || c == 'E' || c == 'G' || c == 'P' || c == 'X' {
            let key: u32 = c as u32;
            let seen: usize = match tally.get(&key) {
                Some(entry) => entry.1,
                None => 0,
            };
            tally.insert(key, (c, seen + 1));
        }
        k = k + 1;
    }
    assert(tiles@.take(tiles@.len() as int) =~= tiles@);
    tally
}

/// Keys that a map hands out in increasing order rise as numbers.
proof fn lemma_keys_rise(keys: Seq<u32>)
    requires
        vstd::std_specs::btree::increasing_seq(keys),
    ensures
        forall|i: int, j: int| 0 <= i < j < keys.len() ==> keys[i] < keys[j],
{
    broadcast use vstd::laws_cmp::group_laws_cmp;

    assert(vstd::laws_cmp::obeys_cmp::<u32>());
    vstd::std_specs::btree::axiom_increasing_seq_meaning::<u32>(keys);
    assert forall|i: int, j: int| 0 <= i < j < keys.len() implies keys[i] < keys[j] by {
        assert(keys[i].cmp_spec(&keys[j]) is Less);
    }
}

/// Whether `remaining` lists, in the order of the symbols, every counted kind
/// of which `tiles` has any, each with the number of its tiles, and nothing
/// else.
pub open spec fn lists_remaining(remaining: Seq<(char, usize)>, tiles: Seq<Tile>) -> bool {
    &&& forall|i: int, j: int|
        0 <= i < j < remaining.len() ==> code((#[trigger] remaining[i]).0) < code(
            (#[trigger] remaining[j]).0,
        )
    &&& forall|i: int|
        0 <= i < remaining.len() ==> counted((#[trigger] remaining[i]).0) && remaining[i].1 > 0
            && remaining[i].1 == kind_count(tiles, remaining[i].0)
    &&& forall|c: char|
        counted(c) && kind_count(tiles, c) > 0 ==> exists|i: int|
            0 <= i < remaining.len() && (#[trigger] remaining[i]).0 == c
}

/// Tells what the score board shows: the score, the number of the level,
/// the time limit, and how many tiles of each kind are left.
pub fn draw_score(level: &PlayingState) -> (board: ScoreBoard)
    ensures
        board.score == level@.score,
        board.level == level@.level,
        board.time == level@.time,
        lists_remaining(board.remaining@, level@.map),
{
    broadcast use group_btree_axioms;

    let tally = tally_of(&level.map);
    let total: usize = level.map.len();
    let mut remaining: Vec<(char, usize)> = Vec::new();
    let ghost entries = tally.iter().remaining();
    for entry in it: tally.iter()
        invariant
            it.seq() == entries,
            remaining@.len() == it.index(),
            forall|i: int|
                0 <= i < remaining@.len() ==> #[trigger] remaining@[i] == *entries[i].1,
    {
        let (_, counted) = entry;
        remaining.push(*counted);
    }
    proof {
        let keys = entries.map_values(|kv: (&u32, &(char, usize))| *kv.0);
        lemma_keys_rise(keys);
        assert forall|i: int, j: int| 0 <= i < j < remaining@.len() implies code(
            (#[trigger] remaining@[i]).0,
        ) < code((#[trigger] remaining@[j]).0) by {
            assert(keys[i] < keys[j]);
            assert(tally@.contains_key(*entries[i].0));
            assert(tally@.contains_key(*entries[j].0));
        }
        assert forall|i: int| 0 <= i < remaining@.len() implies counted(
            (#[trigger] remaining@[i]).0,
        ) && remaining@[i].1 > 0 && remaining@[i].1 == kind_count(
            level@.map,
            remaining@[i].0,
        ) by {
            let k = *entries[i].0;
            assert(tally@.contains_key(k));
            let c = tally@[k].0;
            assert(remaining@[i] == tally@[k]);
            lemma_kind_count_bound(level@.map, c);
            assert(kind_count(level@.map, c) <= total);
            assert(tally@.contains_key(code(c)));
            assert(tally@[code(c)] == (c, kind_count(level@.map, c) as usize));
        }
        assert forall|c: char| counted(c) && kind_count(level@.map, c) > 0 implies exists|i: int|
            0 <= i < remaining@.len() && (#[trigger] remaining@[i]).0 == c by {
            let k = code(c);
            assert(tally@.contains_key(k));
            assert(entries.contains((&k, &tally@[k])));
            let i = choose|i: int| 0 <= i < entries.len() && entries[i] == (&k, &tally@[k]);
            assert(remaining@[i].0 == c);
        }
    }
    ScoreBoard { score: level.score, level: level.level, time: level.time, remaining }
}

} // verus!
