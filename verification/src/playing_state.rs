//! The state of a level in play: the board, the cursor, and the operations
//! that look tiles up and move the cursor.

use std::collections::HashMap;
use vstd::prelude::*;
use vstd::std_specs::hash::group_hash_axioms;
use crate::collision::{find_collision, first_hit, is_clear, is_first_hit};
use crate::sound::Sounds;
use crate::tile::{Direction, Tile, TILE_HEIGHT, TILE_WIDTH};

verus! {

/// The cursor: a cell of the board, independent of any tile.
#[derive(Clone, Copy, Debug)]
pub struct Player {
    /// Column and row of the cell under the cursor.
    pub position: (usize, usize),
}

/// What a level starts from.
pub struct LevelInfo {
    /// The tiles of the board, walls included, row by row.
    pub tiles: Vec<Tile>,
    /// The background cells that lie between the walls of their row.
    pub blanks: Vec<Tile>,
    /// Number of columns.
    pub width: usize,
    /// Number of rows.
    pub height: usize,
    /// Horizontal pixel offset at which the board is drawn.
    pub offset_x: i32,
    /// Vertical pixel offset at which the board is drawn.
    pub offset_y: i32,
    /// Number of the level.
    pub level: usize,
    /// Time limit in seconds.
    pub time: u16,
}

/// A level in play.
pub struct PlayingState {
    /// The tiles on the board, in the order in which a tick visits them.
    pub map: Vec<Tile>,
    /// Background cells, kept for drawing only.
    pub blanks: Vec<Tile>,
    /// Where each kind of tile is found in the picture that holds all of
    /// them: the horizontal offset, by the code of the symbol.
    pub tile_info: HashMap<u32, u32>,
    /// Columns and rows of the board.
    pub dimensions: (usize, usize),
    /// Number of the level.
    pub level: usize,
    /// Time limit in seconds.
    pub time: u16,
    /// Whether the game is paused.
    pub paused: bool,
    /// Whether the player has asked to leave and not yet confirmed.
    pub exit_intent: bool,
    /// Horizontal pixel offset at which the board is drawn.
    pub offset_x: i32,
    /// Vertical pixel offset at which the board is drawn.
    pub offset_y: i32,
    /// The cursor.
    pub player: Player,
    /// Points scored so far.
    pub score: u32,
    /// Ticks played so far.
    pub time_elpsed: u32,
    /// Whether the last applied tick advanced a fade. While it is set, a tick
    /// does nothing but advance the fades under way.
    pub fading_out: bool,
    /// Whether the player holds the drag key.
    pub dragging: bool,
    /// Sideways steps taken since the drag key went down.
    pub dragging_step: u8,
}

/// The mathematical model of a level in play: the state with its lists as
/// sequences. The rules of the simulation are stated over this model.
#[verifier::ext_equal]
pub struct Board {
    /// The tiles on the board, in the order in which a tick visits them.
    pub map: Seq<Tile>,
    /// Background cells.
    pub blanks: Seq<Tile>,
    /// Offsets of the kinds of tiles in the picture that holds all of them.
    pub tile_info: Map<u32, u32>,
    /// Columns and rows of the board.
    pub dimensions: (usize, usize),
    /// Number of the level.
    pub level: usize,
    /// Time limit in seconds.
    pub time: u16,
    /// Whether the game is paused.
    pub paused: bool,
    /// Whether the player has asked to leave and not yet confirmed.
    pub exit_intent: bool,
    /// Horizontal pixel offset at which the board is drawn.
    pub offset_x: i32,
    /// Vertical pixel offset at which the board is drawn.
    pub offset_y: i32,
    /// Column and row of the cell under the cursor.
    pub player: (usize, usize),
    /// Points scored so far.
    pub score: u32,
    /// Ticks played so far.
    pub time_elpsed: u32,
    /// Whether the last applied tick advanced a fade.
    pub fading_out: bool,
    /// Whether the player holds the drag key.
    pub dragging: bool,
    /// Sideways steps taken since the drag key went down.
    pub dragging_step: u8,
}

impl View for PlayingState {
    type V = Board;

    open spec fn view(&self) -> Board {
        Board {
            map: self.map@,
            blanks: self.blanks@,
            tile_info: self.tile_info@,
            dimensions: self.dimensions,
            level: self.level,
            time: self.time,
            paused: self.paused,
            exit_intent: self.exit_intent,
            offset_x: self.offset_x,
            offset_y: self.offset_y,
            player: self.player.position,
            score: self.score,
            time_elpsed: self.time_elpsed,
            fading_out: self.fading_out,
            dragging: self.dragging,
            dragging_step: self.dragging_step,
        }
    }
}

/// Whether tile `t` belongs to cell `(x, y)`.
pub open spec fn in_cell(t: Tile, x: int, y: int) -> bool {
    &&& t.position.x >= 0
    &&& t.position.y >= 0
    &&& t.cell_x() == x
    &&& t.cell_y() == y
}

/// Whether index `i` holds the first tile of `map` that belongs to cell `(x, y)`.
pub open spec fn is_first_in_cell(map: Seq<Tile>, x: int, y: int, i: int) -> bool {
    &&& 0 <= i < map.len()
    &&& in_cell(map[i], x, y)
    &&& forall|j: int| 0 <= j < i ==> !in_cell(#[trigger] map[j], x, y)
}

/// Whether no tile of `map` belongs to cell `(x, y)`.
pub open spec fn cell_is_empty(map: Seq<Tile>, x: int, y: int) -> bool {
    forall|j: int| 0 <= j < map.len() ==> !in_cell(#[trigger] map[j], x, y)
}

/// The index of the first tile of `map` that belongs to cell `(x, y)`, if any.
pub open spec fn first_in_cell(map: Seq<Tile>, x: int, y: int) -> Option<int> {
    if cell_is_empty(map, x, y) {
        None
    } else {
        Some(choose|i: int| is_first_in_cell(map, x, y, i))
    }
}

/// The first tile in a cell is the only index that `is_first_in_cell` accepts.
pub proof fn lemma_first_in_cell_unique(map: Seq<Tile>, x: int, y: int, i: int)
    requires
        is_first_in_cell(map, x, y, i),
    ensures
        first_in_cell(map, x, y) == Some(i),
{
    let j = choose|j: int| is_first_in_cell(map, x, y, j);
    assert(is_first_in_cell(map, x, y, j));
    if j < i {
        assert(!in_cell(map[j], x, y));
    }
    if i < j {
        assert(!in_cell(map[i], x, y));
    }
}

/// Whatever `first_in_cell` returns is described by `is_first_in_cell` or
/// `cell_is_empty`.
pub proof fn lemma_first_in_cell(map: Seq<Tile>, x: int, y: int)
    ensures
        match first_in_cell(map, x, y) {
            Some(i) => is_first_in_cell(map, x, y, i),
            None => cell_is_empty(map, x, y),
        },
{
    if !cell_is_empty(map, x, y) {
        lemma_some_first_in_cell(map, x, y, map.len() as int);
    }
}

/// Among the first `n` tiles either none belongs to the cell or one of them
/// is the first that does.
proof fn lemma_some_first_in_cell(map: Seq<Tile>, x: int, y: int, n: int)
    requires
        0 <= n <= map.len(),
    ensures
        (forall|j: int| 0 <= j < n ==> !in_cell(#[trigger] map[j], x, y)) || (exists|i: int|
            is_first_in_cell(map, x, y, i)),
    decreases n,
{
    if n > 0 {
        lemma_some_first_in_cell(map, x, y, n - 1);
        if forall|j: int| 0 <= j < n - 1 ==> !in_cell(#[trigger] map[j], x, y) {
            if in_cell(map[n - 1], x, y) {
                assert(is_first_in_cell(map, x, y, n - 1));
            }
        }
    }
}

/// Whether no two tiles of `map` share an identifier.
pub open spec fn unique_ids(map: Seq<Tile>) -> bool {
    forall|i: int, j: int|
        0 <= i < j < map.len() ==> (#[trigger] map[i]).id != (#[trigger] map[j]).id
}

/// Whether every tile of `map` satisfies its invariant.
pub open spec fn all_wf(map: Seq<Tile>) -> bool {
    forall|i: int| 0 <= i < map.len() ==> (#[trigger] map[i]).wf()
}

/// The picture that holds all the tiles, as a table: the horizontal offset
/// of each kind of tile, by the code of its symbol. Platforms share the
/// picture of the unknown piece.
pub open spec fn tile_table() -> Map<u32, u32> {
    Map::empty().insert('G' as u32, 0u32).insert('X' as u32, 16u32).insert('E' as u32, 32u32).insert(
        'B' as u32,
        48u32,
    ).insert('P' as u32, 64u32).insert('C' as u32, 80u32).insert('D' as u32, 96u32).insert(
        '?' as u32,
        112u32,
    ).insert('~' as u32, 112u32).insert('|' as u32, 112u32).insert('-' as u32, 128u32)
}

impl Board {
    /// The model of a state with no level loaded.
    pub open spec fn empty() -> Board {
        Board {
            map: Seq::empty(),
            blanks: Seq::empty(),
            tile_info: tile_table(),
            dimensions: (0, 0),
            level: 0,
            time: 0,
            paused: false,
            exit_intent: false,
            offset_x: 0,
            offset_y: 0,
            player: (0, 0),
            score: 0,
            time_elpsed: 0,
            fading_out: false,
            dragging: false,
            dragging_step: 0,
        }
    }

    /// Whether every tile of the board satisfies its invariant and no two
    /// tiles share an identifier.
    pub open spec fn wf(self) -> bool {
        all_wf(self.map) && unique_ids(self.map)
    }

    /// The tile that cell `(x, y)` of the board holds, if the cell lies on the
    /// board and is occupied.
    pub open spec fn tile_at(self, x: int, y: int) -> Option<int> {
        if 0 <= x < self.dimensions.0 && 0 <= y < self.dimensions.1 {
            first_in_cell(self.map, x, y)
        } else {
            None
        }
    }

    /// The level is complete when no playable tile is left.
    pub open spec fn complete(self) -> bool {
        forall|i: int| 0 <= i < self.map.len() ==> !(#[trigger] self.map[i]).playable()
    }

    /// The cell the cursor moves to when asked to go in `direction`: one step,
    /// unless that would leave the board.
    pub open spec fn target_cell(self, direction: Direction) -> (usize, usize) {
        let x = self.player.0;
        let y = self.player.1;
        let w = self.dimensions.0;
        let h = self.dimensions.1;
        match direction {
            Direction::Left => (if x > 0 { (x - 1) as usize } else { x }, y),
            Direction::Right => (
                if w == 0 {
                    x
                } else if x + 1 < w - 1 {
                    (x + 1) as usize
                } else {
                    (w - 1) as usize
                },
                y,
            ),
            Direction::Up => (x, if y > 0 { (y - 1) as usize } else { y }),
            Direction::Down => (
                x,
                if h == 0 {
                    y
                } else if y + 1 < h - 1 {
                    (y + 1) as usize
                } else {
                    (h - 1) as usize
                },
            ),
            Direction::Stay => (x, y),
        }
    }

    /// The tile that takes the drag when the cursor is asked to go in
    /// `direction`: the draggable tile under the cursor, provided that the
    /// drag key is held and the cell the cursor moves to is free.
    pub open spec fn dragged_tile(self, direction: Direction) -> Option<int> {
        let target = self.target_cell(direction);
        match self.tile_at(self.player.0 as int, self.player.1 as int) {
            Some(i) => if self.dragging && self.map[i].draggable() && self.tile_at(
                target.0 as int,
                target.1 as int,
            ) is None {
                Some(i)
            } else {
                None
            },
            None => None,
        }
    }

    /// The state after the cursor was asked to go in `direction`: the cursor
    /// is on its target cell and the dragged tile, if any, has the drag
    /// pending.
    pub open spec fn moved(self, direction: Direction) -> Board {
        Board {
            map: match self.dragged_tile(direction) {
                Some(i) => self.map.update(
                    i,
                    Tile { dragging_direction: Some(direction), ..self.map[i] },
                ),
                None => self.map,
            },
            player: self.target_cell(direction),
            ..self
        }
    }

    /// The state after the drag key went down or up. Releasing the key allows
    /// the next sideways step.
    pub open spec fn with_dragging(self, dragging: bool) -> Board {
        Board {
            dragging,
            dragging_step: if dragging {
                self.dragging_step
            } else {
                0
            },
            ..self
        }
    }

    /// The state after a level was loaded: the board and its settings are
    /// those of the level and the cursor is on the cell left of the centre.
    pub open spec fn loaded(self, info: LevelInfo) -> Board {
        Board {
            map: info.tiles@,
            blanks: info.blanks@,
            dimensions: (info.width, info.height),
            player: (
                if info.width >= 2 {
                    (info.width / 2 - 1) as usize
                } else {
                    0
                },
                info.height / 2,
            ),
            offset_x: info.offset_x,
            offset_y: info.offset_y,
            time: info.time,
            level: info.level,
            ..self
        }
    }
}

impl PlayingState {
    /// An empty state: no level loaded yet, and the table of the pictures
    /// filled in.
    pub fn new() -> (state: PlayingState)
        ensures
            state@ == Board::empty(),
            state@.wf(),
    {
        broadcast use group_hash_axioms;

        let mut tile_info: HashMap<u32, u32> = HashMap::new();
        tile_info.insert('G' as u32, 0u32);
        tile_info.insert('X' as u32, 16u32);
        tile_info.insert('E' as u32, 32u32);
        tile_info.insert('B' as u32, 48u32);
        tile_info.insert('P' as u32, 64u32);
        tile_info.insert('C' as u32, 80u32);
        tile_info.insert('D' as u32, 96u32);
        tile_info.insert('?' as u32, 112u32);
        tile_info.insert('~' as u32, 112u32);
        tile_info.insert('|' as u32, 112u32);
        tile_info.insert('-' as u32, 128u32);
        let state = PlayingState {
            map: Vec::new(),
            blanks: Vec::new(),
            tile_info,
            dimensions: (0, 0),
            level: 0,
            time: 0,
            paused: false,
            exit_intent: false,
            offset_x: 0,
            offset_y: 0,
            player: Player { position: (0, 0) },
            score: 0,
            time_elpsed: 0,
            fading_out: false,
            dragging: false,
            dragging_step: 0,
        };
        assert(state@ =~= Board::empty());
        state
    }

    /// Loads a level: the board and its settings replace the current ones and
    /// the cursor goes to the cell left of the centre.
    pub fn set_level(&mut self, info: LevelInfo)
        ensures
            final(self)@ == old(self)@.loaded(info),
    {
        let x = if info.width >= 2 {
            info.width / 2 - 1
        } else {
            0
        };
        self.dimensions = (info.width, info.height);
        self.player.position = (x, info.height / 2);
        self.offset_x = info.offset_x;
        self.offset_y = info.offset_y;
        self.time = info.time;
        self.level = info.level;
        self.map = info.tiles;
        self.blanks = info.blanks;
    }

    /// All the tiles of the board, in the order in which a tick visits them.
    pub fn all_tiles(&self) -> (tiles: &Vec<Tile>)
        ensures
            tiles@ == self@.map,
    {
        &self.map
    }

    /// Looks up the tile in cell `(x, y)` for changing it in place.
    pub fn get_tile_at_mut(&mut self, x: usize, y: usize) -> (tile: Option<&mut Tile>)
        ensures
            match tile {
                Some(t) => old(self)@.tile_at(x as int, y as int) matches Some(i) && *t == old(
                    self,
                )@.map[i] && final(self)@ == (Board {
                    map: old(self)@.map.update(i, *final(t)),
                    ..old(self)@
                }),
                None => old(self)@.tile_at(x as int, y as int) is None && final(self)@ == old(
                    self,
                )@,
            },
    {
        match self.get_tile_at(x, y) {
            Some(i) => Some(&mut self.map[i]),
            None => None,
        }
    }

    /// Looks up the tile in cell `(x, y)`. A cell off the board holds nothing.
    pub fn get_tile_at(&self, x: usize, y: usize) -> (found: Option<usize>)
        ensures
            found matches Some(i) ==> i < self.map@.len() && self@.tile_at(x as int, y as int)
                == Some(i as int),
            found is None ==> self@.tile_at(x as int, y as int) is None,
    {
        if x >= self.dimensions.0 || y >= self.dimensions.1 {
            return None;
        }
        let mut index: usize = 0;
        while index < self.map.len()
            invariant
                index <= self.map@.len(),
                x < self.dimensions.0,
                y < self.dimensions.1,
                forall|j: int| 0 <= j < index ==> !in_cell(#[trigger] self.map@[j], x as int, y as int),
            decreases self.map@.len() - index,
        {
            let t = &self.map[index];
            if t.position.x >= 0 && t.position.y >= 0 && (t.position.x / TILE_WIDTH) as u64
                == x as u64 && (t.position.y / TILE_HEIGHT) as u64 == y as u64 {
                proof {
                    lemma_first_in_cell_unique(self.map@, x as int, y as int, index as int);
                }
                return Some(index);
            }
            index = index + 1;
        }
        None
    }

    /// Moves the cursor one cell in `direction`, staying on the board. While
    /// the drag key is held, the draggable tile under the cursor is told to
    /// follow, unless the cell the cursor moves to is occupied. Returns the
    /// sound to play, if any.
    pub fn move_player(&mut self, direction: Direction) -> (sound: Option<Sounds>)
        ensures
            final(self)@ == old(self)@.moved(direction),
            sound == (if old(self)@.dragging {
                Some(Sounds::MOVE)
            } else {
                None
            }),
            old(self)@.wf() ==> final(self)@.wf(),
    {
        let x = self.player.position.0;
        let y = self.player.position.1;
        let w = self.dimensions.0;
        let h = self.dimensions.1;
        let mut new_x = x;
        let mut new_y = y;
        match direction {
            Direction::Left => {
                if new_x > 0 {
                    new_x = new_x - 1;
                }
            },
            Direction::Right => {
                if w > 0 {
                    new_x = if x < w - 1 && x + 1 < w - 1 {
                        x + 1
                    } else {
                        w - 1
                    };
                }
            },
            Direction::Up => {
                if new_y > 0 {
                    new_y = new_y - 1;
                }
            },
            Direction::Down => {
                if h > 0 {
                    new_y = if y < h - 1 && y + 1 < h - 1 {
                        y + 1
                    } else {
                        h - 1
                    };
                }
            },
            Direction::Stay => {},
        }
        let mut sound: Option<Sounds> = None;
        if self.dragging {
            sound = Some(Sounds::MOVE);
            if let Some(index) = self.get_tile_at(x, y) {
                let index2 = self.get_tile_at(new_x, new_y);
                let mut tile = self.map[index];
                if tile.is_playable() && !tile.looping && index2.is_none() {
                    tile.dragging_direction = Some(direction);
                    self.map.set(index, tile);
                }
            }
        }
        self.player.position = (new_x, new_y);
        assert(self@ =~= old(self)@.moved(direction));
        sound
    }

    /// Records whether the drag key is held. Releasing it allows the next
    /// sideways step.
    pub fn set_dragging(&mut self, dragging: bool)
        ensures
            final(self)@ == old(self)@.with_dragging(dragging),
    {
        self.dragging = dragging;
        if !dragging {
            self.dragging_step = 0;
        }
    }

    /// Scans the board for the first tile other than `t1` that a tile placed
    /// at `(x, y)` would overlap.
    pub fn check_collision(&self, t1: &Tile, x: i64, y: i64) -> (found: Option<usize>)
        ensures
            found matches Some(i) ==> first_hit(self@.map, t1.id, x as int, y as int) == Some(
                i as int,
            ) && is_first_hit(self@.map, t1.id, x as int, y as int, i as int),
            found is None ==> first_hit(self@.map, t1.id, x as int, y as int) is None && is_clear(
                self@.map,
                t1.id,
                x as int,
                y as int,
            ),
    {
        find_collision(&self.map, t1, x, y)
    }

    /// Whether the level is complete: no playable tile is left.
    pub fn is_complete(&self) -> (done: bool)
        ensures
            done == self@.complete(),
    {
        let mut index: usize = 0;
        while index < self.map.len()
            invariant
                index <= self.map@.len(),
                forall|j: int| 0 <= j < index ==> !(#[trigger] self.map@[j]).playable(),
            decreases self.map@.len() - index,
        {
            if self.map[index].is_playable() {
                assert(self@.map[index as int].playable());
                return false;
            }
            index = index + 1;
        }
        true
    }
}

} // verus!
