//! Reading a level from its text: a time header and a board drawn with one
//! character per cell.

use vstd::prelude::*;
use crate::laws::distinct_positions;
use crate::playing_state::{all_wf, unique_ids, LevelInfo};
use crate::tile::{Tile, Vector, SPEED, TILE_HEIGHT, TILE_WIDTH};

verus! {

/// Why a level text was refused.
#[derive(Clone, Copy, Debug, PartialEq, Eq, Structural)]
pub enum LevelError {
    /// The text ends before the line that holds the time limit.
    MissingTime,
    /// The line that should hold the time limit holds no `Time: M'SS`.
    MalformedTime,
    /// The text draws no board.
    NoRows,
    /// A row of the board has no wall in it.
    MissingBoundary,
    /// The board is too large for its cells to be numbered and placed.
    TooLarge,
}

/// The pattern of the time limit: one digit of minutes and two of seconds.
pub const TIME_PATTERN: &'static str = "Time: (\\d)'(\\d{2})";

/// `regex::Error`: why `regex::Regex::new` refused a pattern. Nothing is
/// claimed of what it holds.
#[verifier::external_type_specification]
#[verifier::external_body]
pub struct ExRegexError(regex::Error);

/// What a search for a pattern in a text finds: nothing at all where the
/// pattern itself is refused; otherwise no match, or the capture groups of
/// the leftmost match, where a group that took no part in it is absent.
pub uninterp spec fn regex_search(pattern: Seq<char>, haystack: Seq<char>) -> Option<
    Option<Seq<Option<Seq<char>>>>,
>;

/// The capture groups as plain values.
pub open spec fn groups_view(groups: Seq<Option<String>>) -> Seq<Option<Seq<char>>> {
    Seq::new(
        groups.len(),
        |i: int|
            match groups[i] {
                Some(s) => Some(s@),
                None => None,
            },
    )
}

/// What a search returned, as plain values.
pub open spec fn search_view(found: Result<Option<Vec<Option<String>>>, regex::Error>) -> Option<
    Option<Seq<Option<Seq<char>>>>,
> {
    match found {
        Ok(Some(groups)) => Some(Some(groups_view(groups@))),
        Ok(None) => Some(None),
        Err(_) => None,
    }
}

/// Compiles `pattern` with `regex::Regex::new`, searches `haystack` with
/// `Regex::captures` and copies the capture groups out. The contract claims
/// only that the outcome depends on the two texts alone; it gives that
/// outcome a name and says nothing of what it is.
#[verifier::external_body]
fn search(pattern: &str, haystack: &str) -> (found: Result<
    Option<Vec<Option<String>>>,
    regex::Error,
>)
    ensures
        search_view(found) == regex_search(pattern@, haystack@),
{
    let re = regex::Regex::new(pattern)?;
    let caps = match re.captures(haystack) {
        Some(caps) => caps,
        None => return Ok(None),
    };
    let mut groups = Vec::new();
    for i in 0..caps.len() {
        groups.push(
            match caps.get(i) {
                Some(group) => Some(group.as_str().to_string()),
                None => None,
            },
        );
    }
    Ok(Some(groups))
}

/// The value of a decimal digit.
pub open spec fn digit_value(c: char) -> Option<int> {
    if '0' <= c && c <= '9' {
        Some(c as u32 - '0' as u32)
    } else {
        None
    }
}

/// The seconds that a minutes group and a seconds group stand for: one
/// decimal digit of minutes and two of seconds.
pub open spec fn seconds_of_groups(minutes: Seq<char>, seconds: Seq<char>) -> Option<int> {
    if minutes.len() == 1 && seconds.len() == 2 {
        match (digit_value(minutes[0]), digit_value(seconds[0]), digit_value(seconds[1])) {
            (Some(m), Some(tens), Some(units)) => Some(m * 60 + tens * 10 + units),
            _ => None,
        }
    } else {
        None
    }
}

/// The time limit that the outcome of a search for `TIME_PATTERN` stands for.
pub open spec fn seconds_of_search(found: Option<Option<Seq<Option<Seq<char>>>>>) -> Result<
    u16,
    LevelError,
> {
    match found {
        Some(Some(groups)) => if groups.len() == 3 {
            match (groups[1], groups[2]) {
                (Some(minutes), Some(seconds)) => match seconds_of_groups(minutes, seconds) {
                    Some(total) => Ok(total as u16),
                    None => Err(LevelError::MalformedTime),
                },
                _ => Err(LevelError::MalformedTime),
            }
        } else {
            Err(LevelError::MalformedTime)
        },
        _ => Err(LevelError::MalformedTime),
    }
}

/// The characters of a text, one by one.
pub fn chars_of(text: &str) -> (chars: Vec<char>)
    ensures
        chars@ == text@,
{
    let mut chars: Vec<char> = Vec::new();
    for c in it: text.chars()
        invariant
            it.seq() == text@,
            chars@ == it.seq().take(it.index()),
    {
        chars.push(c);
        assert(it.seq().take(it.index() + 1) =~= it.seq().take(it.index()).push(c));
    }
    assert(text@.take(text@.len() as int) =~= text@);
    chars
}

/// Reads one decimal digit.
fn digit(c: char) -> (value: Option<u16>)
    ensures
        match value {
            Some(v) => digit_value(c) == Some(v as int),
            None => digit_value(c) is None,
        },
{
    if '0' <= c && c <= '9' {
        Some((c as u32 - '0' as u32) as u16)
    } else {
        None
    }
}

/// Reads the time limit off the capture groups of a search for
/// `TIME_PATTERN`: the minutes times 60 plus the seconds.
pub fn seconds_from_captures(found: &Option<Vec<Option<String>>>) -> (seconds: Result<
    u16,
    LevelError,
>)
    ensures
        seconds == seconds_of_search(search_view(Ok(*found))),
{
    match found {
        Some(groups) => {
            if groups.len() != 3 {
                return Err(LevelError::MalformedTime);
            }
            match (&groups[1], &groups[2]) {
                (Some(minutes), Some(seconds)) => {
                    let m = chars_of(minutes.as_str());
                    let s = chars_of(seconds.as_str());
                    if m.len() != 1 || s.len() != 2 {
                        return Err(LevelError::MalformedTime);
                    }
                    match (digit(m[0]), digit(s[0]), digit(s[1])) {
                        (Some(m), Some(tens), Some(units)) => Ok(m * 60 + tens * 10 + units),
                        _ => Err(LevelError::MalformedTime),
                    }
                },
                _ => Err(LevelError::MalformedTime),
            }
        },
        None => Err(LevelError::MalformedTime),
    }
}

/// Reads the time limit in seconds off a header line of the form
/// `Time: M'SS`.
pub fn extract_seconds(line: &str) -> (seconds: Result<u16, LevelError>)
    ensures
        seconds == seconds_of_search(regex_search(TIME_PATTERN@, line@)),
{
    match search(TIME_PATTERN, line) {
        Ok(found) => seconds_from_captures(&found),
        Err(_) => Err(LevelError::MalformedTime),
    }
}

/// The lines of a text: what stands between its line feeds.
pub open spec fn split_lines(text: Seq<char>) -> Seq<Seq<char>>
    decreases text.len(),
{
    if text.len() == 0 {
        seq![Seq::empty()]
    } else {
        let before = split_lines(text.drop_last());
        if text.last() == '\n' {
            before.push(Seq::empty())
        } else {
            before.update(before.len() - 1, before.last().push(text.last()))
        }
    }
}

/// The cells that a line draws: every second character, the first included.
pub open spec fn cells(line: Seq<char>) -> Seq<char> {
    Seq::new(((line.len() + 1) / 2) as nat, |i: int| line[2 * i])
}

/// The rows of the board: the cells of every line after the fourth, lines
/// that draw nothing left out.
pub open spec fn board_rows(lines: Seq<Seq<char>>) -> Seq<Seq<char>>
    decreases lines.len(),
{
    if lines.len() <= 4 {
        Seq::empty()
    } else if cells(lines.last()).len() == 0 {
        board_rows(lines.drop_last())
    } else {
        board_rows(lines.drop_last()).push(cells(lines.last()))
    }
}

/// The width of the board: the length of its longest row.
pub open spec fn board_width(rows: Seq<Seq<char>>) -> nat
    decreases rows.len(),
{
    if rows.len() == 0 {
        0
    } else if rows.last().len() > board_width(rows.drop_last()) {
        rows.last().len()
    } else {
        board_width(rows.drop_last())
    }
}

/// Whether a row has a wall in it.
pub open spec fn has_wall(row: Seq<char>) -> bool {
    exists|i: int| 0 <= i < row.len() && #[trigger] row[i] == '-'
}

/// The character of cell `x` of a row; a row that ends before `x` is
/// continued with blanks.
pub open spec fn cell_at(row: Seq<char>, x: int) -> char {
    if 0 <= x < row.len() {
        row[x]
    } else {
        ' '
    }
}

/// Whether cell `x` of a row is no wall and lies between two walls of the row.
pub open spec fn between_walls(row: Seq<char>, x: int) -> bool {
    &&& cell_at(row, x) != '-'
    &&& exists|i: int| 0 <= i < x && i < row.len() && #[trigger] row[i] == '-'
    &&& exists|j: int| x < j < row.len() && #[trigger] row[j] == '-'
}

/// The tile that a character of the board stands for. A platform starts out
/// moving: a vertical one upwards, a horizontal one to the right.
pub open spec fn level_tile(id: int, c: char, x: int, y: int) -> Tile {
    Tile {
        id: id as u32,
        c,
        fade_step: 0,
        position: Vector { x: (TILE_WIDTH * x) as i32, y: (TILE_HEIGHT * y) as i32 },
        velocity: if c == '|' {
            Vector { x: 0, y: (-SPEED) as i32 }
        } else if c == '~' {
            Vector { x: SPEED, y: 0 }
        } else {
            Vector::zero()
        },
        looping: c == '|' || c == '~',
        riding: c == '|' || c == '~',
        dragging_direction: None,
    }
}

/// The background cell that is drawn beneath a character of the board.
pub open spec fn blank_tile(id: int, c: char, x: int, y: int) -> Tile {
    Tile {
        id: id as u32,
        c,
        fade_step: 0,
        position: Vector { x: (TILE_WIDTH * x) as i32, y: (TILE_HEIGHT * y) as i32 },
        velocity: Vector::zero(),
        looping: false,
        riding: c == '|' || c == '~',
        dragging_direction: None,
    }
}

/// The tiles among the first `n` cells of row `y`, numbered from `first_id`:
/// one for every cell that is not blank.
pub open spec fn tiles_in_row(row: Seq<char>, y: int, first_id: int, n: int) -> Seq<Tile>
    decreases n,
{
    if n <= 0 {
        Seq::empty()
    } else {
        let before = tiles_in_row(row, y, first_id, n - 1);
        if cell_at(row, n - 1) == ' ' {
            before
        } else {
            before.push(level_tile(first_id + before.len(), cell_at(row, n - 1), n - 1, y))
        }
    }
}

/// The background cells among the first `n` cells of row `y`: one for every
/// cell between two walls, with the number that the next tile gets.
pub open spec fn blanks_in_row(row: Seq<char>, y: int, first_id: int, n: int) -> Seq<Tile>
    decreases n,
{
    if n <= 0 {
        Seq::empty()
    } else {
        let before = blanks_in_row(row, y, first_id, n - 1);
        if between_walls(row, n - 1) {
            before.push(
                blank_tile(
                    first_id + tiles_in_row(row, y, first_id, n - 1).len(),
                    cell_at(row, n - 1),
                    n - 1,
                    y,
                ),
            )
        } else {
            before
        }
    }
}

/// The tiles of the first `m` rows of a board, row by row, numbered from 1.
pub open spec fn tiles_in_rows(rows: Seq<Seq<char>>, width: int, m: int) -> Seq<Tile>
    decreases m,
{
    if m <= 0 {
        Seq::empty()
    } else {
        let before = tiles_in_rows(rows, width, m - 1);
        before + tiles_in_row(rows[m - 1], m - 1, (before.len() + 1) as int, width)
    }
}

/// The background cells of the first `m` rows of a board, row by row.
pub open spec fn blanks_in_rows(rows: Seq<Seq<char>>, width: int, m: int) -> Seq<Tile>
    decreases m,
{
    if m <= 0 {
        Seq::empty()
    } else {
        blanks_in_rows(rows, width, m - 1) + blanks_in_row(
            rows[m - 1],
            m - 1,
            (tiles_in_rows(rows, width, m - 1).len() + 1) as int,
            width,
        )
    }
}

/// Whether every row of a board has a wall in it.
pub open spec fn all_walled(rows: Seq<Seq<char>>) -> bool {
    forall|y: int| 0 <= y < rows.len() ==> has_wall(#[trigger] rows[y])
}

/// Whether a board of the given size can be placed: the pixel positions of
/// all its cells can be represented.
pub open spec fn placeable(width: int, height: int) -> bool {
    width * 16 <= i32::MAX && height * 16 <= i32::MAX
}

/// What is wrong with a board, if anything: it has no rows, a row has no
/// wall, or it is too large for its cells to be placed and its tiles to be
/// numbered.
pub open spec fn board_error(rows: Seq<Seq<char>>) -> Option<LevelError> {
    let width = board_width(rows) as int;
    if rows.len() == 0 {
        Some(LevelError::NoRows)
    } else if !all_walled(rows) {
        Some(LevelError::MissingBoundary)
    } else if !placeable(width, rows.len() as int) || tiles_in_rows(
        rows,
        width,
        rows.len() as int,
    ).len() >= u32::MAX {
        Some(LevelError::TooLarge)
    } else {
        None
    }
}

/// The time limit that the lines of a level text give: that of the third line.
pub open spec fn header_seconds(lines: Seq<Seq<char>>) -> Result<u16, LevelError> {
    if lines.len() < 3 {
        Err(LevelError::MissingTime)
    } else {
        seconds_of_search(regex_search(TIME_PATTERN@, lines[2]))
    }
}

/// The time limit of a level text, or the reason for which the text is
/// refused. The header is looked at first, then the board.
pub open spec fn level_outcome(text: Seq<char>) -> Result<u16, LevelError> {
    let lines = split_lines(text);
    match header_seconds(lines) {
        Err(e) => Err(e),
        Ok(seconds) => match board_error(board_rows(lines)) {
            Some(e) => Err(e),
            None => Ok(seconds),
        },
    }
}

/// The rows of a board as plain values.
pub open spec fn rows_view(rows: Seq<Vec<char>>) -> Seq<Seq<char>> {
    Seq::new(rows.len(), |i: int| rows[i]@)
}

/// Splits a text into its lines.
pub fn lines_of(chars: &Vec<char>) -> (lines: Vec<Vec<char>>)
    ensures
        rows_view(lines@) == split_lines(chars@),
{
    let mut done: Vec<Vec<char>> = Vec::new();
    let mut current: Vec<char> = Vec::new();
    let mut k: usize = 0;
    while k < chars.len()
        invariant
            k <= chars@.len(),
            split_lines(chars@.take(k as int)) == rows_view(done@).push(current@),
        decreases chars@.len() - k,
    {
        let c = chars[k];
        proof {
            assert(chars@.take(k + 1).drop_last() =~= chars@.take(k as int));
        }
        if c == '\n' {
            let ghost before = rows_view(done@).push(current@);
            done.push(current);
            current = Vec::new();
            assert(rows_view(done@).push(current@) =~= before.push(Seq::empty()));
        } else {
            let ghost before = rows_view(done@).push(current@);
            current.push(c);
            assert(rows_view(done@).push(current@) =~= before.update(
                before.len() - 1,
                before.last().push(c),
            ));
        }
        k = k + 1;
    }
    let ghost before = rows_view(done@).push(current@);
    done.push(current);
    proof {
        assert(chars@.take(chars@.len() as int) =~= chars@);
        assert(rows_view(done@) =~= before);
    }
    done
}

/// Picks the cells out of a line.
pub fn cells_of(line: &Vec<char>) -> (row: Vec<char>)
    ensures
        row@ == cells(line@),
{
    let mut row: Vec<char> = Vec::new();
    let count: usize = line.len() / 2 + line.len() % 2;
    let mut i: usize = 0;
    while i < count
        invariant
            i <= count,
            count == (line@.len() + 1) / 2,
            line@.len() <= usize::MAX,
            row@.len() == i,
            forall|k: int| 0 <= k < i ==> row@[k] == line@[2 * k],
        decreases count - i,
    {
        row.push(line[2 * i]);
        i = i + 1;
    }
    assert(row@ =~= cells(line@));
    row
}

/// `String::push` appends one character to the text.
pub assume_specification[ String::push ](s: &mut String, c: char)
    ensures
        final(s)@ == old(s)@.push(c),
;

/// Joins characters into a text.
pub fn string_of(chars: &Vec<char>) -> (text: String)
    ensures
        text@ == chars@,
{
    let mut text = String::new();
    let mut k: usize = 0;
    while k < chars.len()
        invariant
            k <= chars@.len(),
            text@ == chars@.take(k as int),
        decreases chars@.len() - k,
    {
        text.push(chars[k]);
        assert(chars@.take(k + 1) =~= chars@.take(k as int).push(chars@[k as int]));
        k = k + 1;
    }
    assert(chars@.take(chars@.len() as int) =~= chars@);
    text
}

/// Picks the rows of the board out of the lines of a level text.
pub fn rows_of(lines: &Vec<Vec<char>>) -> (rows: Vec<Vec<char>>)
    ensures
        rows_view(rows@) == board_rows(rows_view(lines@)),
{
    let mut rows: Vec<Vec<char>> = Vec::new();
    let mut k: usize = 0;
    while k < lines.len()
        invariant
            k <= lines@.len(),
            rows_view(rows@) == board_rows(rows_view(lines@).take(k as int)),
        decreases lines@.len() - k,
    {
        proof {
            assert(rows_view(lines@).take(k + 1).drop_last() =~= rows_view(lines@).take(k as int));
        }
        if k >= 4 {
            let row = cells_of(&lines[k]);
            if row.len() > 0 {
                let ghost before = rows_view(rows@);
                rows.push(row);
                assert(rows_view(rows@) =~= before.push(row@));
            }
        }
        k = k + 1;
    }
    assert(rows_view(lines@).take(lines@.len() as int) =~= rows_view(lines@));
    rows
}

/// Measures the longest row.
pub fn width_of(rows: &Vec<Vec<char>>) -> (width: usize)
    ensures
        width == board_width(rows_view(rows@)),
{
    let mut width: usize = 0;
    let mut k: usize = 0;
    while k < rows.len()
        invariant
            k <= rows@.len(),
            width == board_width(rows_view(rows@).take(k as int)),
        decreases rows@.len() - k,
    {
        proof {
            assert(rows_view(rows@).take(k + 1).drop_last() =~= rows_view(rows@).take(k as int));
        }
        if rows[k].len() > width {
            width = rows[k].len();
        }
        k = k + 1;
    }
    assert(rows_view(rows@).take(rows@.len() as int) =~= rows_view(rows@));
    width
}

/// Finds the first and the last wall of a row.
pub fn walls_of(row: &Vec<char>) -> (walls: Option<(usize, usize)>)
    ensures
        walls is None <==> !has_wall(row@),
        walls matches Some((first, last)) ==> {
            &&& first <= last < row@.len()
            &&& row@[first as int] == '-'
            &&& row@[last as int] == '-'
            &&& forall|i: int| 0 <= i < first ==> #[trigger] row@[i] != '-'
            &&& forall|j: int| last < j < row@.len() ==> #[trigger] row@[j] != '-'
        },
{
    let mut walls: Option<(usize, usize)> = None;
    let mut k: usize = 0;
    while k < row.len()
        invariant
            k <= row@.len(),
            walls is None ==> forall|i: int| 0 <= i < k ==> #[trigger] row@[i] != '-',
            walls matches Some((first, last)) ==> {
                &&& first <= last < k
                &&& row@[first as int] == '-'
                &&& row@[last as int] == '-'
                &&& forall|i: int| 0 <= i < first ==> #[trigger] row@[i] != '-'
                &&& forall|j: int| last < j < k ==> #[trigger] row@[j] != '-'
            },
        decreases row@.len() - k,
    {
        if row[k] == '-' {
            walls = match walls {
                Some((first, _)) => Some((first, k)),
                None => Some((k, k)),
            };
        }
        k = k + 1;
    }
    walls
}

/// The first rows of a board hold no more tiles than the whole board.
pub proof fn lemma_tiles_grow(rows: Seq<Seq<char>>, width: int, m: int, n: int)
    requires
        m <= n,
    ensures
        tiles_in_rows(rows, width, m).len() <= tiles_in_rows(rows, width, n).len(),
    decreases n - m,
{
    if m < n {
        lemma_tiles_grow(rows, width, m, n - 1);
    }
}

/// The first cells of a row hold no more tiles than the whole row.
pub proof fn lemma_row_tiles_grow(row: Seq<char>, y: int, first_id: int, m: int, n: int)
    requires
        m <= n,
    ensures
        tiles_in_row(row, y, first_id, m).len() <= tiles_in_row(row, y, first_id, n).len(),
    decreases n - m,
{
    if m < n {
        lemma_row_tiles_grow(row, y, first_id, m, n - 1);
    }
}

/// Where the tiles of a row come from: the cell of each tile, in rising order.
pub proof fn lemma_row_cells(row: Seq<char>, y: int, first_id: int, n: int) -> (cols: Seq<int>)
    ensures
        cols.len() == tiles_in_row(row, y, first_id, n).len(),
        forall|k: int|
            0 <= k < cols.len() ==> 0 <= #[trigger] cols[k] < n && tiles_in_row(
                row,
                y,
                first_id,
                n,
            )[k] == level_tile(first_id + k, cell_at(row, cols[k]), cols[k], y),
        forall|k: int, l: int| 0 <= k < l < cols.len() ==> #[trigger] cols[k] < #[trigger] cols[l],
    decreases n,
{
    if n <= 0 {
        Seq::empty()
    } else {
        let before = lemma_row_cells(row, y, first_id, n - 1);
        if cell_at(row, n - 1) == ' ' {
            before
        } else {
            before.push(n - 1)
        }
    }
}

/// Where the tiles of a board come from: the row and the cell of each tile,
/// in reading order. The tiles are numbered from 1 in that order.
pub proof fn lemma_board_cells(rows: Seq<Seq<char>>, width: int, m: int) -> (cells: (
    Seq<int>,
    Seq<int>,
))
    ensures
        cells.0.len() == tiles_in_rows(rows, width, m).len(),
        cells.1.len() == tiles_in_rows(rows, width, m).len(),
        forall|k: int|
            0 <= k < cells.0.len() ==> {
                &&& 0 <= #[trigger] cells.0[k] < m
                &&& 0 <= cells.1[k] < width
                &&& tiles_in_rows(rows, width, m)[k] == level_tile(
                    k + 1,
                    cell_at(rows[cells.0[k]], cells.1[k]),
                    cells.1[k],
                    cells.0[k],
                )
            },
        forall|k: int, l: int|
            0 <= k < l < cells.0.len() ==> #[trigger] cells.0[k] < #[trigger] cells.0[l] || (
            cells.0[k] == cells.0[l] && cells.1[k] < cells.1[l]),
    decreases m,
{
    if m <= 0 {
        (Seq::empty(), Seq::empty())
    } else {
        let (ys, xs) = lemma_board_cells(rows, width, m - 1);
        let before = tiles_in_rows(rows, width, m - 1);
        let cols = lemma_row_cells(rows[m - 1], m - 1, (before.len() + 1) as int, width);
        let all_ys = ys + Seq::new(cols.len(), |k: int| m - 1);
        let all_xs = xs + cols;
        let tiles = tiles_in_rows(rows, width, m);
        let added = tiles_in_row(rows[m - 1], m - 1, (before.len() + 1) as int, width);
        assert forall|k: int| 0 <= k < all_ys.len() implies {
            &&& 0 <= #[trigger] all_ys[k] < m
            &&& 0 <= all_xs[k] < width
            &&& tiles[k] == level_tile(
                k + 1,
                cell_at(rows[all_ys[k]], all_xs[k]),
                all_xs[k],
                all_ys[k],
            )
        } by {
            if k < ys.len() {
                assert(0 <= ys[k] < m - 1);
                assert(tiles[k] == before[k]);
            } else {
                let j = k - ys.len();
                assert(0 <= cols[j] < width);
                assert(tiles[k] == added[j]);
            }
        }
        assert forall|k: int, l: int| 0 <= k < l < all_ys.len() implies #[trigger] all_ys[k]
            < #[trigger] all_ys[l] || (all_ys[k] == all_ys[l] && all_xs[k] < all_xs[l]) by {
            if l < ys.len() {
                assert(ys[k] < ys[l] || (ys[k] == ys[l] && xs[k] < xs[l]));
            } else if k < ys.len() {
                assert(0 <= ys[k] < m - 1);
            } else {
                assert(cols[k - ys.len()] < cols[l - ys.len()]);
            }
        }
        (all_ys, all_xs)
    }
}

/// Whether no tile of `map` fades and none that is no platform rides, as on
/// a board that was just loaded.
pub open spec fn fresh(map: Seq<Tile>) -> bool {
    forall|k: int| 0 <= k < map.len() ==> !(#[trigger] map[k]).rider() && map[k].fade_step == 0
}

/// The tiles of a board that is not too large are well formed, carry
/// pairwise different identifiers and stand at pairwise different positions;
/// none of them fades, and none but the platforms rides.
pub proof fn lemma_board_well_formed(rows: Seq<Seq<char>>, width: int, height: int)
    requires
        0 <= width,
        0 <= height,
        placeable(width, height),
        tiles_in_rows(rows, width, height).len() < u32::MAX,
    ensures
        all_wf(tiles_in_rows(rows, width, height)),
        unique_ids(tiles_in_rows(rows, width, height)),
        distinct_positions(tiles_in_rows(rows, width, height)),
        fresh(tiles_in_rows(rows, width, height)),
{
    let tiles = tiles_in_rows(rows, width, height);
    let (ys, xs) = lemma_board_cells(rows, width, height);
    assert forall|k: int| 0 <= k < tiles.len() implies !(#[trigger] tiles[k]).rider() && tiles[k].fade_step
        == 0 by {
        assert(0 <= ys[k] < height);
    }
    assert forall|k: int| 0 <= k < tiles.len() implies (#[trigger] tiles[k]).wf() by {
        assert(0 <= ys[k] < height);
    }
    assert forall|k: int, l: int| 0 <= k < l < tiles.len() implies (#[trigger] tiles[k]).id != (
    #[trigger] tiles[l]).id by {
        assert(0 <= ys[k] < height);
        assert(0 <= ys[l] < height);
    }
    assert forall|k: int, l: int| 0 <= k < l < tiles.len() implies (#[trigger] tiles[k]).position
        != (#[trigger] tiles[l]).position by {
        assert(0 <= ys[k] < height);
        assert(0 <= ys[l] < height);
        assert(ys[k] < ys[l] || (ys[k] == ys[l] && xs[k] < xs[l]));
    }
}

/// Builds the tiles and the background cells of row `y` and appends them to
/// `tiles` and `blanks`. Returns `false`, with the lists in no particular
/// state, if the tiles can no longer be numbered.
fn build_row(
    row: &Vec<char>,
    y: usize,
    width: usize,
    tiles: &mut Vec<Tile>,
    blanks: &mut Vec<Tile>,
) -> (done: bool)
    requires
        placeable(width as int, y + 1),
        has_wall(row@),
        old(tiles)@.len() < u32::MAX,
    ensures
        done ==> final(tiles)@ == old(tiles)@ + tiles_in_row(
            row@,
            y as int,
            (old(tiles)@.len() + 1) as int,
            width as int,
        ),
        done ==> final(blanks)@ == old(blanks)@ + blanks_in_row(
            row@,
            y as int,
            (old(tiles)@.len() + 1) as int,
            width as int,
        ),
        done ==> final(tiles)@.len() < u32::MAX,
        !done ==> old(tiles)@.len() + tiles_in_row(
            row@,
            y as int,
            (old(tiles)@.len() + 1) as int,
            width as int,
        ).len() >= u32::MAX,
{
    let (first, last) = match walls_of(row) {
        Some(walls) => walls,
        None => {
            return true;
        },
    };
    let ghost first_id: int = (old(tiles)@.len() + 1) as int;
    let ghost yy = y as int;
    let py: i32 = (y * 16) as i32;
    let mut x: usize = 0;
    while x < width
        invariant
            x <= width,
            width * 16 <= i32::MAX,
            py == y * 16,
            first_id == old(tiles)@.len() + 1,
            yy == y as int,
            first <= last < row@.len(),
            row@[first as int] == '-',
            row@[last as int] == '-',
            forall|i: int| 0 <= i < first ==> #[trigger] row@[i] != '-',
            forall|j: int| last < j < row@.len() ==> #[trigger] row@[j] != '-',
            tiles@ == old(tiles)@ + tiles_in_row(row@, yy, first_id, x as int),
            blanks@ == old(blanks)@ + blanks_in_row(row@, yy, first_id, x as int),
            tiles@.len() < u32::MAX,
        decreases width - x,
    {
        let c: char = if x < row.len() {
            row[x]
        } else {
            ' '
        };
        let px: i32 = (x * 16) as i32;
        let id: u32 = (tiles.len() + 1) as u32;
        let ghost placed = tiles_in_row(row@, yy, first_id, x as int);
        let ghost cleared = blanks_in_row(row@, yy, first_id, x as int);
        assert(id == first_id + placed.len());
        if c != '-' && first < x && x < last {
            assert(between_walls(row@, x as int));
            blanks.push(Tile::new(id, c, px, py));
            assert(blanks@ =~= old(blanks)@ + cleared.push(blank_tile(id as int, c, x as int, yy)));
        } else {
            assert(!between_walls(row@, x as int)) by {
                if between_walls(row@, x as int) {
                    let i = choose|i: int| 0 <= i < x && i < row@.len() && #[trigger] row@[i] == '-';
                    let j = choose|j: int| x < j < row@.len() && #[trigger] row@[j] == '-';
                    assert(first <= i);
                    assert(j <= last);
                }
            }
        }
        if c != ' ' {
            let mut t = Tile::new(id, c, px, py);
            if c == '|' {
                t.velocity = Vector { x: 0, y: -SPEED };
                t.looping = true;
                t.riding = true;
            }
            if c == '~' {
                t.velocity = Vector { x: SPEED, y: 0 };
                t.looping = true;
                t.riding = true;
            }
            assert(t == level_tile(id as int, c, x as int, yy));
            tiles.push(t);
            assert(tiles@ =~= old(tiles)@ + placed.push(t));
            if tiles.len() >= u32::MAX as usize {
                proof {
                    lemma_row_tiles_grow(row@, yy, first_id, x + 1, width as int);
                }
                return false;
            }
        }
        x = x + 1;
    }
    true
}

/// Whether every row has a wall in it.
pub fn all_rows_walled(rows: &Vec<Vec<char>>) -> (walled: bool)
    ensures
        walled == all_walled(rows_view(rows@)),
{
    let ghost board = rows_view(rows@);
    let mut y: usize = 0;
    while y < rows.len()
        invariant
            y <= rows@.len(),
            board == rows_view(rows@),
            forall|k: int| 0 <= k < y ==> has_wall(#[trigger] board[k]),
        decreases rows@.len() - y,
    {
        if walls_of(&rows[y]).is_none() {
            assert(!has_wall(board[y as int]));
            return false;
        }
        assert(has_wall(board[y as int]));
        y = y + 1;
    }
    true
}

/// Builds the tiles and the background cells of a board, row by row.
/// Returns nothing if the tiles cannot all be numbered.
fn place_board(rows: &Vec<Vec<char>>, width: usize) -> (placed: Option<(Vec<Tile>, Vec<Tile>)>)
    requires
        placeable(width as int, rows@.len() as int),
        all_walled(rows_view(rows@)),
    ensures
        match placed {
            Some((tiles, blanks)) => {
                &&& tiles@ == tiles_in_rows(rows_view(rows@), width as int, rows@.len() as int)
                &&& blanks@ == blanks_in_rows(rows_view(rows@), width as int, rows@.len() as int)
                &&& tiles@.len() < u32::MAX
            },
            None => tiles_in_rows(rows_view(rows@), width as int, rows@.len() as int).len()
                >= u32::MAX,
        },
{
    let ghost board = rows_view(rows@);
    let height = rows.len();
    let mut tiles: Vec<Tile> = Vec::new();
    let mut blanks: Vec<Tile> = Vec::new();
    let mut y: usize = 0;
    while y < height
        invariant
            y <= height,
            height == rows@.len(),
            board == rows_view(rows@),
            placeable(width as int, height as int),
            all_walled(board),
            tiles@ == tiles_in_rows(board, width as int, y as int),
            blanks@ == blanks_in_rows(board, width as int, y as int),
            tiles@.len() < u32::MAX,
        decreases height - y,
    {
        assert(has_wall(board[y as int]));
        assert(board[y as int] == rows@[y as int]@);
        let ghost before = tiles@;
        if !build_row(&rows[y], y, width, &mut tiles, &mut blanks) {
            proof {
                assert(tiles_in_rows(board, width as int, y + 1) == before + tiles_in_row(
                    board[y as int],
                    y as int,
                    (before.len() + 1) as int,
                    width as int,
                ));
                lemma_tiles_grow(board, width as int, y + 1, height as int);
            }
            return None;
        }
        y = y + 1;
    }
    Some((tiles, blanks))
}

/// The pixel offsets that centre a board of the given size: half of what
/// the board leaves free of 420 pixels across and of 200 pixels down.
pub open spec fn centred(width: int, height: int) -> (int, int) {
    (210 - 8 * width, 100 - 8 * height)
}

/// Computes the pixel offsets at which a board is drawn.
fn board_offsets(width: usize, height: usize) -> (offsets: (i32, i32))
    requires
        placeable(width as int, height as int),
    ensures
        offsets.0 == centred(width as int, height as int).0,
        offsets.1 == centred(width as int, height as int).1,
{
    (210 - width as i32 * 8, 100 - height as i32 * 8)
}

/// Builds a level from the rows of its board.
pub fn build_level(n: usize, time: u16, rows: &Vec<Vec<char>>) -> (level: Result<
    LevelInfo,
    LevelError,
>)
    ensures
        match level {
            Ok(info) => {
                let board = rows_view(rows@);
                &&& board_error(board) is None
                &&& info.width == board_width(board)
                &&& info.height == board.len()
                &&& info.tiles@ == tiles_in_rows(board, info.width as int, info.height as int)
                &&& info.blanks@ == blanks_in_rows(board, info.width as int, info.height as int)
                &&& info.offset_x == centred(info.width as int, info.height as int).0
                &&& info.offset_y == centred(info.width as int, info.height as int).1
                &&& info.level == n
                &&& info.time == time
                &&& all_wf(info.tiles@)
                &&& unique_ids(info.tiles@)
                &&& distinct_positions(info.tiles@)
                &&& fresh(info.tiles@)
            },
            Err(e) => board_error(rows_view(rows@)) == Some(e),
        },
{
    let height = rows.len();
    if height == 0 {
        return Err(LevelError::NoRows);
    }
    let width = width_of(rows);
    if !all_rows_walled(rows) {
        return Err(LevelError::MissingBoundary);
    }
    let limit: usize = (i32::MAX / 16) as usize;
    if width > limit || height > limit {
        return Err(LevelError::TooLarge);
    }
    let (offset_x, offset_y) = board_offsets(width, height);
    match place_board(rows, width) {
        None => Err(LevelError::TooLarge),
        Some((tiles, blanks)) => {
            proof {
                lemma_board_well_formed(rows_view(rows@), width as int, height as int);
            }
            Ok(LevelInfo { tiles, blanks, width, height, offset_x, offset_y, level: n, time })
        },
    }
}

/// Reads level `n` from its text. The third line holds the time limit; the
/// lines after the fourth draw the board, one character for every cell with
/// one character in between that is passed over. Rows that end early are
/// continued with blanks.
pub fn load_level(n: usize, text: &str) -> (level: Result<LevelInfo, LevelError>)
    ensures
        match level {
            Ok(info) => {
                let board = board_rows(split_lines(text@));
                &&& level_outcome(text@) == Ok::<u16, LevelError>(info.time)
                &&& info.width == board_width(board)
                &&& info.height == board.len()
                &&& info.tiles@ == tiles_in_rows(board, info.width as int, info.height as int)
                &&& info.blanks@ == blanks_in_rows(board, info.width as int, info.height as int)
                &&& info.offset_x == centred(info.width as int, info.height as int).0
                &&& info.offset_y == centred(info.width as int, info.height as int).1
                &&& info.level == n
                &&& all_wf(info.tiles@)
                &&& unique_ids(info.tiles@)
                &&& distinct_positions(info.tiles@)
                &&& fresh(info.tiles@)
            },
            Err(e) => level_outcome(text@) == Err::<u16, LevelError>(e),
        },
{
    let chars = chars_of(text);
    let lines = lines_of(&chars);
    if lines.len() < 3 {
        return Err(LevelError::MissingTime);
    }
    let header = string_of(&lines[2]);
    let time = match extract_seconds(header.as_str()) {
        Ok(seconds) => seconds,
        Err(e) => {
            return Err(e);
        },
    };
    let rows = rows_of(&lines);
    build_level(n, time, &rows)
}

} // verus!
