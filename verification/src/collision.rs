//! The geometric test between tiles, and the scan of a board for the first
//! tile that a given spot would collide with.

use vstd::prelude::*;
use crate::tile::{Tile, TILE_HEIGHT, TILE_WIDTH};

verus! {

/// Whether a tile placed with its corner at `(x, y)` would overlap tile `t`:
/// the distance is strictly less than one tile on both axes.
pub open spec fn overlaps_at(t: Tile, x: int, y: int) -> bool {
    &&& -(TILE_WIDTH as int) < t.position.x - x < TILE_WIDTH as int
    &&& -(TILE_HEIGHT as int) < t.position.y - y < TILE_HEIGHT as int
}

/// Whether two tiles collide. A tile never collides with itself.
pub open spec fn tiles_overlap(a: Tile, b: Tile) -> bool {
    a.id != b.id && overlaps_at(a, b.position.x as int, b.position.y as int)
}

/// Whether `t` is in the way of the tile with identifier `id` placed at `(x, y)`.
pub open spec fn hits(t: Tile, id: u32, x: int, y: int) -> bool {
    t.id != id && overlaps_at(t, x, y)
}

/// Whether index `i` holds the first tile of `map` that is in the way of the
/// tile with identifier `id` placed at `(x, y)`.
pub open spec fn is_first_hit(map: Seq<Tile>, id: u32, x: int, y: int, i: int) -> bool {
    &&& 0 <= i < map.len()
    &&& hits(map[i], id, x, y)
    &&& forall|j: int| 0 <= j < i ==> !hits(#[trigger] map[j], id, x, y)
}

/// Whether nothing on the board is in the way of the tile with identifier
/// `id` placed at `(x, y)`.
pub open spec fn is_clear(map: Seq<Tile>, id: u32, x: int, y: int) -> bool {
    forall|j: int| 0 <= j < map.len() ==> !hits(#[trigger] map[j], id, x, y)
}

/// The index of the first tile that is in the way of the tile with identifier
/// `id` placed at `(x, y)`, if there is one.
pub open spec fn first_hit(map: Seq<Tile>, id: u32, x: int, y: int) -> Option<int> {
    if is_clear(map, id, x, y) {
        None
    } else {
        Some(choose|i: int| is_first_hit(map, id, x, y, i))
    }
}

/// The first hit is the only index that `is_first_hit` accepts.
pub proof fn lemma_first_hit_unique(map: Seq<Tile>, id: u32, x: int, y: int, i: int)
    requires
        is_first_hit(map, id, x, y, i),
    ensures
        first_hit(map, id, x, y) == Some(i),
{
    let j = choose|j: int| is_first_hit(map, id, x, y, j);
    assert(is_first_hit(map, id, x, y, j));
    if j < i {
        assert(!hits(map[j], id, x, y));
    }
    if i < j {
        assert(!hits(map[i], id, x, y));
    }
}

/// Whatever `first_hit` returns is described by `is_first_hit` or `is_clear`.
pub proof fn lemma_first_hit(map: Seq<Tile>, id: u32, x: int, y: int)
    ensures
        match first_hit(map, id, x, y) {
            Some(i) => is_first_hit(map, id, x, y, i),
            None => is_clear(map, id, x, y),
        },
{
    if !is_clear(map, id, x, y) {
        lemma_some_first_hit(map, id, x, y, map.len() as int);
    }
}

/// Among the first `n` tiles either none is in the way or one of them is the first.
proof fn lemma_some_first_hit(map: Seq<Tile>, id: u32, x: int, y: int, n: int)
    requires
        0 <= n <= map.len(),
    ensures
        (forall|j: int| 0 <= j < n ==> !hits(#[trigger] map[j], id, x, y)) || (exists|i: int|
            is_first_hit(map, id, x, y, i)),
    decreases n,
{
    if n > 0 {
        lemma_some_first_hit(map, id, x, y, n - 1);
        if forall|j: int| 0 <= j < n - 1 ==> !hits(#[trigger] map[j], id, x, y) {
            if hits(map[n - 1], id, x, y) {
                assert(is_first_hit(map, id, x, y, n - 1));
            }
        }
    }
}

/// Collision is symmetric: `a` overlaps `b` exactly when `b` overlaps `a`.
pub proof fn lemma_overlap_symmetric(a: Tile, b: Tile)
    ensures
        tiles_overlap(a, b) == tiles_overlap(b, a),
{
}

/// The test at the heart of collision detection: would a tile placed at
/// `(x, y)` overlap `t1`?
pub fn check_collision_perfect(t1: &Tile, x: i64, y: i64) -> (hit: bool)
    ensures
        hit == overlaps_at(*t1, x as int, y as int),
{
    let dx: i128 = t1.position.x as i128 - x as i128;
    let dy: i128 = t1.position.y as i128 - y as i128;
    -(TILE_WIDTH as i128) < dx && dx < TILE_WIDTH as i128 && -(TILE_HEIGHT as i128) < dy && dy
        < TILE_HEIGHT as i128
}

/// Whether two tiles collide.
pub fn overlaps(a: &Tile, b: &Tile) -> (hit: bool)
    ensures
        hit == tiles_overlap(*a, *b),
        hit == tiles_overlap(*b, *a),
{
    a.id != b.id && check_collision_perfect(a, b.position.x as i64, b.position.y as i64)
}

/// Scans `map` for the first tile other than `t1` that a tile placed at
/// `(x, y)` would overlap.
pub fn find_collision(map: &Vec<Tile>, t1: &Tile, x: i64, y: i64) -> (found: Option<usize>)
    ensures
        found matches Some(i) ==> first_hit(map@, t1.id, x as int, y as int) == Some(i as int)
            && is_first_hit(map@, t1.id, x as int, y as int, i as int),
        found is None ==> first_hit(map@, t1.id, x as int, y as int) is None && is_clear(
            map@,
            t1.id,
            x as int,
            y as int,
        ),
{
    let mut index: usize = 0;
    while index < map.len()
        invariant
            index <= map.len(),
            forall|j: int| 0 <= j < index ==> !hits(#[trigger] map@[j], t1.id, x as int, y as int),
        decreases map.len() - index,
    {
        if map[index].id != t1.id && check_collision_perfect(&map[index], x, y) {
            proof {
                lemma_first_hit_unique(map@, t1.id, x as int, y as int, index as int);
            }
            return Some(index);
        }
        index = index + 1;
    }
    None
}

} // verus!
