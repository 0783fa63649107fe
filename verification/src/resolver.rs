//! The rules that decide, from a snapshot of the board, what happens to each
//! tile in a tick: drags, collisions, riding, gravity and matches.
//!
//! Every rule reads the same unmodified snapshot, so the order in which the
//! tiles are visited does not change what any of them sees.

use vstd::prelude::*;
use crate::collision::{first_hit, lemma_first_hit};
use crate::playing_state::{Board, PlayingState};
use crate::tile::{Direction, Tile, TileChange, Vector, SPEED, TILE_HEIGHT, TILE_WIDTH};

verus! {

/// Whether the chain of tiles that starts at `t` can give way by `v`: `t`
/// must be playable, and the tile in its way, if any, must in turn give way.
/// `fuel` bounds the length of the chain, so that tiles that block each other
/// in a circle do not give way.
pub open spec fn chain_gives_way(map: Seq<Tile>, t: Tile, v: Vector, fuel: nat) -> bool
    decreases fuel,
{
    t.playable() && match first_hit(map, t.id, t.position.x + v.x, t.position.y + v.y) {
        None => true,
        Some(j) => fuel > 0 && chain_gives_way(map, map[j], v, (fuel - 1) as nat),
    }
}

/// Whether two tiles sit side by side or one on top of the other, exactly one
/// cell apart.
pub open spec fn adjacent(a: Tile, b: Tile) -> bool {
    let dx = a.position.x - b.position.x;
    let dy = a.position.y - b.position.y;
    ||| ((dx == TILE_WIDTH || dx == -TILE_WIDTH) && dy == 0)
    ||| ((dy == TILE_HEIGHT || dy == -TILE_HEIGHT) && dx == 0)
}

/// Whether `other` is a neighbour of `t` of the same kind.
pub open spec fn matches_with(t: Tile, other: Tile) -> bool {
    other.id != t.id && other.c == t.c && adjacent(t, other)
}

/// Whether some tile of the board is a neighbour of `t` of the same kind.
pub open spec fn has_match(map: Seq<Tile>, t: Tile) -> bool {
    exists|i: int| 0 <= i < map.len() && matches_with(t, #[trigger] map[i])
}

/// A list of no change or one.
pub open spec fn listed(change: Option<TileChange>) -> Seq<TileChange> {
    match change {
        Some(c) => seq![c],
        None => Seq::empty(),
    }
}

/// The changes of one tile, each paired with the tile's identifier.
pub open spec fn tagged(id: u32, changes: Seq<TileChange>) -> Seq<(u32, TileChange)> {
    Seq::new(changes.len(), |k: int| (id, changes[k]))
}

/// The velocity that a platform takes over from the platform it rests on: a
/// velocity that is not quantized is not taken over, and the platform stays
/// at rest.
pub open spec fn settled(carried: bool, v: Vector) -> Vector {
    if carried && !v.quantized() {
        Vector::zero()
    } else {
        v
    }
}

/// Computes the velocity that a platform takes over from the one it rests on.
fn settle(carried: bool, v: Vector) -> (taken: Vector)
    ensures
        taken == settled(carried, v),
{
    if carried && !v.is_quantized() {
        Vector { x: 0, y: 0 }
    } else {
        v
    }
}

impl Board {
    /// Whether `t` can be pushed by `v`, together with whatever it would push
    /// in turn.
    pub open spec fn pushable(self, t: Tile, v: Vector) -> bool {
        chain_gives_way(self.map, t, v, self.map.len())
    }

    /// The first tile in the way of `t` moved by `v`.
    pub open spec fn ahead(self, t: Tile, v: Vector) -> Option<int> {
        first_hit(self.map, t.id, t.position.x + v.x, t.position.y + v.y)
    }

    /// The first tile directly beneath `t`.
    pub open spec fn beneath(self, t: Tile) -> Option<int> {
        first_hit(self.map, t.id, t.position.x as int, t.position.y + SPEED)
    }

    /// Pixel position of the cell under the cursor.
    pub open spec fn cursor_pixel(self) -> (int, int) {
        (self.player.0 * TILE_WIDTH, self.player.1 * TILE_HEIGHT)
    }

    /// The drag rule. A draggable tile with a pending drag to the left or to
    /// the right jumps to the cell under the cursor if nothing is in the way
    /// there, and stops otherwise.
    pub open spec fn drag_change(self, t: Tile) -> Option<TileChange> {
        let (px, py) = self.cursor_pixel();
        if t.draggable() && (t.dragging_direction == Some(Direction::Left) || t.dragging_direction
            == Some(Direction::Right)) {
            if px <= i32::MAX && py <= i32::MAX && first_hit(self.map, t.id, px, py) is None {
                Some(TileChange::Jump(Vector { x: px as i32, y: py as i32 }))
            } else {
                Some(TileChange::Stop)
            }
        } else {
            None
        }
    }

    /// The rule for a tile at rest that nothing overlaps. It starts to fall
    /// when nothing is beneath it, starts riding when a platform is beneath
    /// it, and stays idle otherwise.
    pub open spec fn rest_change(self, t: Tile) -> Option<TileChange>
        decreases i32::MAX - t.position.y, 0int,
        when self.ahead(t, Vector::zero()) is None
    {
        match self.beneath(t) {
            None => Some(TileChange::VelocityUpdate(Vector::fall())),
            Some(b) => if self.map[b].looping {
                proof {
                    lemma_first_hit(self.map, t.id, t.position.x as int, t.position.y + SPEED);
                    lemma_first_hit(self.map, t.id, t.position.x + 0, t.position.y + 0);
                }
                Some(TileChange::StartRiding(self.leaving_velocity(self.map[b])))
            } else {
                None
            },
        }
    }

    /// The rule for a platform. With something in its way it waits while
    /// that can be pushed along, and bounces otherwise. With nothing in its
    /// way a moving platform moves on, and one at rest follows the rule for
    /// tiles at rest.
    pub open spec fn platform_change(self, p: Tile) -> Option<TileChange>
        decreases i32::MAX - p.position.y, 1int,
    {
        match self.ahead(p, p.velocity) {
            Some(c) => if self.pushable(self.map[c], p.velocity) {
                None
            } else {
                Some(TileChange::Bounce)
            },
            None => if p.velocity == Vector::zero() {
                self.rest_change(p)
            } else {
                Some(TileChange::Move)
            },
        }
    }

    /// The velocity with which platform `p` leaves the tick.
    pub open spec fn leaving_velocity(self, p: Tile) -> Vector
        decreases i32::MAX - p.position.y, 2int,
    {
        if p.playable() && p.fade_step == 0 {
            match self.platform_change(p) {
                Some(c) => p.after(c).velocity,
                None => p.velocity,
            }
        } else {
            p.velocity
        }
    }

    /// The rule for a tile that rides. While a platform is directly beneath
    /// it, the rider has the velocity with which that platform leaves the
    /// tick: it takes that velocity over whenever its own differs or a drag
    /// has just brought it to rest. Otherwise it rests with a platform at
    /// rest and moves along with a moving one, unless something is in its
    /// way: a rider that runs into another platform starts riding that one,
    /// and one that runs into anything else falls off. A rider with no
    /// platform beneath it falls off as well.
    pub open spec fn rider_change(self, t: Tile) -> Option<TileChange> {
        match self.beneath(t) {
            Some(p) => if self.map[p].looping {
                let v = self.leaving_velocity(self.map[p]);
                if v != t.velocity || self.drag_change(t) is Some {
                    Some(TileChange::StartRiding(v))
                } else if v == Vector::zero() {
                    None
                } else {
                    match self.ahead(t, v) {
                        None => Some(TileChange::Move),
                        Some(c) => if c == p {
                            None
                        } else if self.map[c].looping {
                            Some(TileChange::StartRiding(self.leaving_velocity(self.map[c])))
                        } else {
                            Some(TileChange::Fall)
                        },
                    }
                }
            } else {
                Some(TileChange::Fall)
            },
            None => Some(TileChange::Fall),
        }
    }

    /// The rule for a tile that neither is a platform nor rides one. If
    /// something is in its way it starts riding when that is a platform and
    /// stops otherwise. If nothing is in its way, a moving tile moves on and
    /// one at rest follows the rule for tiles at rest.
    pub open spec fn free_change(self, t: Tile) -> Option<TileChange> {
        match self.ahead(t, t.velocity) {
            Some(c) => if self.map[c].looping {
                Some(TileChange::StartRiding(self.leaving_velocity(self.map[c])))
            } else {
                Some(TileChange::Stop)
            },
            None => if t.velocity == Vector::zero() {
                self.rest_change(t)
            } else {
                Some(TileChange::Move)
            },
        }
    }

    /// The movement rule: that of a platform, of a rider, or of a free tile.
    pub open spec fn motion_change(self, t: Tile) -> Option<TileChange> {
        if t.looping {
            self.platform_change(t)
        } else if t.riding {
            self.rider_change(t)
        } else {
            self.free_change(t)
        }
    }

    /// The match rule. A tile at rest next to a tile of its own kind starts
    /// to fade.
    pub open spec fn match_change(self, t: Tile) -> Option<TileChange> {
        if t.at_rest() && has_match(self.map, t) {
            Some(TileChange::FadeOut)
        } else {
            None
        }
    }

    /// Everything that happens to tile `t` in one tick, in the order in which
    /// it is applied. Walls and blanks never change. A fading tile does
    /// nothing but fade. While a fade is under way nothing else moves.
    /// Otherwise the drag rule comes first, then the movement rule, then the
    /// match rule.
    pub open spec fn changes_for(self, t: Tile) -> Seq<TileChange> {
        if !t.playable() {
            Seq::empty()
        } else if t.fade_step > 0 {
            seq![TileChange::FadeOut]
        } else if self.fading_out {
            Seq::empty()
        } else {
            listed(self.drag_change(t)) + listed(self.motion_change(t)) + listed(
                self.match_change(t),
            )
        }
    }

    /// The change list of a tick over `tiles`: the changes of each tile in
    /// turn, paired with the tile's identifier.
    pub open spec fn next_changes(self, tiles: Seq<Tile>) -> Seq<(u32, TileChange)>
        decreases tiles.len(),
    {
        if tiles.len() == 0 {
            Seq::empty()
        } else {
            self.next_changes(tiles.drop_last()) + tagged(
                tiles.last().id,
                self.changes_for(tiles.last()),
            )
        }
    }
}

impl PlayingState {
    /// Whether `tile` can be pushed by `velocity`: it is playable, and either
    /// nothing is in its way or what is in its way can be pushed as well, all
    /// the way down the chain. Any wall in the chain blocks the whole chain.
    pub fn can_push(&self, tile: &Tile, velocity: &Vector) -> (free: bool)
        ensures
            free == self@.pushable(*tile, *velocity),
    {
        let mut current: Tile = *tile;
        let mut fuel: usize = self.map.len();
        loop
            invariant
                fuel <= self.map@.len(),
                self@.pushable(*tile, *velocity) == chain_gives_way(
                    self.map@,
                    current,
                    *velocity,
                    fuel as nat,
                ),
            decreases fuel,
        {
            if !current.is_playable() {
                return false;
            }
            let x = current.position.x as i64 + velocity.x as i64;
            let y = current.position.y as i64 + velocity.y as i64;
            match self.check_collision(&current, x, y) {
                None => {
                    return true;
                },
                Some(j) => {
                    if fuel == 0 {
                        return false;
                    }
                    fuel = fuel - 1;
                    current = self.map[j];
                },
            }
        }
    }

    /// Applies the drag rule to `tile`.
    pub fn new_handle_dragging(&self, tile: &Tile) -> (change: Option<TileChange>)
        ensures
            change == self@.drag_change(*tile),
    {
        let sideways = match tile.dragging_direction {
            Some(Direction::Left) => true,
            Some(Direction::Right) => true,
            _ => false,
        };
        if !(sideways && tile.is_playable() && !tile.looping) {
            return None;
        }
        let limit: usize = (i32::MAX / TILE_WIDTH) as usize;
        if self.player.position.0 > limit || self.player.position.1 > limit {
            return Some(TileChange::Stop);
        }
        let px: i32 = self.player.position.0 as i32 * TILE_WIDTH;
        let py: i32 = self.player.position.1 as i32 * TILE_HEIGHT;
        match self.check_collision(tile, px as i64, py as i64) {
            None => Some(TileChange::Jump(Vector { x: px, y: py })),
            Some(_) => Some(TileChange::Stop),
        }
    }

    /// Applies the rule for tiles at rest to `tile`.
    fn rest_step(&self, tile: &Tile) -> (change: Option<TileChange>)
        requires
            self@.ahead(*tile, Vector::zero()) is None,
        ensures
            change == self@.rest_change(*tile),
    {
        let below = self.check_collision(
            tile,
            tile.position.x as i64,
            tile.position.y as i64 + SPEED as i64,
        );
        match below {
            None => Some(TileChange::VelocityUpdate(Vector { x: 0, y: SPEED })),
            Some(b) => {
                if self.map[b].looping {
                    Some(TileChange::StartRiding(self.platform_velocity(&self.map[b])))
                } else {
                    None
                }
            },
        }
    }

    /// Applies the platform rule to `tile`.
    fn platform_step(&self, tile: &Tile) -> (change: Option<TileChange>)
        ensures
            change == self@.platform_change(*tile),
    {
        let x = tile.position.x as i64 + tile.velocity.x as i64;
        let y = tile.position.y as i64 + tile.velocity.y as i64;
        match self.check_collision(tile, x, y) {
            Some(c) => {
                if self.can_push(&self.map[c], &tile.velocity) {
                    None
                } else {
                    Some(TileChange::Bounce)
                }
            },
            None => {
                if tile.velocity.x == 0 && tile.velocity.y == 0 {
                    self.rest_step(tile)
                } else {
                    Some(TileChange::Move)
                }
            },
        }
    }

    /// Computes the velocity with which `platform` leaves the tick. A
    /// platform at rest on another platform takes the velocity of that one,
    /// which may in turn rest on a third: the pile is walked down to the
    /// platform that decides.
    pub fn platform_velocity(&self, platform: &Tile) -> (v: Vector)
        ensures
            v == self@.leaving_velocity(*platform),
    {
        let mut current: Tile = *platform;
        let mut carried = false;
        loop
            invariant
                self@.leaving_velocity(*platform) == settled(
                    carried,
                    self@.leaving_velocity(current),
                ),
            decreases i32::MAX - current.position.y,
        {
            if !(current.is_playable() && current.fade_step == 0) {
                return settle(carried, current.velocity);
            }
            let x = current.position.x as i64 + current.velocity.x as i64;
            let y = current.position.y as i64 + current.velocity.y as i64;
            match self.check_collision(&current, x, y) {
                Some(c) => {
                    if self.can_push(&self.map[c], &current.velocity) {
                        return settle(carried, current.velocity);
                    } else {
                        let mut bounced = current;
                        bounced.apply(TileChange::Bounce);
                        return settle(carried, bounced.velocity);
                    }
                },
                None => {
                    if !(current.velocity.x == 0 && current.velocity.y == 0) {
                        return settle(carried, current.velocity);
                    }
                    let below = self.check_collision(
                        &current,
                        current.position.x as i64,
                        current.position.y as i64 + SPEED as i64,
                    );
                    match below {
                        None => {
                            return Vector { x: 0, y: SPEED };
                        },
                        Some(b) => {
                            if self.map[b].looping {
                                current = self.map[b];
                                carried = true;
                            } else {
                                return current.velocity;
                            }
                        },
                    }
                },
            }
        }
    }

    /// Applies the rider rule to `tile`.
    fn rider_step(&self, tile: &Tile) -> (change: Option<TileChange>)
        ensures
            change == self@.rider_change(*tile),
    {
        let below = self.check_collision(
            tile,
            tile.position.x as i64,
            tile.position.y as i64 + SPEED as i64,
        );
        match below {
            Some(p) => {
                if self.map[p].looping {
                    let v = self.platform_velocity(&self.map[p]);
                    if v.x != tile.velocity.x || v.y != tile.velocity.y
                        || self.new_handle_dragging(tile).is_some() {
                        Some(TileChange::StartRiding(v))
                    } else if v.x == 0 && v.y == 0 {
                        None
                    } else {
                        let x = tile.position.x as i64 + v.x as i64;
                        let y = tile.position.y as i64 + v.y as i64;
                        match self.check_collision(tile, x, y) {
                            None => Some(TileChange::Move),
                            Some(c) => if c == p {
                                None
                            } else if self.map[c].looping {
                                Some(TileChange::StartRiding(self.platform_velocity(&self.map[c])))
                            } else {
                                Some(TileChange::Fall)
                            },
                        }
                    }
                } else {
                    Some(TileChange::Fall)
                }
            },
            None => Some(TileChange::Fall),
        }
    }

    /// Applies the rule for free tiles to `tile`.
    fn free_step(&self, tile: &Tile) -> (change: Option<TileChange>)
        ensures
            change == self@.free_change(*tile),
    {
        let x = tile.position.x as i64 + tile.velocity.x as i64;
        let y = tile.position.y as i64 + tile.velocity.y as i64;
        match self.check_collision(tile, x, y) {
            Some(c) => {
                if self.map[c].looping {
                    Some(TileChange::StartRiding(self.platform_velocity(&self.map[c])))
                } else {
                    Some(TileChange::Stop)
                }
            },
            None => {
                if tile.velocity.x == 0 && tile.velocity.y == 0 {
                    self.rest_step(tile)
                } else {
                    Some(TileChange::Move)
                }
            },
        }
    }

    /// Applies the movement rule to `tile`. Only a tile that moves, with
    /// nothing in its way, is told to move on.
    pub fn new_handle_collision(&self, tile: &Tile) -> (change: Option<TileChange>)
        ensures
            change == self@.motion_change(*tile),
            change == Some(TileChange::Move) ==> tile.velocity != Vector::zero() && self@.ahead(
                *tile,
                tile.velocity,
            ) is None,
            change == Some(TileChange::Bounce) ==> tile.looping && self@.ahead(
                *tile,
                tile.velocity,
            ) is Some,
            change == Some(TileChange::Stop) ==> !tile.looping,
            !(change matches Some(TileChange::Jump(_))),
            change != Some(TileChange::FadeOut),
    {
        if tile.looping {
            self.platform_step(tile)
        } else if tile.riding {
            self.rider_step(tile)
        } else {
            self.free_step(tile)
        }
    }

    /// Applies the match rule to `tile`.
    pub fn handle_matches(&self, tile: &Tile) -> (change: Option<TileChange>)
        ensures
            change == self@.match_change(*tile),
    {
        if !tile.is_at_rest() {
            return None;
        }
        let mut index: usize = 0;
        while index < self.map.len()
            invariant
                index <= self.map@.len(),
                tile.at_rest(),
                forall|j: int| 0 <= j < index ==> !matches_with(*tile, #[trigger] self.map@[j]),
            decreases self.map@.len() - index,
        {
            let t = &self.map[index];
            if t.id != tile.id && t.c == tile.c {
                let dx: i64 = tile.position.x as i64 - t.position.x as i64;
                let dy: i64 = tile.position.y as i64 - t.position.y as i64;
                if ((dx == TILE_WIDTH as i64 || dx == -(TILE_WIDTH as i64)) && dy == 0) || ((dy
                    == TILE_HEIGHT as i64 || dy == -(TILE_HEIGHT as i64)) && dx == 0) {
                    assert(matches_with(*tile, self.map@[index as int]));
                    return Some(TileChange::FadeOut);
                }
            }
            index = index + 1;
        }
        None
    }

    /// Computes everything that happens to `tile` in one tick.
    pub fn tile_changes(&self, tile: &Tile) -> (changes: Vec<TileChange>)
        ensures
            changes@ == self@.changes_for(*tile),
    {
        let mut changes: Vec<TileChange> = Vec::new();
        if tile.is_playable() {
            if tile.fade_step > 0 {
                changes.push(TileChange::FadeOut);
            } else if !self.fading_out {
                if let Some(tc) = self.new_handle_dragging(tile) {
                    changes.push(tc);
                }
                if let Some(tc) = self.new_handle_collision(tile) {
                    changes.push(tc);
                }
                if let Some(tc) = self.handle_matches(tile) {
                    changes.push(tc);
                }
            }
        }
        assert(changes@ =~= self@.changes_for(*tile));
        changes
    }

    /// Computes the change list of one tick over the tiles of `map`, reading
    /// this state as the snapshot and leaving it untouched. The list holds
    /// the changes of each tile in turn, paired with the tile's identifier;
    /// the same snapshot always gives the same list.
    pub fn next_map(&self, map: &Vec<Tile>) -> (changes: Vec<(u32, TileChange)>)
        ensures
            changes@ == self@.next_changes(map@),
    {
        let mut changes: Vec<(u32, TileChange)> = Vec::new();
        let mut index: usize = 0;
        while index < map.len()
            invariant
                index <= map@.len(),
                changes@ == self@.next_changes(map@.take(index as int)),
            decreases map@.len() - index,
        {
            let tile = &map[index];
            let own = self.tile_changes(tile);
            let ghost before = changes@;
            let mut k: usize = 0;
            while k < own.len()
                invariant
                    k <= own@.len(),
                    changes@ == before + tagged(tile.id, own@.take(k as int)),
                decreases own@.len() - k,
            {
                changes.push((tile.id, own[k]));
                assert(tagged(tile.id, own@.take(k + 1)) =~= tagged(tile.id, own@.take(k as int)).push(
                    (tile.id, own@[k as int]),
                ));
                k = k + 1;
            }
            proof {
                assert(own@.take(own@.len() as int) =~= own@);
                assert(map@.take(index + 1).drop_last() =~= map@.take(index as int));
            }
            index = index + 1;
        }
        assert(map@.take(map@.len() as int) =~= map@);
        changes
    }
}

} // verus!
