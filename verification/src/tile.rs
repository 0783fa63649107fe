//! Tiles, their kinds, and the changes a tick may apply to a single tile.

use vstd::prelude::*;

verus! {

/// Width of a cell in pixels.
pub const TILE_WIDTH: i32 = 16;

/// Height of a cell in pixels.
pub const TILE_HEIGHT: i32 = 16;

/// Pixels a moving tile travels per tick.
pub const SPEED: i32 = 1;

/// Number of ticks a matched tile keeps fading before it is removed.
pub const FADE_STEPS: u32 = 50;

/// A direction on the board.
#[derive(Clone, Copy, Debug, PartialEq, Eq, Structural)]
pub enum Direction {
    /// No direction at all.
    Stay,
    Left,
    Right,
    Up,
    Down,
}

/// A pair of pixel coordinates: a position on the board or a displacement per tick.
#[derive(Clone, Copy, Debug, PartialEq, Eq, Structural)]
pub struct Vector {
    pub x: i32,
    pub y: i32,
}

impl Vector {
    /// The five velocities a tile may have: at rest, or `SPEED` along one axis.
    pub open spec fn quantized(self) -> bool {
        ||| (self.x == 0 && self.y == 0)
        ||| (self.x == SPEED && self.y == 0)
        ||| (self.x == -SPEED && self.y == 0)
        ||| (self.x == 0 && self.y == SPEED)
        ||| (self.x == 0 && self.y == -SPEED)
    }

    /// The displacement of a tile at rest.
    pub open spec fn zero() -> Vector {
        Vector { x: 0, y: 0 }
    }

    /// The velocity of a falling tile.
    pub open spec fn fall() -> Vector {
        Vector { x: 0, y: SPEED }
    }

    /// The same displacement in the opposite direction.
    pub open spec fn reversed(self) -> Vector
        recommends
            self.x > i32::MIN,
            self.y > i32::MIN,
    {
        Vector { x: (-self.x) as i32, y: (-self.y) as i32 }
    }

    /// The pair of the given coordinates.
    pub fn new(x: i32, y: i32) -> (v: Vector)
        ensures
            v == (Vector { x, y }),
    {
        Vector { x, y }
    }

    /// Whether this is one of the five velocities a tile may have.
    pub fn is_quantized(&self) -> (b: bool)
        ensures
            b == self.quantized(),
    {
        (self.x == 0 && self.y == 0) || (self.x == SPEED && self.y == 0) || (self.x == -SPEED
            && self.y == 0) || (self.x == 0 && self.y == SPEED) || (self.x == 0 && self.y
            == -SPEED)
    }
}

/// The kinds of tiles, each of which is drawn as one symbol.
#[derive(Clone, Copy, Debug, PartialEq, Eq, Structural)]
pub enum TileKind {
    /// An ordinary piece, identified by its letter.
    Piece(char),
    /// A platform that moves sideways, drawn as `~`.
    HorizontalPlatform,
    /// A platform that moves up and down, drawn as `|`.
    VerticalPlatform,
    /// An empty cell, drawn as a blank.
    Blank,
    /// A wall, drawn as `-`.
    Wall,
}

impl TileKind {
    /// The kind that a symbol stands for.
    pub open spec fn of(c: char) -> TileKind {
        if c == '~' {
            TileKind::HorizontalPlatform
        } else if c == '|' {
            TileKind::VerticalPlatform
        } else if c == ' ' {
            TileKind::Blank
        } else if c == '-' {
            TileKind::Wall
        } else {
            TileKind::Piece(c)
        }
    }

    /// Whether tiles of this kind never move: blanks and walls.
    pub open spec fn fixed(self) -> bool {
        self == TileKind::Blank || self == TileKind::Wall
    }
}

/// What a tile is doing. A pending drag is not a state of its own: it comes on
/// top of any of these and is resolved by the next tick.
#[derive(Clone, Copy, Debug, PartialEq, Eq, Structural)]
pub enum TileState {
    /// At rest, on its own.
    Idle,
    /// Moving on its own: falling, or, for a platform, running its course.
    Moving,
    /// Carried by a platform.
    Riding,
    /// Matched and fading; nothing follows but the removal.
    FadingOut,
}

/// A change that a tick applies to one tile.
#[derive(Clone, Copy, Debug, PartialEq, Eq, Structural)]
pub enum TileChange {
    /// Advance the position by the velocity.
    Move,
    /// Reverse the velocity.
    Bounce,
    /// Come to rest and drop any pending drag.
    Stop,
    /// Advance the fade counter by one.
    FadeOut,
    /// Teleport to the given position, at rest, with the pending drag dropped.
    Jump(Vector),
    /// Take the given velocity.
    VelocityUpdate(Vector),
    /// Start (or keep) riding a platform that leaves the tick with the given velocity.
    StartRiding(Vector),
    /// Leave the platform and start falling.
    Fall,
    /// Set the riding flag.
    RidingFlag(bool),
}

/// One occupant of the board.
#[derive(Clone, Copy, Debug)]
pub struct Tile {
    /// Identifier that stays with the tile for the lifetime of a level.
    pub id: u32,
    /// The symbol that gives the tile its kind.
    pub c: char,
    /// Ticks spent fading; zero while the tile is not fading.
    pub fade_step: u32,
    /// Absolute pixel position of the upper left corner.
    pub position: Vector,
    /// Displacement per tick.
    pub velocity: Vector,
    /// Whether the tile is a platform, which reverses on a collision instead of stopping.
    pub looping: bool,
    /// Whether the tile is carried by a platform.
    pub riding: bool,
    /// Direction of a drag that the player asked for and no tick has resolved yet.
    pub dragging_direction: Option<Direction>,
}

impl PartialEq for Tile {
    /// Two tiles are the same tile when they carry the same identifier.
    fn eq(&self, other: &Self) -> (same: bool) {
        self.id == other.id
    }
}

impl vstd::std_specs::cmp::PartialEqSpecImpl for Tile {
    open spec fn obeys_eq_spec() -> bool {
        true
    }

    open spec fn eq_spec(&self, other: &Self) -> bool {
        self.id == other.id
    }
}

impl Tile {
    /// A tile takes part in the simulation unless it is a blank or a wall.
    pub open spec fn playable(self) -> bool {
        !TileKind::of(self.c).fixed()
    }

    /// The invariant of a tile: it never moves diagonally nor faster than `SPEED`.
    pub open spec fn wf(self) -> bool {
        self.velocity.quantized()
    }

    /// A tile whose motion is driven by the platform it stands on.
    pub open spec fn rider(self) -> bool {
        self.riding && !self.looping
    }

    /// What the tile is doing.
    pub open spec fn state_of(self) -> TileState {
        if self.fade_step > 0 {
            TileState::FadingOut
        } else if self.rider() {
            TileState::Riding
        } else if self.velocity != Vector::zero() {
            TileState::Moving
        } else {
            TileState::Idle
        }
    }

    /// A tile that the player may drag sideways.
    pub open spec fn draggable(self) -> bool {
        self.playable() && !self.looping
    }


    /// Column of the cell the tile belongs to.
    pub open spec fn cell_x(self) -> int {
        self.position.x as int / (TILE_WIDTH as int)
    }

    /// Row of the cell the tile belongs to.
    pub open spec fn cell_y(self) -> int {
        self.position.y as int / (TILE_HEIGHT as int)
    }

    /// Horizontal pixel offset of the tile within its cell.
    pub open spec fn sub_x(self) -> int {
        self.position.x as int % (TILE_WIDTH as int)
    }

    /// Vertical pixel offset of the tile within its cell.
    pub open spec fn sub_y(self) -> int {
        self.position.y as int % (TILE_HEIGHT as int)
    }

    /// A tile is at rest when it sits exactly on a cell, not in transit between two.
    pub open spec fn at_rest(self) -> bool {
        self.sub_x() == 0 && self.sub_y() == 0
    }

    /// Whether the tile can take one step of its velocity without leaving the
    /// range of representable positions.
    pub open spec fn can_advance(self) -> bool {
        &&& i32::MIN <= self.position.x + self.velocity.x <= i32::MAX
        &&& i32::MIN <= self.position.y + self.velocity.y <= i32::MAX
    }

    /// The tile after one change. A change that cannot be carried out (a step
    /// out of the representable range, a velocity that is not quantized) leaves
    /// the tile as it is.
    pub open spec fn after(self, change: TileChange) -> Tile {
        match change {
            TileChange::Move => if self.can_advance() {
                Tile {
                    position: Vector {
                        x: (self.position.x + self.velocity.x) as i32,
                        y: (self.position.y + self.velocity.y) as i32,
                    },
                    ..self
                }
            } else {
                self
            },
            TileChange::Bounce => if self.velocity.x > i32::MIN && self.velocity.y > i32::MIN {
                Tile { velocity: self.velocity.reversed(), ..self }
            } else {
                self
            },
            TileChange::Stop => Tile {
                velocity: Vector::zero(),
                dragging_direction: None,
                ..self
            },
            TileChange::FadeOut => if self.fade_step < u32::MAX {
                Tile { fade_step: (self.fade_step + 1) as u32, ..self }
            } else {
                self
            },
            TileChange::Jump(target) => Tile {
                position: target,
                velocity: Vector::zero(),
                dragging_direction: None,
                ..self
            },
            TileChange::VelocityUpdate(v) => if v.quantized() {
                Tile { velocity: v, ..self }
            } else {
                self
            },
            TileChange::StartRiding(v) => if v.quantized() {
                Tile { riding: true, velocity: v, ..self }
            } else {
                self
            },
            TileChange::Fall => Tile { velocity: Vector::fall(), riding: false, ..self },
            TileChange::RidingFlag(flag) => Tile { riding: flag, ..self },
        }
    }

    /// The tile after a list of changes, applied first to last.
    pub open spec fn after_all(self, changes: Seq<TileChange>) -> Tile
        decreases changes.len(),
    {
        if changes.len() == 0 {
            self
        } else {
            self.after_all(changes.drop_last()).after(changes.last())
        }
    }

    /// A fresh tile of the given kind at the given pixel position: at rest, not
    /// fading, with no pending drag. Platforms start as riding sources.
    pub fn new(id: u32, c: char, x: i32, y: i32) -> (t: Tile)
        ensures
            t == (Tile {
                id,
                c,
                fade_step: 0,
                position: Vector { x, y },
                velocity: Vector::zero(),
                looping: false,
                riding: TileKind::of(c) == TileKind::VerticalPlatform || TileKind::of(c)
                    == TileKind::HorizontalPlatform,
                dragging_direction: None,
            }),
            t.wf(),
    {
        Tile {
            id,
            c,
            fade_step: 0,
            position: Vector { x, y },
            velocity: Vector { x: 0, y: 0 },
            looping: false,
            riding: c == '|' || c == '~',
            dragging_direction: None,
        }
    }

    /// The kind of the tile.
    pub fn kind(&self) -> (kind: TileKind)
        ensures
            kind == TileKind::of(self.c),
    {
        if self.c == '~' {
            TileKind::HorizontalPlatform
        } else if self.c == '|' {
            TileKind::VerticalPlatform
        } else if self.c == ' ' {
            TileKind::Blank
        } else if self.c == '-' {
            TileKind::Wall
        } else {
            TileKind::Piece(self.c)
        }
    }

    /// What the tile is doing.
    pub fn state(&self) -> (state: TileState)
        ensures
            state == self.state_of(),
    {
        if self.fade_step > 0 {
            TileState::FadingOut
        } else if self.riding && !self.looping {
            TileState::Riding
        } else if self.velocity.x != 0 || self.velocity.y != 0 {
            TileState::Moving
        } else {
            TileState::Idle
        }
    }

    /// Whether the tile takes part in the simulation.
    pub fn is_playable(&self) -> (b: bool)
        ensures
            b == self.playable(),
    {
        self.c != ' ' && self.c != '-'
    }

    /// Whether the tile sits exactly on a cell.
    pub fn is_at_rest(&self) -> (b: bool)
        ensures
            b == self.at_rest(),
    {
        self.position.x % TILE_WIDTH == 0 && self.position.y % TILE_HEIGHT == 0
    }

    /// Applies one change to the tile.
    pub fn apply(&mut self, change: TileChange)
        ensures
            *final(self) == old(self).after(change),
    {
        match change {
            TileChange::Move => {
                let x = self.position.x.checked_add(self.velocity.x);
                let y = self.position.y.checked_add(self.velocity.y);
                match (x, y) {
                    (Some(x), Some(y)) => {
                        self.position = Vector { x, y };
                    },
                    _ => {},
                }
            },
            TileChange::Bounce => {
                if self.velocity.x > i32::MIN && self.velocity.y > i32::MIN {
                    self.velocity = Vector { x: -self.velocity.x, y: -self.velocity.y };
                }
            },
            TileChange::Stop => {
                self.velocity = Vector { x: 0, y: 0 };
                self.dragging_direction = None;
            },
            TileChange::FadeOut => {
                if self.fade_step < u32::MAX {
                    self.fade_step = self.fade_step + 1;
                }
            },
            TileChange::Jump(target) => {
                self.position = target;
                self.velocity = Vector { x: 0, y: 0 };
                self.dragging_direction = None;
            },
            TileChange::VelocityUpdate(v) => {
                if v.is_quantized() {
                    self.velocity = v;
                }
            },
            TileChange::StartRiding(v) => {
                if v.is_quantized() {
                    self.riding = true;
                    self.velocity = v;
                }
            },
            TileChange::Fall => {
                self.velocity = Vector { x: 0, y: SPEED };
                self.riding = false;
            },
            TileChange::RidingFlag(flag) => {
                self.riding = flag;
            },
        }
    }
}

/// No change alters the identity or the kind of a tile, every change keeps
/// the velocity among the five quantized values, and the fade counter never
/// goes down.
pub proof fn lemma_change_preserves(t: Tile, change: TileChange)
    ensures
        t.after(change).id == t.id,
        t.after(change).c == t.c,
        t.after(change).looping == t.looping,
        t.after(change).fade_step >= t.fade_step,
        t.wf() ==> t.after(change).wf(),
{
}

} // verus!
