//! The agent's state snapshot and its pure transition functions.
//!
//! The snapshot is a value type: the engine receives the current snapshot by
//! reference and returns a fresh one.  A position is `(row, col)`: rows
//! grow southward, columns eastward, and both stay inside the
//! `GRID_DIMMENSIONS`-sized square grid — moving into the boundary clamps
//! instead of failing.

use vstd::prelude::*;

verus! {

/// Side length of the square grid the agent moves on.
pub const GRID_DIMMENSIONS: usize = 12;

#[derive(Clone, Copy, Debug, PartialEq, Eq, Structural)]
pub enum TankDirection {
    North,
    West,
    South,
    East,
}

/// Abstract value of a [`TankStatus`].
pub struct TankStatusView {
    pub pos: (usize, usize),
    pub direction: TankDirection,
    pub health: usize,
    pub shot: bool,
    pub got_shot: bool,
    pub ammo_small: usize,
    pub ammo_big: usize,
    pub current_interpreter_line: usize,
}

/// The position lies inside the grid.
pub open spec fn status_wf(v: TankStatusView) -> bool {
    v.pos.0 < GRID_DIMMENSIONS && v.pos.1 < GRID_DIMMENSIONS
}

/// Facing after a left (counter-clockwise) turn.
pub open spec fn turn_left(d: TankDirection) -> TankDirection {
    match d {
        TankDirection::North => TankDirection::West,
        TankDirection::West => TankDirection::South,
        TankDirection::South => TankDirection::East,
        TankDirection::East => TankDirection::North,
    }
}

/// Facing after a right (clockwise) turn.
pub open spec fn turn_right(d: TankDirection) -> TankDirection {
    match d {
        TankDirection::North => TankDirection::East,
        TankDirection::East => TankDirection::South,
        TankDirection::South => TankDirection::West,
        TankDirection::West => TankDirection::North,
    }
}

/// Position after one step forward in direction `d`, clamped at the grid
/// edges.  A position is `(row, col)`: rows grow southward, columns grow
/// eastward.
pub open spec fn move_spec(pos: (usize, usize), d: TankDirection) -> (usize, usize) {
    match d {
        TankDirection::West => (pos.0, if pos.1 == 0 {
            0usize
        } else {
            (pos.1 - 1) as usize
        }),
        TankDirection::North => (
            if pos.0 == 0 {
                0usize
            } else {
                (pos.0 - 1) as usize
            },
            pos.1,
        ),
        TankDirection::East => (pos.0, if pos.1 + 1 == GRID_DIMMENSIONS {
            pos.1
        } else {
            (pos.1 + 1) as usize
        }),
        TankDirection::South => (
            if pos.0 + 1 == GRID_DIMMENSIONS {
                pos.0
            } else {
                (pos.0 + 1) as usize
            },
            pos.1,
        ),
    }
}

/// Number of free cells between the agent and the grid edge it faces:
/// facing West that is the agent's own column index, facing East the
/// columns left of the east edge; North and South use the row index.
pub open spec fn radar_spec(v: TankStatusView) -> isize {
    match v.direction {
        TankDirection::West => v.pos.1 as isize,
        TankDirection::North => v.pos.0 as isize,
        TankDirection::East => (GRID_DIMMENSIONS - v.pos.1 - 1) as isize,
        TankDirection::South => (GRID_DIMMENSIONS - v.pos.0 - 1) as isize,
    }
}

/// Four successive turns in the same sense return the agent to its original
/// facing, whichever facing it started from.
pub proof fn lemma_turn_cycle(d: TankDirection)
    ensures
        turn_right(turn_right(turn_right(turn_right(d)))) == d,
        turn_left(turn_left(turn_left(turn_left(d)))) == d,
        turn_left(turn_right(d)) == d,
        turn_right(turn_left(d)) == d,
{
}

/// Moving into the boundary the agent faces leaves the position unchanged.
pub proof fn lemma_move_edge_clamp(pos: (usize, usize), d: TankDirection)
    ensures
        d == TankDirection::North && pos.0 == 0 ==> move_spec(pos, d) == pos,
        d == TankDirection::West && pos.1 == 0 ==> move_spec(pos, d) == pos,
        d == TankDirection::South && pos.0 == GRID_DIMMENSIONS - 1 ==> move_spec(pos, d) == pos,
        d == TankDirection::East && pos.1 == GRID_DIMMENSIONS - 1 ==> move_spec(pos, d) == pos,
{
}

/// Moving preserves the grid-bounds invariant.
pub proof fn lemma_move_in_bounds(pos: (usize, usize), d: TankDirection)
    requires
        pos.0 < GRID_DIMMENSIONS,
        pos.1 < GRID_DIMMENSIONS,
    ensures
        move_spec(pos, d).0 < GRID_DIMMENSIONS,
        move_spec(pos, d).1 < GRID_DIMMENSIONS,
{
}

/// The agent's snapshot: position, facing, health, ammunition, the
/// just-fired and just-hit flags, and the source line of the most recently
/// completed primitive action.
#[derive(Copy, Clone, Debug)]
pub struct TankStatus {
    pos: (usize, usize),
    direction: TankDirection,
    health: usize,
    shot: bool,
    got_shot: bool,
    ammo_small: usize,
    ammo_big: usize,
    current_interpreter_line: usize,
}

impl View for TankStatus {
    type V = TankStatusView;

    closed spec fn view(&self) -> TankStatusView {
        TankStatusView {
            pos: self.pos,
            direction: self.direction,
            health: self.health,
            shot: self.shot,
            got_shot: self.got_shot,
            ammo_small: self.ammo_small,
            ammo_big: self.ammo_big,
            current_interpreter_line: self.current_interpreter_line,
        }
    }
}

/// The snapshot a fresh agent starts from.
pub open spec fn default_status() -> TankStatusView {
    TankStatusView {
        pos: (0, 0),
        direction: TankDirection::North,
        health: 100,
        shot: false,
        got_shot: false,
        ammo_small: 10000,
        ammo_big: 100,
        current_interpreter_line: 0,
    }
}

impl TankStatus {
    pub fn set_dir(&mut self, dir: TankDirection)
        ensures
            final(self)@ == (TankStatusView { direction: dir, ..old(self)@ }),
    {
        self.direction = dir;
    }

    pub fn get_dir(&self) -> (d: TankDirection)
        ensures
            d == self@.direction,
    {
        self.direction
    }

    pub fn set_pos(&mut self, i: usize, j: usize)
        requires
            i < GRID_DIMMENSIONS,
            j < GRID_DIMMENSIONS,
        ensures
            final(self)@ == (TankStatusView { pos: (i, j), ..old(self)@ }),
    {
        self.pos = (i, j);
    }

    /// Free cells between the agent and the boundary it currently faces.
    pub fn calc_radar(&self) -> (r: isize)
        requires
            status_wf(self@),
        ensures
            r == radar_spec(self@),
    {
        match self.direction {
            TankDirection::West => self.pos.1 as isize,
            TankDirection::North => self.pos.0 as isize,
            TankDirection::East => (GRID_DIMMENSIONS - self.pos.1 - 1) as isize,
            TankDirection::South => (GRID_DIMMENSIONS - self.pos.0 - 1) as isize,
        }
    }

    pub fn set_shot(&mut self, shot: bool)
        ensures
            final(self)@ == (TankStatusView { shot: shot, ..old(self)@ }),
    {
        self.shot = shot;
    }

    pub fn shot(&self) -> (r: bool)
        ensures
            r == self@.shot,
    {
        self.shot
    }

    pub fn got_shot(&self) -> (r: bool)
        ensures
            r == self@.got_shot,
    {
        self.got_shot
    }

    pub fn set_got_shot(&mut self, got_shot: bool)
        ensures
            final(self)@ == (TankStatusView { got_shot: got_shot, ..old(self)@ }),
    {
        self.got_shot = got_shot;
    }

    /// Subtract `damage` from health, saturating at zero; return the new
    /// health.
    pub fn apply_damage(&mut self, damage: usize) -> (h: usize)
        ensures
            final(self)@ == (TankStatusView {
                health: if damage >= old(self)@.health {
                    0usize
                } else {
                    (old(self)@.health - damage) as usize
                },
                ..old(self)@
            }),
            h == final(self)@.health,
    {
        let new_health = if damage >= self.health {
            0
        } else {
            self.health - damage
        };
        self.health = new_health;
        new_health
    }

    pub fn default() -> (s: TankStatus)
        ensures
            s@ == default_status(),
            status_wf(s@),
    {
        TankStatus {
            pos: (0, 0),
            direction: TankDirection::North,
            health: 100,
            shot: false,
            got_shot: false,
            ammo_small: 10000,
            ammo_big: 100,
            current_interpreter_line: 0,
        }
    }

    pub fn new(i: usize, j: usize) -> (s: TankStatus)
        requires
            i < GRID_DIMMENSIONS,
            j < GRID_DIMMENSIONS,
        ensures
            s@ == (TankStatusView { pos: (i, j), ..default_status() }),
            status_wf(s@),
    {
        let mut status = Self::default();
        status.set_pos(i, j);
        status
    }

    pub fn current_interpreter_line(&self) -> (l: usize)
        ensures
            l == self@.current_interpreter_line,
    {
        self.current_interpreter_line
    }

    pub fn set_current_interpreter_line(&mut self, line: usize)
        ensures
            final(self)@ == (TankStatusView { current_interpreter_line: line, ..old(self)@ }),
    {
        self.current_interpreter_line = line;
    }

    pub fn pos_i(&self) -> (i: usize)
        ensures
            i == self@.pos.0,
    {
        self.pos.0
    }

    pub fn pos_j(&self) -> (j: usize)
        ensures
            j == self@.pos.1,
    {
        self.pos.1
    }
}

/// Anything with a grid position.
pub trait Position {
    fn get_pos(&self) -> (p: (usize, usize));
}

impl Position for TankStatus {
    fn get_pos(&self) -> (p: (usize, usize))
        ensures
            p == self@.pos,
    {
        self.pos
    }
}

} // verus!
