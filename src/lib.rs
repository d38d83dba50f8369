//! The rules engine of a falling-block puzzle game: piece geometry and kicks, the
//! board, the timer queue, the 7-bag randomizer and the event-driven game state
//! machine. Rendering, input capture, audio, settings files, replay files and the
//! placement solver are collaborators outside this crate.

use vstd::prelude::*;

pub mod bag;
pub mod board;
pub mod game;
pub mod keys;
pub mod piece;
pub mod replay;
pub mod sound;
pub mod timer;

pub use board::{Board, Cell};
pub use game::{Game, Lookahead, Mode};

pub use piece::{Piece, PieceLocation, Rotation, Spin};

verus! {

/// Four board cells, as (column, row).
pub type Pos = [(i8, i8); 4];

/// A player input.
#[derive(Copy, Clone, Debug, PartialEq, Eq, Structural)]
pub enum InputEvent {
    PressLeft,
    ReleaseLeft,
    PressRight,
    ReleaseRight,
    PressSoft,
    ReleaseSoft,
    Cw,
    Ccw,
    Flip,
    Hard,
    Hold,
    Restart,
    Quit,
    Undo,
}

impl InputEvent {
    /// The spin that a rotation input asks for; `None` for any other input.
    pub fn spin(&self) -> (r: Option<Spin>)
        ensures
            r == input_spin(*self),
    {
        match self {
            InputEvent::Cw => Some(Spin::Cw),
            InputEvent::Ccw => Some(Spin::Ccw),
            InputEvent::Flip => Some(Spin::Flip),
            _ => None,
        }
    }
}

pub open spec fn input_spin(e: InputEvent) -> Option<Spin> {
    match e {
        InputEvent::Cw => Some(Spin::Cw),
        InputEvent::Ccw => Some(Spin::Ccw),
        InputEvent::Flip => Some(Spin::Flip),
        _ => None,
    }
}

/// The kinds of delayed event that the game arms.
#[derive(Copy, Clone, Debug, PartialEq, Eq, Structural)]
pub enum TimerEvent {
    DasLeft,
    DasRight,
    Arr,
    SoftDrop,
    Gravity,
    Lock,
    Extended,
    Timeout,
    Start,
    Are,
    Lookahead,
}

/// One event handed to the game: a timer that fired or a player input.
#[derive(Copy, Clone, Debug, PartialEq, Eq, Structural)]
pub enum Event {
    Timer(TimerEvent),
    Input(InputEvent),
}

impl From<TimerEvent> for Event {
    fn from(t: TimerEvent) -> (r: Self) {
        Self::Timer(t)
    }
}

impl vstd::std_specs::convert::FromSpecImpl<TimerEvent> for Event {
    open spec fn obeys_from_spec() -> bool {
        true
    }

    open spec fn from_spec(t: TimerEvent) -> Self {
        Event::Timer(t)
    }
}

impl From<InputEvent> for Event {
    fn from(i: InputEvent) -> (r: Self) {
        Self::Input(i)
    }
}

impl vstd::std_specs::convert::FromSpecImpl<InputEvent> for Event {
    open spec fn obeys_from_spec() -> bool {
        true
    }

    open spec fn from_spec(i: InputEvent) -> Self {
        Event::Input(i)
    }
}

/// Length of one frame, in nanoseconds; the durations of `Config` count frames.
pub const FRAME: u64 = 16_666_667;

/// Timing settings, in frames.
#[derive(Copy, Clone, Debug, PartialEq, Eq)]
pub struct Config {
    /// delay before auto-repeat starts
    pub das: u16,
    /// interval between auto-repeat shifts; 0 shifts to the wall at once
    pub arr: u16,
    /// interval between gravity steps; `None` turns gravity off
    pub gravity: Option<u16>,
    /// interval between soft-drop steps; 0 drops to the floor at once
    pub soft_drop: u16,
    /// lock delay, extended lock cap and hard timeout
    pub lock_delay: (u16, u16, u16),
    /// whether the landing position is shown
    pub show_ghost: bool,
}

impl Default for Config {
    fn default() -> (r: Self)
        ensures
            r.das == 10 && r.arr == 2 && r.gravity == Some(60u16) && r.soft_drop == 4,
            r.lock_delay == (30u16, 300u16, 1200u16) && r.show_ghost,
    {
        Self {
            das: 10,
            arr: 2,
            gravity: Some(60),
            soft_drop: 4,
            lock_delay: (30, 300, 1200),
            show_ghost: true,
        }
    }
}

/// The phase of a round.
#[derive(Copy, Clone, Debug, PartialEq, Eq, Structural)]
pub enum GameState {
    Startup,
    Running,
    Done,
}

/// The keys bound to each action.
#[derive(Copy, Clone, Debug, PartialEq, Eq, Structural)]
pub struct Bindings {
    pub left: char,
    pub right: char,
    pub soft: char,
    pub hard: char,
    pub cw: char,
    pub ccw: char,
    pub flip: char,
    pub hold: char,
}

/// Background color of the playfield.
pub const BG_COLOR: (u8, u8, u8) = (20, 20, 20);

/// Color of garbage cells and of a lost board.
pub const LOST_COLOR: (u8, u8, u8) = (106, 106, 106);

impl Piece {
    /// The display color of this kind.
    pub fn color(self) -> (r: (u8, u8, u8))
        ensures
            r == piece_color(self),
    {
        match self {
            Piece::I => (15, 155, 215),
            Piece::J => (33, 65, 198),
            Piece::L => (227, 91, 2),
            Piece::O => (227, 159, 2),
            Piece::S => (89, 177, 1),
            Piece::T => (175, 41, 138),
            Piece::Z => (215, 15, 55),
        }
    }
}

pub open spec fn piece_color(p: Piece) -> (u8, u8, u8) {
    match p {
        Piece::I => (15, 155, 215),
        Piece::J => (33, 65, 198),
        Piece::L => (227, 91, 2),
        Piece::O => (227, 159, 2),
        Piece::S => (89, 177, 1),
        Piece::T => (175, 41, 138),
        Piece::Z => (215, 15, 55),
    }
}

impl Cell {
    /// The display color of this cell: its kind's, grey for garbage, black when empty.
    pub fn color(self) -> (r: (u8, u8, u8))
        ensures
            r == match self {
                Cell::Piece(p) => piece_color(p),
                Cell::Garbage => LOST_COLOR,
                Cell::Empty => (0u8, 0u8, 0u8),
            },
    {
        match self {
            Cell::Piece(piece) => piece.color(),
            Cell::Garbage => LOST_COLOR,
            Cell::Empty => (0, 0, 0),
        }
    }
}

} // verus!
