use vstd::prelude::*;

use std::collections::VecDeque;

use rand::rngs::StdRng;

use crate::bag::{opening_queue, pop_piece, queue_ok, ring_clone, ring_items, seeded_rng, Ring};
use crate::board::{cell_free, clear_filled_rows, cleared, empty_board, full_row_count, is_region_free, place, Board};
use crate::piece::{
    piece_of_index,
    kick_table, loc_in_range, pair_view, placement_cell, rotated, shape_offset, Piece,
    PieceLocation, Rotation, Spin,
};
use crate::sound::{clear_sound, lock_sound, Action, Meta, Sound};
use crate::timer::{deadline_of, timers_wf, Timers};
use crate::{input_spin, Config, Event, GameState, InputEvent, TimerEvent, FRAME};

verus! {

/// Settings of the lookahead drill: the board is hidden while the player plans
/// several placements ahead.
#[derive(Clone, Debug)]
pub struct Lookahead {
    /// number of placements before the board is shown again
    pub min_placements: usize,
    /// frames without input, once `min_placements` is reached, before the board is shown
    pub timeout: u16,
    pub board_visible: bool,
    pub next_piece_goal: usize,
}

impl Lookahead {
    pub fn new(min_placements: usize, timeout: u16) -> (r: Self)
        ensures
            r.min_placements == min_placements,
            r.timeout == timeout,
            r.board_visible,
            r.next_piece_goal == min_placements,
    {
        Self { min_placements, timeout, board_visible: true, next_piece_goal: min_placements }
    }

    pub fn board_visible(&self) -> (r: bool)
        ensures
            r == self.board_visible,
    {
        self.board_visible
    }
}

/// The kind of round.
#[derive(Debug, Clone)]
pub enum Mode {
    /// clear `target_lines` lines as fast as possible
    Sprint { target_lines: u16 },
    /// free practice, with undo, an optional lookahead drill and a display-only mode
    TrainingLab { lookahead: Option<Lookahead>, search: bool, mino_mode: bool },
}

impl Mode {
    /// A sprint is complete once its target is reached; practice never completes.
    pub fn is_complete(&self, lines: u16) -> (r: bool)
        ensures
            r == match self {
                Mode::Sprint { target_lines } => lines >= *target_lines,
                _ => false,
            },
    {
        match self {
            Mode::Sprint { target_lines } => lines >= *target_lines,
            _ => false,
        }
    }

    pub fn allows_undo(&self) -> (r: bool)
        ensures
            r == (self is TrainingLab),
    {
        match self {
            Mode::Sprint { .. } => false,
            Mode::TrainingLab { .. } => true,
        }
    }

    pub fn search_enabled(&self) -> (r: bool)
        ensures
            r == match self {
                Mode::Sprint { .. } => false,
                Mode::TrainingLab { search, .. } => *search,
            },
    {
        match self {
            Mode::Sprint { .. } => false,
            Mode::TrainingLab { search, .. } => *search,
        }
    }

    /// The lookahead timeout, in frames.
    pub fn lookahead_timeout(&self) -> (r: u16)
        requires
            mode_lookahead(*self) is Some,
        ensures
            r == mode_lookahead(*self)->0.timeout,
    {
        match self {
            Mode::TrainingLab { lookahead: Some(lookahead), .. } => lookahead.timeout,
            _ => 0,
        }
    }

    /// Resets the lookahead drill for a new round.
    pub fn start(&mut self)
        ensures
            match (*old(self), *final(self)) {
                (Mode::TrainingLab { lookahead: Some(a), search: s1, mino_mode: m1 },
                Mode::TrainingLab { lookahead: Some(b), search: s2, mino_mode: m2 }) => {
                    &&& s1 == s2 && m1 == m2
                    &&& b.min_placements == a.min_placements && b.timeout == a.timeout
                    &&& b.board_visible && b.next_piece_goal == a.min_placements
                },
                (Mode::TrainingLab { lookahead: Some(_), .. }, _) => false,
                _ => *final(self) == *old(self),
            },
    {
        if let Mode::TrainingLab { lookahead: Some(lookahead), .. } = self {
            lookahead.board_visible = true;
            lookahead.next_piece_goal = lookahead.min_placements;
        }
    }
}

pub open spec fn mode_lookahead(m: Mode) -> Option<Lookahead> {
    match m {
        Mode::TrainingLab { lookahead, .. } => lookahead,
        _ => None,
    }
}

/// A snapshot kept for undo.
pub struct Moment {
    pub board: Board,
    pub current: PieceLocation,
    pub hold: Option<Piece>,
    pub upcomming: Ring,
    pub pieces_placed: usize,
}

/// Snapshots older than this many are dropped.
pub const HISTORY_CAP: usize = 200;

/// The game: board, pieces, timers and the rules that move them.
pub struct Game {
    pub board: Board,
    pub upcomming: Ring,
    pub current: PieceLocation,
    pub hold: Option<Piece>,
    pub lines: u16,
    pub pieces: usize,
    pub mode: Mode,
    pub config: Config,
    pub timers: Timers,
    /// time of the event being handled, in nanoseconds
    pub time: u64,
    pub started_right: Option<u64>,
    pub started_left: Option<u64>,
    pub start_time: Option<u64>,
    pub end_time: Option<u64>,
    pub soft_dropping: bool,
    pub can_hold: bool,
    pub spin: bool,
    pub state: GameState,
    pub rng: StdRng,
    pub history: VecDeque<Moment>,
}

/// All four cells of a placement lie on the board and are empty.
pub open spec fn fits(b: Board, loc: PieceLocation) -> bool {
    forall|i: int| 0 <= i < 4 ==> cell_free(b, #[trigger] placement_cell(loc, i))
}

/// A placement moved by (dx, dy).
pub open spec fn shifted(loc: PieceLocation, dx: int, dy: int) -> PieceLocation {
    PieceLocation { pos: ((loc.pos.0 + dx) as i8, (loc.pos.1 + dy) as i8), ..loc }
}

/// The piece rests on the floor or on a cell.
pub open spec fn grounded(b: Board, loc: PieceLocation) -> bool {
    !fits(b, shifted(loc, 0, -1))
}

/// `frames` frames after `time`, saturating at the largest time.
pub open spec fn deadline_after(time: u64, frames: u16) -> u64 {
    if time + FRAME * frames > u64::MAX {
        u64::MAX
    } else {
        (time + FRAME * frames) as u64
    }
}

/// The number of frames for which a timer of kind `t` is armed; `None` when that
/// kind is not armed under these settings.
pub open spec fn timer_frames(c: Config, m: Mode, t: TimerEvent) -> Option<u16> {
    match t {
        TimerEvent::DasLeft | TimerEvent::DasRight => Some(c.das),
        TimerEvent::Arr => Some(c.arr),
        TimerEvent::SoftDrop => Some(c.soft_drop),
        TimerEvent::Gravity => c.gravity,
        TimerEvent::Lock => Some(c.lock_delay.0),
        TimerEvent::Extended => Some(c.lock_delay.1),
        TimerEvent::Timeout => if c.gravity is None { None } else { Some(c.lock_delay.2) },
        TimerEvent::Start => Some(60),
        TimerEvent::Are => None,
        TimerEvent::Lookahead => match mode_lookahead(m) {
            Some(l) => Some(l.timeout),
            None => None,
        },
    }
}

pub open spec fn moment_wf(m: Moment) -> bool {
    queue_ok(ring_items(m.upcomming)) && loc_in_range(m.current) && crate::board::no_full_rows(m.board)
}

/// After a successful shift or rotation, the lock timers follow the new support:
/// a grounded piece re-arms the lock delay and keeps a pending extended cap (arming
/// one only if none is pending); a piece in the air has neither.
pub open spec fn lock_timers_follow(
    before: Seq<(u64, TimerEvent)>,
    after: Seq<(u64, TimerEvent)>,
    grounded: bool,
    time: u64,
    c: Config,
) -> bool {
    &&& grounded ==> deadline_of(after, TimerEvent::Lock) == Some(deadline_after(time, c.lock_delay.0))
    &&& grounded ==> deadline_of(after, TimerEvent::Extended) == if deadline_of(before, TimerEvent::Extended) is Some {
        deadline_of(before, TimerEvent::Extended)
    } else {
        Some(deadline_after(time, c.lock_delay.1))
    }
    &&& !grounded ==> deadline_of(after, TimerEvent::Lock) is None
    &&& !grounded ==> deadline_of(after, TimerEvent::Extended) is None
    &&& forall|k: TimerEvent| k != TimerEvent::Lock && k != TimerEvent::Extended ==> deadline_of(after, k) == deadline_of(before, k)
}

impl Game {
    /// The invariant of the game: timers well formed, a well-formed queue while a
    /// round is on, anchors in range, snapshots well formed; while running, the
    /// current piece lies on free cells.
    pub open spec fn wf(&self) -> bool {
        &&& self.inv()
        &&& self.state == GameState::Running ==> fits(self.board, self.current)
    }

    /// The invariant without the requirement that the current piece fits.
    pub open spec fn inv(&self) -> bool {
        &&& timers_wf(self.timers@)
        &&& self.state != GameState::Done ==> queue_ok(ring_items(self.upcomming))
        &&& loc_in_range(self.current)
        &&& crate::board::no_full_rows(self.board)
        &&& self.history@.len() <= HISTORY_CAP
        &&& forall|i: int| 0 <= i < self.history@.len() ==> moment_wf(#[trigger] self.history@[i])
    }

}

/// An anchor that fits the board lies within a few cells of it.
pub proof fn lemma_fits_bounds(b: Board, loc: PieceLocation)
    requires
        fits(b, loc),
    ensures
        -2 <= loc.pos.0 <= 11,
        -2 <= loc.pos.1 <= 41,
        loc_in_range(loc),
{
    assert(cell_free(b, placement_cell(loc, 0)));
    let o = shape_offset(loc.piece, loc.rot, 0);
    assert(-2 <= o.0 <= 2 && -2 <= o.1 <= 2);
}


/// The first kick candidate, from index `i` on, that leaves the turned piece on free cells.
pub open spec fn first_kick(b: Board, loc: PieceLocation, s: Spin, i: nat) -> Option<nat>
    decreases 6 - i,
{
    if i >= 6 {
        None
    } else if fits(b, kicked(loc, s, i as int)) {
        Some(i)
    } else {
        first_kick(b, loc, s, i + 1)
    }
}

/// The placement turned by `s` and moved by kick candidate `i`.
pub open spec fn kicked(loc: PieceLocation, s: Spin, i: int) -> PieceLocation {
    let k = kick_table(loc.piece, loc.rot, s)[i];
    PieceLocation {
        piece: loc.piece,
        pos: ((loc.pos.0 + k.0) as i8, (loc.pos.1 + k.1) as i8),
        rot: rotated(loc.rot, s),
    }
}

/// The placement that turning `loc` by `s` yields on board `b`: the first kick
/// candidate that fits, in table order; `None` when none does.
pub open spec fn rotate_result(b: Board, loc: PieceLocation, s: Spin) -> Option<PieceLocation> {
    match first_kick(b, loc, s, 0) {
        Some(i) => Some(kicked(loc, s, i as int)),
        None => None,
    }
}

/// The placement that moving `loc` by (dx, dy) yields on board `b`, if it fits.
pub open spec fn shift_result(b: Board, loc: PieceLocation, dx: int, dy: int) -> Option<PieceLocation> {
    if fits(b, shifted(loc, dx, dy)) {
        Some(shifted(loc, dx, dy))
    } else {
        None
    }
}

impl Game {
    /// A game with the given settings, waiting for `start`.
    pub fn new(config: Config) -> (g: Self)
        ensures
            g.wf(),
            g.config == config,
            g.state == GameState::Done,
            g.timers@.len() == 0,
            g.lines == 0 && g.pieces == 0 && g.hold is None && g.can_hold,
            g.mode == (Mode::Sprint { target_lines: 40 }),
            g.current == (PieceLocation { piece: Piece::I, pos: (3, 21), rot: Rotation::North }),
            forall|y: int, x: int| 0 <= y < 40 && 0 <= x < 10 ==> #[trigger] g.board@[y]@[x] == crate::Cell::Empty,
    {
        let upcomming = crate::bag::empty_ring();
        Self {
            config,
            rng: seeded_rng(0),
            board: empty_board(),
            upcomming,
            current: PieceLocation::new(Piece::I, (3, 21), Rotation::North),
            hold: None,
            lines: 0,
            pieces: 0,
            mode: Mode::Sprint { target_lines: 40 },
            timers: VecDeque::new(),
            started_right: None,
            started_left: None,
            time: 0,
            start_time: None,
            end_time: None,
            soft_dropping: false,
            can_hold: true,
            spin: false,
            state: GameState::Done,
            history: VecDeque::new(),
        }
    }

    /// Arms timer `t` for its configured number of frames after the current time,
    /// replacing a pending one of that kind; a kind without a duration under these
    /// settings is left as it is.
    pub fn set_timer(&mut self, t: TimerEvent)
        requires
            old(self).inv(),
        ensures
            final(self).inv(),
            old(self).wf() ==> final(self).wf(),
            *final(self) == (Game { timers: final(self).timers, ..*old(self) }),
            match timer_frames(old(self).config, old(self).mode, t) {
                Some(f) => {
                    &&& deadline_of(final(self).timers@, t) == Some(deadline_after(old(self).time, f))
                    &&& final(self).timers@.contains((deadline_after(old(self).time, f), t))
                    &&& final(self).timers@.len() <= old(self).timers@.len() + 1
                    &&& final(self).timers@.filter(crate::timer::other_kinds(t)) == old(self).timers@.filter(crate::timer::other_kinds(t))
                    &&& forall|k: TimerEvent| k != t ==> deadline_of(final(self).timers@, k) == deadline_of(old(self).timers@, k)
                },
                None => final(self).timers@ == old(self).timers@,
            },
    {
        let c = self.config;
        let frames: u16 = match t {
            TimerEvent::DasLeft | TimerEvent::DasRight => c.das,
            TimerEvent::Arr => c.arr,
            TimerEvent::SoftDrop => c.soft_drop,
            TimerEvent::Gravity => match c.gravity {
                Some(g) => g,
                None => return,
            },
            TimerEvent::Lock => c.lock_delay.0,
            TimerEvent::Extended => c.lock_delay.1,
            TimerEvent::Timeout => {
                if c.gravity.is_none() {
                    return;
                }
                c.lock_delay.2
            },
            TimerEvent::Start => 60,
            TimerEvent::Are => return,
            TimerEvent::Lookahead => match &self.mode {
                Mode::TrainingLab { lookahead: Some(lookahead), .. } => lookahead.timeout,
                _ => return,
            },
        };
        let deadline = self.time.saturating_add(FRAME * frames as u64);
        crate::timer::set_timer(&mut self.timers, t, deadline);
    }

    /// Cancels the pending timer of kind `t`, if any.
    pub fn clear_timer(&mut self, t: TimerEvent)
        requires
            old(self).inv(),
        ensures
            final(self).inv(),
            old(self).wf() ==> final(self).wf(),
            *final(self) == (Game { timers: final(self).timers, ..*old(self) }),
            deadline_of(final(self).timers@, t) is None,
            final(self).timers@ == old(self).timers@.filter(crate::timer::other_kinds(t)),
            forall|k: TimerEvent| k != t ==> deadline_of(final(self).timers@, k) == deadline_of(old(self).timers@, k),
    {
        crate::timer::clear_timer(&mut self.timers, t);
    }

    /// True iff all four cells lie on the board and are empty.
    pub fn check_valid(&self, pos: [(i8, i8); 4]) -> (r: bool)
        ensures
            r == forall|i: int| 0 <= i < 4 ==> cell_free(self.board, pair_view(#[trigger] pos@[i])),
    {
        is_region_free(&self.board, pos)
    }

    /// Whether `loc` fits the board.
    fn fits_at(&self, loc: PieceLocation) -> (r: bool)
        requires
            loc_in_range(loc),
        ensures
            r == fits(self.board, loc),
    {
        let cells = loc.blocks();
        let r = self.check_valid(cells);
        proof {
            let b = self.board;
            if r {
                assert forall|i: int| 0 <= i < 4 implies cell_free(b, #[trigger] placement_cell(loc, i)) by {
                    assert(cell_free(b, pair_view(cells@[i])));
                }
            } else {
                let i = choose|i: int| 0 <= i < 4 && !cell_free(b, pair_view(#[trigger] cells@[i]));
                assert(!cell_free(b, placement_cell(loc, i)));
            }
        }
        r
    }

    /// The current piece moved by `d`, if that placement fits.
    pub fn attempt_shift(&self, d: (i8, i8)) -> (r: Option<PieceLocation>)
        requires
            self.wf(),
            -1 <= d.0 <= 1 && -1 <= d.1 <= 1,
        ensures
            r == shift_result(self.board, self.current, d.0 as int, d.1 as int),
    {
        let mut next = self.current;
        next.pos.0 = next.pos.0 + d.0;
        next.pos.1 = next.pos.1 + d.1;
        assert(next == shifted(self.current, d.0 as int, d.1 as int));
        if loc_ok(next) && self.fits_at(next) {
            Some(next)
        } else {
            proof {
                if fits(self.board, next) {
                    lemma_fits_bounds(self.board, next);
                }
            }
            None
        }
    }

    /// Whether the current piece can move down one row.
    pub fn can_drop(&self) -> (r: bool)
        requires
            self.wf(),
        ensures
            r == !grounded(self.board, self.current),
    {
        self.attempt_shift((0, -1)).is_some()
    }

    /// Re-arms the lock timers after the piece moved: see `lock_timers_follow`.
    fn update_lock_timers(&mut self)
        requires
            old(self).wf(),
        ensures
            final(self).wf(),
            *final(self) == (Game { timers: final(self).timers, ..*old(self) }),
            lock_timers_follow(old(self).timers@, final(self).timers@, grounded(old(self).board, old(self).current), old(self).time, old(self).config),
    {
        if self.can_drop() {
            self.clear_timer(TimerEvent::Lock);
            self.clear_timer(TimerEvent::Extended);
        } else {
            self.set_timer(TimerEvent::Lock);
            if !self.has_timer(TimerEvent::Extended) {
                self.set_timer(TimerEvent::Extended);
            }
        }
    }

    /// On a grounded piece, arms the lock delay and the extended cap where they are
    /// not already pending; a piece in the air leaves the timers as they are.
    fn settle_lock_timers(&mut self)
        requires
            old(self).wf(),
        ensures
            final(self).wf(),
            *final(self) == (Game { timers: final(self).timers, ..*old(self) }),
            !grounded(old(self).board, old(self).current) ==> final(self).timers@ == old(self).timers@,
            grounded(old(self).board, old(self).current) ==> deadline_of(final(self).timers@, TimerEvent::Lock) == if deadline_of(
                old(self).timers@,
                TimerEvent::Lock,
            ) is Some {
                deadline_of(old(self).timers@, TimerEvent::Lock)
            } else {
                Some(deadline_after(old(self).time, old(self).config.lock_delay.0))
            },
            grounded(old(self).board, old(self).current) ==> deadline_of(final(self).timers@, TimerEvent::Extended) == if deadline_of(
                old(self).timers@,
                TimerEvent::Extended,
            ) is Some {
                deadline_of(old(self).timers@, TimerEvent::Extended)
            } else {
                Some(deadline_after(old(self).time, old(self).config.lock_delay.1))
            },
            forall|k: TimerEvent| k != TimerEvent::Lock && k != TimerEvent::Extended ==> deadline_of(final(self).timers@, k)
                == deadline_of(old(self).timers@, k),
    {
        if !self.can_drop() {
            if !self.has_timer(TimerEvent::Lock) {
                self.set_timer(TimerEvent::Lock);
            }
            if !self.has_timer(TimerEvent::Extended) {
                self.set_timer(TimerEvent::Extended);
            }
        }
    }

    /// Takes the earliest pending timer off the queue if its deadline lies before
    /// `now`, and returns its kind; `None` when no timer is due.
    pub fn pop_due_timer(&mut self, now: u64) -> (r: Option<TimerEvent>)
        requires
            old(self).wf(),
        ensures
            final(self).wf(),
            *final(self) == (Game { timers: final(self).timers, ..*old(self) }),
            r matches Some(k) ==> old(self).timers@.len() > 0 && old(self).timers@[0].0 < now && old(self).timers@[0].1 == k
                && final(self).timers@ == old(self).timers@.drop_first(),
            r is None ==> final(self).timers@ == old(self).timers@ && (old(self).timers@.len() == 0 || old(self).timers@[0].0 >= now),
    {
        if self.timers.len() == 0 || self.timers[0].0 >= now {
            return None;
        }
        let ghost s = self.timers@;
        let e = self.timers.pop_front();
        match e {
            Some((_, kind)) => {
                assert(self.timers@ =~= s.drop_first());
                assert forall|i: int, j: int| 0 <= i < j < self.timers@.len() implies #[trigger] self.timers@[i].0 <= #[trigger] self.timers@[j].0
                    && self.timers@[i].1 != self.timers@[j].1 by {
                    assert(s[i + 1].0 <= s[j + 1].0);
                    assert(s[i + 1].1 != s[j + 1].1);
                }
                Some(kind)
            },
            None => None,
        }
    }

    /// Whether a timer of kind `t` is pending.
    pub fn has_timer(&self, t: TimerEvent) -> (r: bool)
        requires
            timers_wf(self.timers@),
        ensures
            r == (deadline_of(self.timers@, t) is Some),
    {
        let mut i: usize = 0;
        while i < self.timers.len()
            invariant
                0 <= i <= self.timers@.len(),
                forall|j: int| 0 <= j < i ==> (#[trigger] self.timers@[j]).1 != t,
            decreases self.timers@.len() - i,
        {
            if self.timers[i].1 == t {
                assert(self.timers@[i as int].1 == t);
                return true;
            }
            i = i + 1;
        }
        false
    }

    /// Moves the current piece by `d` if the new placement fits; the lock timers then
    /// follow the new support (see `lock_timers_follow`).
    pub fn try_move(&mut self, d: (i8, i8)) -> (r: bool)
        requires
            old(self).wf(),
            -1 <= d.0 <= 1 && -1 <= d.1 <= 1,
        ensures
            final(self).wf(),
            r == (shift_result(old(self).board, old(self).current, d.0 as int, d.1 as int) is Some),
            r ==> final(self).current == shifted(old(self).current, d.0 as int, d.1 as int),
            r ==> fits(final(self).board, final(self).current),
            r ==> *final(self) == (Game { timers: final(self).timers, current: final(self).current, ..*old(self) }),
            r ==> lock_timers_follow(old(self).timers@, final(self).timers@, grounded(final(self).board, final(self).current), old(self).time, old(self).config),
            !r ==> *final(self) == *old(self),
    {
        match self.attempt_shift(d) {
            Some(next) => {
                proof { lemma_fits_bounds(self.board, next); }
                self.current = next;
                self.update_lock_timers();
                true
            },
            None => false,
        }
    }
}

/// `k` columns in direction `d` (-1 or 1).
pub open spec fn step(d: int, k: int) -> int {
    if d < 0 { -k } else { k }
}

/// How many columns `to` lies from `from` in direction `d`.
pub open spec fn charge_dist(from: PieceLocation, to: PieceLocation, d: int) -> int {
    if d < 0 { from.pos.0 - to.pos.0 } else { to.pos.0 - from.pos.0 }
}

/// `to` is `from` moved some columns in direction `d`, through placements that all fit.
pub open spec fn charge_prefix(b: Board, from: PieceLocation, to: PieceLocation, d: int) -> bool {
    let n = charge_dist(from, to, d);
    &&& n >= 0
    &&& to == shifted(from, step(d, n), 0)
    &&& forall|j: int| 0 < j <= n ==> fits(b, #[trigger] shifted(from, step(d, j), 0))
}

/// `to` is where `from` ends when shifted column by column in direction `d` until the
/// next shift no longer fits.
pub open spec fn charged(b: Board, from: PieceLocation, to: PieceLocation, d: int) -> bool {
    charge_prefix(b, from, to, d) && !fits(b, shifted(to, d, 0))
}

/// The auto-repeat timer is armed from `time`; every other kind is as it was.
pub open spec fn arr_armed(before: Seq<(u64, TimerEvent)>, after: Seq<(u64, TimerEvent)>, time: u64, c: Config) -> bool {
    &&& deadline_of(after, TimerEvent::Arr) == Some(deadline_after(time, c.arr))
    &&& forall|k: TimerEvent| k != TimerEvent::Arr ==> deadline_of(after, k) == deadline_of(before, k)
}

/// Time from `start` to `now`, 0 when `now` is earlier.
pub open spec fn held_for(now: u64, start: u64) -> int {
    if now >= start { now - start } else { 0 }
}

/// The direction in which auto-shift acts at time `t`: the more recently pressed of
/// the held directions, once it has been held longer than the shift delay; 0 when
/// none qualifies or the round is not running.
pub open spec fn das_dir(g: Game, t: u64) -> int {
    let thr = FRAME * g.config.das;
    if g.state != GameState::Running {
        0
    } else {
        match (g.started_left, g.started_right) {
            (Some(l), Some(r)) => if r < l && held_for(t, l) > thr {
                -1
            } else if l < r && held_for(t, r) > thr {
                1
            } else {
                0
            },
            (None, Some(r)) => if held_for(t, r) > thr { 1 } else { 0 },
            (Some(l), None) => if held_for(t, l) > thr { -1 } else { 0 },
            (None, None) => 0,
        }
    }
}

/// Auto-shift at time `t` moves the piece: it charges to the wall.
pub open spec fn charging(g: Game, t: u64) -> bool {
    g.config.arr == 0 && das_dir(g, t) != 0
}

/// One re-evaluation of auto-shift from `old` to `new` (see `das_dir`): nothing when
/// no direction qualifies; otherwise a charge to the wall when the auto-repeat
/// interval is 0, or the auto-repeat timer armed.
pub open spec fn das_step(old: Game, new: Game) -> bool {
    let d = das_dir(old, old.time);
    &&& new == (Game { timers: new.timers, current: new.current, ..old })
    &&& d == 0 ==> new == old
    &&& d != 0 && old.config.arr == 0 ==> charged(old.board, old.current, new.current, d)
    &&& d != 0 && old.config.arr == 0 ==> forall|k: TimerEvent| k != TimerEvent::Lock && k != TimerEvent::Extended
        ==> deadline_of(new.timers@, k) == deadline_of(old.timers@, k)
    &&& d != 0 && old.config.arr != 0 ==> new.current == old.current
    &&& d != 0 && old.config.arr != 0 ==> arr_armed(old.timers@, new.timers@, old.time, old.config)
}

/// `to` is `from` fallen straight down, through rows where it fits all the way.
pub open spec fn straight_fall(b: Board, from: PieceLocation, to: PieceLocation) -> bool {
    &&& to.pos.1 <= from.pos.1
    &&& to == shifted(from, 0, to.pos.1 - from.pos.1)
    &&& forall|k: int| to.pos.1 <= k < from.pos.1 ==> fits(b, #[trigger] shifted(from, 0, k - from.pos.1))
}

/// Anchor coordinates within `loc_in_range`.
fn loc_ok(loc: PieceLocation) -> (r: bool)
    ensures
        r == loc_in_range(loc),
{
    -120 <= loc.pos.0 && loc.pos.0 <= 120 && -120 <= loc.pos.1 && loc.pos.1 <= 120
}


/// The spawn placement of kind `p`.
pub open spec fn spawn_loc(p: Piece) -> PieceLocation {
    PieceLocation { piece: p, pos: (4, 21), rot: Rotation::North }
}

/// The queue `after` is `before` without its first piece, with a new bag appended
/// when fewer than seven remained.
pub open spec fn popped(before: Seq<u8>, after: Seq<u8>) -> bool {
    &&& before.len() > 7 ==> after == before.drop_first()
    &&& before.len() == 7 ==> after.take(6) == before.drop_first() && crate::bag::is_bag(after.skip(6))
    &&& after.len() >= 7
}

/// Where a spawned piece of kind `p` rests: one row below its spawn placement if
/// that fits, else at the spawn placement.
pub open spec fn spawn_rest(b: Board, p: Piece) -> PieceLocation {
    if fits(b, shifted(spawn_loc(p), 0, -1)) {
        shifted(spawn_loc(p), 0, -1)
    } else {
        spawn_loc(p)
    }
}

/// How many of the four cells of `loc` lie below row `r`.
pub open spec fn cells_below(loc: PieceLocation, r: int) -> int {
    (if placement_cell(loc, 0).1 < r { 1int } else { 0int }) + (if placement_cell(loc, 1).1 < r { 1int } else { 0int })
        + (if placement_cell(loc, 2).1 < r { 1int } else { 0int }) + (if placement_cell(loc, 3).1 < r { 1int } else { 0int })
}

/// Placing a piece on a board without full rows fills at most one row per cell of
/// the piece: among the rows below `r`, no more than `cells_below(loc, r)`.
proof fn lemma_full_rows_bounded(before: Board, mid: Board, loc: PieceLocation, r: int)
    requires
        crate::board::no_full_rows(before),
        placed(before, mid, loc),
        0 <= r <= 40,
    ensures
        full_row_count(mid@.take(r)) <= cells_below(loc, r),
    decreases r,
{
    if r > 0 {
        lemma_full_rows_bounded(before, mid, loc, r - 1);
        let s = mid@.take(r - 1);
        let row = mid@[r - 1];
        assert(mid@.take(r) =~= s.push(row));
        s.lemma_filter_push(row, |w: [crate::Cell; 10]| crate::board::row_not_full(w));
        s.lemma_filter_len(|w: [crate::Cell; 10]| crate::board::row_not_full(w));
        if crate::board::row_full(row) {
            assert(!crate::board::row_full(before@[r - 1]));
            let x = choose|x: int| 0 <= x < 10 && #[trigger] before@[r - 1]@[x] == crate::Cell::Empty;
            assert(mid@[r - 1]@[x] != crate::Cell::Empty);
            let i = choose|i: int| 0 <= i < 4 && placement_cell(loc, i) == (x, r - 1);
            assert(placement_cell(loc, i).1 == r - 1);
        }
    }
}

/// `after` is `before` with the cells of `loc` taken by its kind.
pub open spec fn placed(before: Board, after: Board, loc: PieceLocation) -> bool {
    forall|y: int, x: int| 0 <= y < 40 && 0 <= x < 10 ==> #[trigger] after@[y]@[x] == if (exists|i: int|
        0 <= i < 4 && placement_cell(loc, i) == (x, y)) {
        crate::Cell::Piece(loc.piece)
    } else {
        before@[y]@[x]
    }
}

proof fn lemma_first_kick_found(b: Board, loc: PieceLocation, s: Spin, k: nat, i: nat)
    requires
        k <= i < 6,
        fits(b, kicked(loc, s, i as int)),
        forall|j: int| k <= j < i ==> !fits(b, #[trigger] kicked(loc, s, j)),
    ensures
        first_kick(b, loc, s, k) == Some(i),
    decreases i - k,
{
    if k < i {
        assert(!fits(b, kicked(loc, s, k as int)));
        lemma_first_kick_found(b, loc, s, k + 1, i);
    }
}

proof fn lemma_first_kick_none(b: Board, loc: PieceLocation, s: Spin, k: nat)
    requires
        k <= 6,
        forall|j: int| k <= j < 6 ==> !fits(b, #[trigger] kicked(loc, s, j)),
    ensures
        first_kick(b, loc, s, k) is None,
    decreases 6 - k,
{
    if k < 6 {
        assert(!fits(b, kicked(loc, s, k as int)));
        lemma_first_kick_none(b, loc, s, k + 1);
    }
}

/// Turning a piece that fits and whose turn needed no kick beyond the first
/// candidate, then turning it back, restores the very same placement.
pub proof fn lemma_rotation_reversible(b: Board, loc: PieceLocation, s: Spin)
    requires
        loc_in_range(loc),
        fits(b, loc),
        first_kick(b, loc, s, 0) == Some(0nat),
    ensures
        rotate_result(b, loc, s) == Some(kicked(loc, s, 0)),
        rotate_result(b, kicked(loc, s, 0), crate::piece::inverse_spin(s)) == Some(loc),
{
    let l2 = kicked(loc, s, 0);
    let back = kicked(l2, crate::piece::inverse_spin(s), 0);
    assert(back == loc);
    lemma_first_kick_found(b, l2, crate::piece::inverse_spin(s), 0, 0);
}

impl Game {
    /// The current piece turned by `spin`, moved by the first kick candidate that
    /// fits; `None` when none does.
    pub fn attempt_rotate(&self, spin: Spin) -> (r: Option<PieceLocation>)
        requires
            self.wf(),
        ensures
            r == rotate_result(self.board, self.current, spin),
            r matches Some(l) ==> loc_in_range(l) && fits(self.board, l),
    {
        let piece = self.current.piece;
        let pos = self.current.pos;
        let rot = self.current.rot;
        let new_rot = rot.rotate(spin);
        let kicks = piece.get_your_kicks(rot, spin);
        let mut i: usize = 0;
        while i < 6
            invariant
                0 <= i <= 6,
                loc_in_range(self.current),
                piece == self.current.piece && pos == self.current.pos && rot == self.current.rot,
                new_rot == rotated(rot, spin),
                forall|j: int| 0 <= j < 6 ==> pair_view(#[trigger] kicks@[j]) == kick_table(piece, rot, spin)[j],
                forall|j: int| 0 <= j < 6 ==> -2 <= #[trigger] kicks@[j].0 <= 2 && -2 <= kicks@[j].1 <= 2,
                forall|j: int| 0 <= j < i ==> !fits(self.board, #[trigger] kicked(self.current, spin, j)),
            decreases 6 - i,
        {
            let (dx, dy) = kicks[i];
            let cand = PieceLocation::new(piece, (pos.0 + dx, pos.1 + dy), new_rot);
            assert(cand == kicked(self.current, spin, i as int));
            if loc_ok(cand) && self.fits_at(cand) {
                proof {
                    lemma_first_kick_found(self.board, self.current, spin, 0, i as nat);
                }
                return Some(cand);
            }
            proof {
                if fits(self.board, cand) {
                    lemma_fits_bounds(self.board, cand);
                }
            }
            i = i + 1;
        }
        proof {
            lemma_first_kick_none(self.board, self.current, spin, 0);
        }
        None
    }

    /// Turns the current piece by `dir` with the first kick candidate that fits; the
    /// lock timers then follow the new support (see `lock_timers_follow`).
    pub fn try_rotate(&mut self, dir: Spin) -> (r: bool)
        requires
            old(self).wf(),
        ensures
            final(self).wf(),
            r == (rotate_result(old(self).board, old(self).current, dir) is Some),
            r ==> Some(final(self).current) == rotate_result(old(self).board, old(self).current, dir),
            r ==> *final(self) == (Game { timers: final(self).timers, current: final(self).current, ..*old(self) }),
            r ==> lock_timers_follow(old(self).timers@, final(self).timers@, grounded(final(self).board, final(self).current), old(self).time, old(self).config),
            !r ==> *final(self) == *old(self),
    {
        match self.attempt_rotate(dir) {
            Some(next) => {
                self.current = next;
                self.update_lock_timers();
                true
            },
            None => false,
        }
    }

    /// Shifts to the wall in `dir` when the auto-repeat interval is 0; otherwise
    /// arms the auto-repeat timer.
    fn das_helper(&mut self, dir: i8)
        requires
            old(self).wf(),
            dir == -1 || dir == 1,
        ensures
            final(self).wf(),
            *final(self) == (Game { timers: final(self).timers, current: final(self).current, ..*old(self) }),
            old(self).config.arr == 0 ==> charged(old(self).board, old(self).current, final(self).current, dir as int),
            old(self).config.arr == 0 ==> forall|k: TimerEvent| k != TimerEvent::Lock && k != TimerEvent::Extended
                ==> deadline_of(final(self).timers@, k) == deadline_of(old(self).timers@, k),
            old(self).config.arr != 0 ==> final(self).current == old(self).current,
            old(self).config.arr != 0 ==> arr_armed(old(self).timers@, final(self).timers@, old(self).time, old(self).config),
    {
        if self.config.arr == 0 {
            let ghost start = self.current;
            assert(self.current == shifted(start, 0, 0));
            loop
                invariant
                    self.wf(),
                    loc_in_range(start),
                    *self == (Game { timers: self.timers, current: self.current, ..*old(self) }),
                    start == old(self).current,
                    dir == -1 || dir == 1,
                    charge_prefix(self.board, start, self.current, dir as int),
                    forall|k: TimerEvent| k != TimerEvent::Lock && k != TimerEvent::Extended
                        ==> deadline_of(self.timers@, k) == deadline_of(old(self).timers@, k),
                ensures
                    charged(old(self).board, old(self).current, self.current, dir as int),
                    forall|k: TimerEvent| k != TimerEvent::Lock && k != TimerEvent::Extended
                        ==> deadline_of(self.timers@, k) == deadline_of(old(self).timers@, k),
                decreases (if dir < 0 { self.current.pos.0 + 128 } else { 128 - self.current.pos.0 }),
            {
                let ghost before = self.current;
                if !self.try_move((dir, 0)) {
                    break;
                }
                proof {
                    lemma_fits_bounds(self.board, self.current);
                    let n = charge_dist(start, before, dir as int);
                    assert(self.current == shifted(start, step(dir as int, n + 1), 0));
                    assert forall|j: int| 0 < j <= n + 1 implies fits(self.board, #[trigger] shifted(start, step(dir as int, j), 0)) by {
                        if j <= n {
                            assert(fits(self.board, shifted(start, step(dir as int, j), 0)));
                        }
                    }
                }
            }
        } else {
            self.set_timer(TimerEvent::Arr);
        }
    }

    /// Re-evaluates auto-shift: once the more recently pressed held direction has
    /// been held longer than the shift delay, shifts that way (see `das_helper`).
    pub fn handle_das(&mut self)
        requires
            old(self).wf(),
        ensures
            final(self).wf(),
            das_step(*old(self), *final(self)),
    {
        if self.state != GameState::Running {
            return;
        }
        let t = self.time;
        let threshold = FRAME * self.config.das as u64;
        match (self.started_left, self.started_right) {
            (Some(l), Some(r)) => {
                if r < l && t.saturating_sub(l) > threshold {
                    self.das_helper(-1)
                } else if l < r && t.saturating_sub(r) > threshold {
                    self.das_helper(1)
                }
            },
            (None, Some(r)) => {
                if t.saturating_sub(r) > threshold {
                    self.das_helper(1)
                }
            },
            (Some(l), None) => {
                if t.saturating_sub(l) > threshold {
                    self.das_helper(-1)
                }
            },
            _ => {},
        }
    }

    /// Moves the current piece down one row if it fits there, then re-evaluates
    /// auto-shift.
    pub fn try_drop(&mut self) -> (r: bool)
        requires
            old(self).wf(),
        ensures
            final(self).wf(),
            r == !grounded(old(self).board, old(self).current),
            r ==> final(self).current.pos.1 == old(self).current.pos.1 - 1,
            r && !charging(*old(self), old(self).time) ==> final(self).current == shifted(old(self).current, 0, -1),
            r && charging(*old(self), old(self).time) ==> charged(old(self).board, shifted(old(self).current, 0, -1), final(self).current, das_dir(*old(self), old(self).time)),
            forall|k: TimerEvent| k != TimerEvent::Lock && k != TimerEvent::Extended && k != TimerEvent::Arr
                ==> deadline_of(final(self).timers@, k) == deadline_of(old(self).timers@, k),
            *final(self) == (Game { timers: final(self).timers, current: final(self).current, ..*old(self) }),
            final(self).current.piece == old(self).current.piece,
            final(self).current.rot == old(self).current.rot,
            !r ==> *final(self) == *old(self),
            fits(old(self).board, old(self).current) ==> fits(final(self).board, final(self).current),
    {
        if self.try_move((0, -1)) {
            self.handle_das();
            true
        } else {
            false
        }
    }

    /// Drops the current piece until it rests on the floor or on a cell.
    fn drop_to_floor(&mut self)
        requires
            old(self).wf(),
            old(self).state == GameState::Running,
        ensures
            final(self).wf(),
            *final(self) == (Game { timers: final(self).timers, current: final(self).current, ..*old(self) }),
            final(self).current.piece == old(self).current.piece,
            final(self).current.rot == old(self).current.rot,
            grounded(final(self).board, final(self).current),
            final(self).current.pos.1 <= old(self).current.pos.1,
            !charging(*old(self), old(self).time) ==> straight_fall(old(self).board, old(self).current, final(self).current),
    {
        loop
            invariant
                self.wf(),
                self.state == GameState::Running,
                *self == (Game { timers: self.timers, current: self.current, ..*old(self) }),
                self.current.piece == old(self).current.piece,
                self.current.rot == old(self).current.rot,
                self.current.pos.1 <= old(self).current.pos.1,
                !charging(*old(self), old(self).time) ==> straight_fall(old(self).board, old(self).current, self.current),
            ensures
                grounded(self.board, self.current),
                self.current.pos.1 <= old(self).current.pos.1,
                !charging(*old(self), old(self).time) ==> straight_fall(old(self).board, old(self).current, self.current),
            decreases self.current.pos.1 + 128,
        {
            let ghost before = self.current;
            if !self.try_drop() {
                break;
            }
            proof {
                lemma_fits_bounds(self.board, self.current);
                if !charging(*old(self), old(self).time) {
                    let o = old(self).current;
                    assert(self.current == shifted(o, 0, self.current.pos.1 - o.pos.1));
                    assert forall|k: int| self.current.pos.1 <= k < o.pos.1 implies fits(self.board, #[trigger] shifted(o, 0, k - o.pos.1)) by {
                        if k == self.current.pos.1 {
                        } else {
                            assert(before.pos.1 <= k);
                        }
                    }
                }
            }
        }
    }

    /// Makes `next` the current piece at its spawn placement, if that fits: it then
    /// drops one row if it can, the gravity (or soft-drop) and timeout timers are
    /// armed, and holding is allowed again.
    fn spawn(&mut self, next: Piece) -> (r: bool)
        requires
            old(self).inv(),
        ensures
            final(self).inv(),
            r == fits(old(self).board, spawn_loc(next)),
            r ==> fits(final(self).board, final(self).current),
            r ==> final(self).current.piece == next && final(self).current.rot == Rotation::North,
            !r ==> final(self).current == old(self).current,
            r && !charging(*old(self), old(self).time) ==> final(self).current == spawn_rest(old(self).board, next),
            r && old(self).soft_dropping ==> deadline_of(final(self).timers@, TimerEvent::SoftDrop) == Some(
                deadline_after(old(self).time, old(self).config.soft_drop),
            ) && deadline_of(final(self).timers@, TimerEvent::Gravity) is None,
            r && !old(self).soft_dropping ==> deadline_of(final(self).timers@, TimerEvent::SoftDrop) is None
                && deadline_of(final(self).timers@, TimerEvent::Gravity) == match old(self).config.gravity {
                Some(f) => Some(deadline_after(old(self).time, f)),
                None => None,
            },
            r ==> deadline_of(final(self).timers@, TimerEvent::Timeout) == match old(self).config.gravity {
                Some(_) => Some(deadline_after(old(self).time, old(self).config.lock_delay.2)),
                None => None,
            },
            final(self).can_hold,
            *final(self) == (Game { timers: final(self).timers, current: final(self).current, can_hold: final(self).can_hold, ..*old(self) }),
    {
        self.clear_timer(TimerEvent::SoftDrop);
        self.clear_timer(TimerEvent::Gravity);
        self.clear_timer(TimerEvent::Lock);
        self.clear_timer(TimerEvent::Extended);
        self.clear_timer(TimerEvent::Timeout);
        self.can_hold = true;
        let loc = PieceLocation::new(next, (4, 21), Rotation::North);
        if !self.fits_at(loc) {
            return false;
        }
        self.current = loc;
        self.try_drop();
        if self.soft_dropping {
            self.set_timer(TimerEvent::SoftDrop);
        } else {
            self.set_timer(TimerEvent::Gravity);
        }
        self.set_timer(TimerEvent::Timeout);
        true
    }
}


pub open spec fn sat_add_u16(a: u16, n: nat) -> u16 {
    if a + n > u16::MAX {
        u16::MAX
    } else {
        (a + n) as u16
    }
}

pub open spec fn sat_inc(a: usize) -> usize {
    if a == usize::MAX {
        a
    } else {
        (a + 1) as usize
    }
}

/// The piece that the queue hands out next.
pub open spec fn next_piece(g: Game) -> Piece {
    piece_of_index(ring_items(g.upcomming)[0] as nat)
}

/// `new` follows from `old` by committing the current piece at `landed` to the
/// board, clearing the full rows (taken from board `mid`), counting them and the
/// piece, and trying to spawn the next piece from the queue.
pub open spec fn commit_step(old: Game, new: Game, landed: PieceLocation, mid: Board) -> bool {
    &&& fits(old.board, landed)
    &&& placed(old.board, mid, landed)
    &&& cleared(mid@, new.board@)
    &&& full_row_count(mid@) <= 4
    &&& new.lines == sat_add_u16(old.lines, full_row_count(mid@))
    &&& new.pieces == sat_inc(old.pieces)
    &&& new.hold == old.hold
    &&& fits(new.board, spawn_loc(next_piece(old))) ==> new.current.piece == next_piece(old)
}

/// A hard drop from `old`: the current piece falls until it rests on something
/// (keeping its kind and orientation), is committed (see `commit_step`), and the
/// round ends on a top-out (the next piece does not fit its spawn cells) or once
/// the mode is complete; otherwise it goes on.
pub open spec fn hard_drop_step(old: Game, new: Game, t: u64) -> bool {
    exists|landed: PieceLocation, mid: Board| #[trigger] hard_drop_via(old, new, t, landed, mid)
}

/// The hard drop of `hard_drop_step`, with the piece landing at `landed` and the board
/// `mid` before the full rows are cleared. Unless auto-shift is charging at time `t`,
/// the piece falls straight down.
pub open spec fn hard_drop_via(old: Game, new: Game, t: u64, landed: PieceLocation, mid: Board) -> bool {
    &&& landed.piece == old.current.piece
    &&& landed.rot == old.current.rot
    &&& landed.pos.1 <= old.current.pos.1
    &&& grounded(old.board, landed)
    &&& !charging(old, t) ==> straight_fall(old.board, old.current, landed)
    &&& commit_step(old, new, landed, mid)
    &&& new.state == if !fits(new.board, spawn_loc(next_piece(old))) || is_complete_spec(old.mode, new.lines) {
        GameState::Done
    } else {
        GameState::Running
    }
    &&& new.state == GameState::Done ==> new.end_time == Some(t) && new.timers@.len() == 0
}

pub open spec fn is_complete_spec(m: Mode, lines: u16) -> bool {
    match m {
        Mode::Sprint { target_lines } => lines >= target_lines,
        _ => false,
    }
}

/// Relies on `web_time::SystemTime::now`: milliseconds since the Unix epoch, 0 for a
/// clock set before it.
#[verifier::external_body]
fn clock_seed() -> u64 {
    web_time::SystemTime::now()
        .duration_since(web_time::SystemTime::UNIX_EPOCH)
        .map(|d| d.as_millis() as u64)
        .unwrap_or(0)
}

impl Game {
    /// Ends the round: state `Done`, the end time recorded, every timer cancelled.
    fn finish(&mut self)
        requires
            old(self).inv(),
        ensures
            final(self).wf(),
            *final(self) == (Game { state: GameState::Done, end_time: Some(old(self).time), timers: final(self).timers, ..*old(self) }),
            final(self).timers@.len() == 0,
    {
        self.state = GameState::Done;
        self.end_time = Some(self.time);
        self.timers.clear();
    }

    /// Records a snapshot for undo, dropping the oldest beyond the cap.
    fn push_moment(&mut self)
        requires
            old(self).inv(),
            old(self).state != GameState::Done,
        ensures
            final(self).inv(),
            old(self).wf() ==> final(self).wf(),
            *final(self) == (Game { history: final(self).history, ..*old(self) }),
            final(self).history@.len() > 0,
            final(self).history@.last().board == old(self).board,
            final(self).history@.last().current == old(self).current,
            final(self).history@.last().hold == old(self).hold,
            ring_items(final(self).history@.last().upcomming) == ring_items(old(self).upcomming),
            final(self).history@.last().pieces_placed == old(self).pieces,
    {
        let moment = Moment {
            board: self.board,
            current: self.current,
            hold: self.hold,
            upcomming: ring_clone(&self.upcomming),
            pieces_placed: self.pieces,
        };
        let ghost h0 = self.history@;
        self.history.push_back(moment);
        if self.history.len() > HISTORY_CAP {
            self.history.pop_front();
        }
        assert forall|i: int| 0 <= i < self.history@.len() implies moment_wf(#[trigger] self.history@[i]) by {
            if i < self.history@.len() - 1 {
                if h0.len() + 1 > HISTORY_CAP {
                    assert(self.history@[i] == h0[i + 1]);
                } else {
                    assert(self.history@[i] == h0[i]);
                }
            }
        }
    }

    /// Takes the next piece from the queue, refilling it with a new bag when it runs low.
    fn pop_piece(&mut self) -> (p: Piece)
        requires
            old(self).inv(),
            old(self).state != GameState::Done,
        ensures
            final(self).inv(),
            p == next_piece(*old(self)),
            popped(ring_items(old(self).upcomming), ring_items(final(self).upcomming)),
            *final(self) == (Game { upcomming: final(self).upcomming, rng: final(self).rng, ..*old(self) }),
    {
        let i = pop_piece(&mut self.upcomming, &mut self.rng);
        Piece::from_index(i)
    }

    /// Commits the current piece where it is, clears full rows, counts them and the
    /// piece, and spawns the next piece; false when that does not fit (a top-out).
    pub fn lock(&mut self) -> (r: bool)
        requires
            old(self).wf(),
            old(self).state == GameState::Running,
        ensures
            final(self).inv(),
            r ==> final(self).wf(),
            r == fits(final(self).board, spawn_loc(next_piece(*old(self)))),
            exists|mid: Board| #[trigger] commit_step(*old(self), *final(self), old(self).current, mid),
            r ==> final(self).can_hold,
            popped(ring_items(old(self).upcomming), ring_items(final(self).upcomming)),
            final(self).state == old(self).state,
            final(self).mode == old(self).mode,
            final(self).spin == old(self).spin,
            final(self).time == old(self).time,
            final(self).history == old(self).history,
            final(self).lines >= old(self).lines,
            final(self).lines - old(self).lines <= 4,
    {
        let ghost g0 = *self;
        let cells = self.current.blocks();
        proof {
            assert forall|i: int| 0 <= i < 4 implies 0 <= (#[trigger] cells@[i]).0 < 10 && 0 <= cells@[i].1 < 40 by {
                assert(cell_free(g0.board, placement_cell(g0.current, i)));
            }
        }
        place(&mut self.board, cells, self.current.piece);
        let ghost mid = self.board;
        proof {
            assert forall|y: int, x: int| 0 <= y < 40 && 0 <= x < 10 implies #[trigger] mid@[y]@[x] == if (exists|i: int|
                0 <= i < 4 && placement_cell(g0.current, i) == (x, y)) {
                crate::Cell::Piece(g0.current.piece)
            } else {
                g0.board@[y]@[x]
            } by {
                if exists|i: int| 0 <= i < 4 && pair_view(cells@[i]) == (x, y) {
                    let i = choose|i: int| 0 <= i < 4 && pair_view(cells@[i]) == (x, y);
                    assert(placement_cell(g0.current, i) == (x, y));
                }
                if exists|i: int| 0 <= i < 4 && placement_cell(g0.current, i) == (x, y) {
                    let i = choose|i: int| 0 <= i < 4 && placement_cell(g0.current, i) == (x, y);
                    assert(pair_view(cells@[i]) == (x, y));
                }
            }
        }
        let n = clear_filled_rows(&mut self.board);
        proof {
            crate::board::lemma_cleared_no_full(mid@, self.board);
            lemma_full_rows_bounded(g0.board, mid, g0.current, 40);
            assert(mid@.take(40) =~= mid@);
        }
        self.lines = self.lines.saturating_add(n as u16);
        let next = self.pop_piece();
        self.pieces = self.pieces.saturating_add(1);
        let r = self.spawn(next);
        assert(commit_step(g0, *self, g0.current, mid));
        r
    }

    /// Drops the current piece to rest, records a snapshot, commits it, and reports
    /// the lock, the clear, a win or a loss.
    fn hard_drop(&mut self, sounds: &mut Vec<Sound>)
        requires
            old(self).wf(),
            old(self).state == GameState::Running,
        ensures
            final(self).wf(),
            hard_drop_step(*old(self), *final(self), old(self).time),
            old(self).lines <= final(self).lines <= old(self).lines + 4,
            final(self).mode == old(self).mode,
            final(self).time == old(self).time,
            final(self).history@.len() > 0,
            final(self).history@.last().board == old(self).board,
            final(sounds)@.len() > old(sounds)@.len(),
            final(sounds)@.take(old(sounds)@.len() as int) == old(sounds)@,
            final(self).state == GameState::Running ==> final(sounds)@ == old(sounds)@.push(
                lock_sound((final(self).lines - old(self).lines) as nat, old(self).spin),
            ),
            !fits(final(self).board, spawn_loc(next_piece(*old(self)))) ==> final(sounds)@ == old(sounds)@.push(
                Sound::Meta(Meta::Lose),
            ),
            fits(final(self).board, spawn_loc(next_piece(*old(self)))) && final(self).state == GameState::Done
                ==> final(sounds)@ == old(sounds)@.push(
                lock_sound((final(self).lines - old(self).lines) as nat, old(self).spin),
            ).push(Sound::Meta(Meta::Win)),
    {
        let ghost g0 = *self;
        let ghost s0 = sounds@;
        self.drop_to_floor();
        let ghost landed = self.current;
        let old_lines = self.lines;
        self.push_moment();
        let ghost g1 = *self;
        assert(next_piece(g1) == next_piece(g0));
        let locked = self.lock();
        let ghost g2 = *self;
        if locked {
            let n = self.lines - old_lines;
            sounds.push(clear_sound(n as usize, self.spin));
            if self.mode.is_complete(self.lines) {
                sounds.push(Sound::Meta(Meta::Win));
                self.finish();
            }
        } else {
            sounds.push(Sound::Meta(Meta::Lose));
            self.finish();
        }
        proof {
            assert(sounds@.take(s0.len() as int) =~= s0);
            let mid = choose|mid: Board| #[trigger] commit_step(g1, g2, landed, mid);
            assert(commit_step(g0, *self, landed, mid));
            assert(landed.piece == g0.current.piece && landed.rot == g0.current.rot);
            assert(landed.pos.1 <= g0.current.pos.1);
            assert(grounded(g0.board, landed));
            assert(self.state == if !fits(self.board, spawn_loc(next_piece(g0))) || is_complete_spec(g0.mode, self.lines) {
                GameState::Done
            } else {
                GameState::Running
            });
            assert(hard_drop_via(g0, *self, g0.time, landed, mid));
        }
    }
}

/// The kind that a hold brings in: the held one, or the next from the queue when
/// nothing is held.
pub open spec fn hold_incoming(g: Game) -> Piece {
    match g.hold {
        Some(p) => p,
        None => next_piece(g),
    }
}

/// The event commits the current piece: a hard drop, or one of the three lock timers.
pub open spec fn is_commit_event(e: Event) -> bool {
    e == Event::Input(InputEvent::Hard) || e == Event::Timer(TimerEvent::Lock) || e == Event::Timer(
        TimerEvent::Extended,
    ) || e == Event::Timer(TimerEvent::Timeout)
}

impl Game {
    /// Swaps the current piece into the hold slot and spawns the one held before, or
    /// the next from the queue when nothing was held. False when that piece does not
    /// fit its spawn cells.
    pub fn hold(&mut self) -> (r: bool)
        requires
            old(self).wf(),
            old(self).state == GameState::Running,
        ensures
            final(self).inv(),
            r ==> final(self).wf(),
            final(self).hold == Some(old(self).current.piece),
            r == fits(old(self).board, spawn_loc(hold_incoming(*old(self)))),
            old(self).hold is Some ==> ring_items(final(self).upcomming) == ring_items(old(self).upcomming),
            old(self).hold is None ==> popped(ring_items(old(self).upcomming), ring_items(final(self).upcomming)),
            final(self).lines == old(self).lines && final(self).pieces == old(self).pieces,
            r ==> final(self).current.piece == hold_incoming(*old(self)),
            !r ==> final(self).current == old(self).current,
            final(self).board == old(self).board,
            final(self).state == old(self).state,
            final(self).lines == old(self).lines,
            final(self).mode == old(self).mode,
            final(self).time == old(self).time,
            final(self).can_hold,
    {
        self.push_moment();
        let piece = match self.hold {
            Some(p) => {
                self.hold = Some(self.current.piece);
                p
            },
            None => {
                self.hold = Some(self.current.piece);
                self.pop_piece()
            },
        };
        self.spawn(piece)
    }

    /// Starts a round: empty board, nothing held, no lines, a fresh queue from the
    /// random generator seeded with `seed` (or with the clock when `None`), and the
    /// start timer armed from `time`. A sprint never opens with S or Z.
    pub fn start(&mut self, seed: Option<u64>, time: u64, sounds: &mut Vec<Sound>)
        requires
            old(self).inv(),
        ensures
            final(self).wf(),
            final(self).state == GameState::Startup,
            forall|y: int, x: int| 0 <= y < 40 && 0 <= x < 10 ==> #[trigger] final(self).board@[y]@[x] == crate::Cell::Empty,
            final(self).hold is None,
            final(self).lines == 0 && final(self).pieces == 0,
            final(self).time == time,
            final(self).start_time is None,
            ring_items(final(self).upcomming).len() == 7,
            old(self).mode is Sprint ==> ring_items(final(self).upcomming)[0] != 4 && ring_items(final(self).upcomming)[0] != 6,
            final(self).timers@ == seq![(deadline_after(time, 60), TimerEvent::Start)],
            final(sounds)@ == old(sounds)@.push(Sound::Meta(Meta::Go)),
            final(self).config == old(self).config,
    {
        self.state = GameState::Startup;
        self.board = empty_board();
        self.hold = None;
        self.lines = 0;
        self.pieces = 0;
        let s = match seed {
            Some(s) => s,
            None => clock_seed(),
        };
        self.rng = seeded_rng(s);
        let sprint = match self.mode {
            Mode::Sprint { .. } => true,
            _ => false,
        };
        self.upcomming = opening_queue(&mut self.rng, sprint);
        self.time = time;
        self.start_time = None;
        self.mode.start();
        sounds.push(Sound::Meta(Meta::Go));
        self.timers.clear();
        self.set_timer(TimerEvent::Start);
        proof {
            let t = self.timers@;
            assert(t.len() == 1) by {
                assert(t.contains((deadline_after(time, 60), TimerEvent::Start)));
            }
            assert(t[0] == (deadline_after(time, 60), TimerEvent::Start)) by {
                assert(t.contains((deadline_after(time, 60), TimerEvent::Start)));
            }
            assert(t =~= seq![(deadline_after(time, 60), TimerEvent::Start)]);
        }
    }
}

impl Game {
    /// Shows the board again in the lookahead drill and sets the next goal.
    fn reveal_lookahead(&mut self)
        requires
            old(self).wf(),
        ensures
            final(self).wf(),
            *final(self) == (Game { mode: final(self).mode, ..*old(self) }),
            old(self).mode is Sprint ==> final(self).mode == old(self).mode,
    {
        let pieces = self.pieces;
        if let Mode::TrainingLab { lookahead: Some(lookahead), .. } = &mut self.mode {
            lookahead.board_visible = true;
            lookahead.next_piece_goal = pieces.saturating_add(lookahead.min_placements);
        }
    }

    /// Restores the last snapshot, where the mode allows undo; false when it does not
    /// or there is none.
    fn undo(&mut self, sounds: &mut Vec<Sound>) -> (r: bool)
        requires
            old(self).wf(),
            old(self).state == GameState::Running,
        ensures
            final(self).wf(),
            final(self).time == old(self).time,
            final(self).state != GameState::Startup,
            !r ==> *final(self) == *old(self) && final(sounds)@ == old(sounds)@,
            r == (old(self).mode is TrainingLab && old(self).history@.len() > 0),
            r ==> final(self).board == old(self).history@.last().board,
            r ==> final(self).hold == old(self).history@.last().hold,
            r ==> final(self).pieces == old(self).history@.last().pieces_placed,
    {
        if !self.mode.allows_undo() || self.history.len() == 0 {
            return false;
        }
        let prev = match self.history.pop_back() {
            Some(prev) => prev,
            None => return false,
        };
        self.board = prev.board;
        if !self.spawn(prev.current.piece) {
            sounds.push(Sound::Meta(Meta::Lose));
            self.finish();
        }
        self.hold = prev.hold;
        self.upcomming = prev.upcomming;
        self.pieces = prev.pieces_placed;
        self.reveal_lookahead();
        true
    }

    /// The direction of the auto-repeat: the more recently pressed of the held
    /// directions, 0 when none is held.
    fn repeat_dir(&self) -> (d: i8)
        ensures
            d == -1 || d == 0 || d == 1,
            d as int == repeat_dir_of(*self),
    {
        match (self.started_left, self.started_right) {
            (Some(l), Some(r)) => if l > r { -1 } else { 1 },
            (Some(_), None) => -1,
            (None, Some(_)) => 1,
            (None, None) => 0,
        }
    }

    /// Handles one event at `time` (nanoseconds), appending the feedback effects to
    /// `sounds`. Returns true when the event committed the current piece.
    #[verifier::rlimit(100)]
    #[verifier::spinoff_prover]
    pub fn _handle(&mut self, event: Event, time: u64, sounds: &mut Vec<Sound>) -> (r: bool)
        requires
            old(self).wf(),
        ensures
            final(self).wf(),
            final(self).time == time,
            event_effect(*old(self), *final(self), event, time, old(sounds)@, final(sounds)@),
            r == (old(self).state == GameState::Running && is_commit_event(event)),
            r ==> hard_drop_step(*old(self), *final(self), time),
            old(self).state == GameState::Done ==> {
                &&& final(self).state == GameState::Done
                &&& final(self).board == old(self).board
                &&& final(self).current == old(self).current
                &&& final(self).hold == old(self).hold
            },
            old(self).state == GameState::Startup && event != Event::Timer(TimerEvent::Start) ==> {
                &&& final(self).state == GameState::Startup
                &&& final(self).board == old(self).board
                &&& final(self).current == old(self).current
                &&& final(self).hold == old(self).hold
            },
            old(self).state == GameState::Startup && event == Event::Timer(TimerEvent::Start) ==> {
                &&& final(self).start_time == Some(time)
                &&& final(self).state == if fits(old(self).board, spawn_loc(next_piece(*old(self)))) {
                    GameState::Running
                } else {
                    GameState::Done
                }
                &&& final(self).state == GameState::Running ==> final(self).current.piece == next_piece(*old(self))
            },
            old(self).state == GameState::Running && event == Event::Input(InputEvent::Hold) && !old(self).can_hold ==> {
                &&& *final(self) == (Game { time, ..*old(self) })
                &&& final(sounds)@ == old(sounds)@.push(Sound::Action(Action::NoHold))
            },
            old(self).state == GameState::Running && event == Event::Input(InputEvent::Hold) && old(self).can_hold ==> {
                &&& final(self).hold == Some(old(self).current.piece)
                &&& final(self).board == old(self).board
                &&& final(self).state == if fits(old(self).board, spawn_loc(hold_incoming(*old(self)))) {
                    GameState::Running
                } else {
                    GameState::Done
                }
                &&& final(self).state == GameState::Running ==> {
                    &&& final(self).current.piece == hold_incoming(*old(self))
                    &&& !final(self).can_hold
                }
            },
            old(self).state == GameState::Running && input_spin_of(event) is Some ==> {
                &&& final(self).board == old(self).board
                &&& final(self).state == GameState::Running
                &&& match rotate_result(old(self).board, old(self).current, input_spin_of(event)->0) {
                    Some(l) => {
                        &&& final(self).current.piece == l.piece
                        &&& final(self).current.rot == l.rot
                        &&& final(self).current.pos.1 == l.pos.1
                    },
                    None => final(self).current == old(self).current,
                }
            },
            old(self).state == GameState::Running && event == Event::Input(InputEvent::PressLeft) ==> {
                &&& final(self).board == old(self).board
                &&& final(self).state == GameState::Running
                &&& final(self).started_left == Some(time)
                &&& final(self).current == match shift_result(old(self).board, old(self).current, -1, 0) {
                    Some(l) => l,
                    None => old(self).current,
                }
                &&& deadline_of(final(self).timers@, TimerEvent::DasLeft) == Some(deadline_after(time, old(self).config.das))
                &&& deadline_of(final(self).timers@, TimerEvent::DasRight) is None
                &&& deadline_of(final(self).timers@, TimerEvent::Arr) is None
            },
            old(self).state == GameState::Running && event == Event::Input(InputEvent::PressRight) ==> {
                &&& final(self).board == old(self).board
                &&& final(self).state == GameState::Running
                &&& final(self).started_right == Some(time)
                &&& final(self).current == match shift_result(old(self).board, old(self).current, 1, 0) {
                    Some(l) => l,
                    None => old(self).current,
                }
                &&& deadline_of(final(self).timers@, TimerEvent::DasRight) == Some(deadline_after(time, old(self).config.das))
                &&& deadline_of(final(self).timers@, TimerEvent::DasLeft) is None
                &&& deadline_of(final(self).timers@, TimerEvent::Arr) is None
            },
            old(self).state == GameState::Running && event == Event::Timer(TimerEvent::Gravity) ==> {
                &&& final(self).board == old(self).board
                &&& final(self).state == GameState::Running
                &&& final(self).current.piece == old(self).current.piece
                &&& final(self).current.rot == old(self).current.rot
                &&& grounded(old(self).board, old(self).current) ==> final(self).current == old(self).current
                &&& !grounded(old(self).board, old(self).current) ==> final(self).current.pos.1 == old(self).current.pos.1 - 1
                &&& old(self).config.gravity matches Some(f) ==> deadline_of(final(self).timers@, TimerEvent::Gravity) == Some(deadline_after(time, f))
            },
            event is Input && event != Event::Input(InputEvent::Undo) ==> final(self).mode == old(self).mode,
            old(self).state == GameState::Running && event == Event::Input(InputEvent::Undo) ==> {
                if old(self).mode is TrainingLab && old(self).history@.len() > 0 {
                    &&& final(self).board == old(self).history@.last().board
                    &&& final(self).hold == old(self).history@.last().hold
                    &&& final(self).pieces == old(self).history@.last().pieces_placed
                } else {
                    &&& final(self).board == old(self).board
                    &&& final(self).current == old(self).current
                    &&& final(self).state == GameState::Running
                }
            },
            old(self).state == GameState::Running && event == Event::Input(InputEvent::PressSoft) ==> {
                &&& final(self).soft_dropping
                &&& deadline_of(final(self).timers@, TimerEvent::Gravity) is None
                &&& deadline_of(final(self).timers@, TimerEvent::SoftDrop) == Some(deadline_after(time, old(self).config.soft_drop))
            },
    {
        self.time = time;
        match event {
            Event::Input(InputEvent::PressLeft) => {
                if self.state == GameState::Running && self.try_move((-1, 0)) {
                    sounds.push(Sound::Action(Action::Move));
                }
                self.started_left = Some(time);
                self.clear_timer(TimerEvent::DasRight);
                self.clear_timer(TimerEvent::Arr);
                self.set_timer(TimerEvent::DasLeft);
            },
            Event::Input(InputEvent::PressRight) => {
                if self.state == GameState::Running && self.try_move((1, 0)) {
                    sounds.push(Sound::Action(Action::Move));
                }
                self.started_right = Some(time);
                self.clear_timer(TimerEvent::DasLeft);
                self.clear_timer(TimerEvent::Arr);
                self.set_timer(TimerEvent::DasRight);
            },
            Event::Input(InputEvent::ReleaseLeft) => {
                self.clear_timer(TimerEvent::DasLeft);
                let leading = match (self.started_left, self.started_right) {
                    (None, _) => false,
                    (Some(_), None) => true,
                    (Some(l), Some(r)) => l > r,
                };
                if leading {
                    self.clear_timer(TimerEvent::Arr);
                }
                self.started_left = None;
                self.handle_das();
            },
            Event::Input(InputEvent::ReleaseRight) => {
                self.clear_timer(TimerEvent::DasRight);
                let leading = match (self.started_left, self.started_right) {
                    (_, None) => false,
                    (None, Some(_)) => true,
                    (Some(l), Some(r)) => l < r,
                };
                if leading {
                    self.clear_timer(TimerEvent::Arr);
                }
                self.started_right = None;
                self.handle_das();
            },
            Event::Input(InputEvent::Hold) => {
                if self.state == GameState::Running {
                    if self.can_hold {
                        if !self.hold() {
                            sounds.push(Sound::Meta(Meta::Lose));
                            self.finish();
                        } else {
                            sounds.push(Sound::Action(Action::Hold));
                            self.can_hold = false;
                        }
                    } else {
                        sounds.push(Sound::Action(Action::NoHold));
                    }
                }
            },
            Event::Input(InputEvent::Undo) => {
                if self.state == GameState::Running {
                    self.undo(sounds);
                }
            },
            Event::Input(InputEvent::Hard) | Event::Timer(TimerEvent::Lock) | Event::Timer(
                TimerEvent::Extended,
            ) | Event::Timer(TimerEvent::Timeout) => {
                if self.state == GameState::Running {
                    let ghost g0 = *self;
                    self.hard_drop(sounds);
                    proof {
                        let (landed, mid) = choose|landed: PieceLocation, mid: Board| #[trigger] hard_drop_via(g0, *self, time, landed, mid);
                        assert(hard_drop_via(*old(self), *self, time, landed, mid));
                        assert(commit_step(*old(self), *self, landed, mid));
                    }
                    return true;
                }
            },
            Event::Timer(TimerEvent::SoftDrop) | Event::Timer(TimerEvent::Gravity) => {
                let t = match event {
                    Event::Timer(t) => t,
                    _ => TimerEvent::Gravity,
                };
                if self.state == GameState::Running {
                    if self.config.soft_drop == 0 && t == TimerEvent::SoftDrop {
                        self.drop_to_floor();
                    } else {
                        self.try_drop();
                    }
                    self.settle_lock_timers();
                }
                if self.state != GameState::Done {
                    self.set_timer(t);
                }
            },
            Event::Timer(TimerEvent::Start) => {
                if self.state == GameState::Startup {
                    let next = self.pop_piece();
                    self.start_time = Some(time);
                    let loc = PieceLocation::new(next, (4, 21), Rotation::North);
                    if self.fits_at(loc) {
                        self.current = loc;
                        self.state = GameState::Running;
                        self.spawn(next);
                        sounds.push(Sound::Meta(Meta::Go));
                    } else {
                        sounds.push(Sound::Meta(Meta::Lose));
                        self.finish();
                    }
                }
            },
            Event::Input(InputEvent::Cw) | Event::Input(InputEvent::Ccw) | Event::Input(InputEvent::Flip) => {
                if self.state == GameState::Running {
                    let spin = match event {
                        Event::Input(InputEvent::Ccw) => Spin::Ccw,
                        Event::Input(InputEvent::Flip) => Spin::Flip,
                        _ => Spin::Cw,
                    };
                    if self.try_rotate(spin) {
                        sounds.push(Sound::Action(Action::Rotate));
                        self.handle_das();
                    }
                }
            },
            Event::Input(InputEvent::PressSoft) => {
                self.soft_dropping = true;
                self.clear_timer(TimerEvent::Gravity);
                if self.state != GameState::Done {
                    self.set_timer(TimerEvent::SoftDrop);
                }
            },
            Event::Input(InputEvent::ReleaseSoft) => {
                self.soft_dropping = false;
                self.clear_timer(TimerEvent::SoftDrop);
                if self.state != GameState::Done {
                    self.set_timer(TimerEvent::Gravity);
                }
            },
            Event::Input(InputEvent::Restart) | Event::Input(InputEvent::Quit) => {},
            Event::Timer(TimerEvent::DasLeft) | Event::Timer(TimerEvent::DasRight) => {
                if self.state == GameState::Running {
                    self.handle_das();
                }
            },
            Event::Timer(TimerEvent::Arr) => {
                let dir = self.repeat_dir();
                if self.state == GameState::Running && dir != 0 {
                    if self.try_move((dir, 0)) {
                        sounds.push(Sound::Action(Action::Move));
                    }
                    self.set_timer(TimerEvent::Arr);
                }
            },
            Event::Timer(TimerEvent::Are) => {},
            Event::Timer(TimerEvent::Lookahead) => {
                self.reveal_lookahead();
            },
        }
        false
    }
}

impl Game {
    /// Handles one event at `time` (nanoseconds), appending the feedback effects to
    /// `sounds`, then runs the lookahead drill: an input while the board is shown
    /// hides it; once enough pieces are placed, each input re-arms the reveal timer.
    /// Returns true when the event committed the current piece.
    pub fn handle(&mut self, event: Event, time: u64, sounds: &mut Vec<Sound>) -> (r: bool)
        requires
            old(self).wf(),
        ensures
            final(self).wf(),
            final(self).time == time,
            event_effect(*old(self), *final(self), event, time, old(sounds)@, final(sounds)@),
            r == (old(self).state == GameState::Running && is_commit_event(event)),
            r ==> hard_drop_step(*old(self), *final(self), time),
            old(self).state == GameState::Done ==> {
                &&& final(self).state == GameState::Done
                &&& final(self).board == old(self).board
                &&& final(self).current == old(self).current
                &&& final(self).hold == old(self).hold
            },
            old(self).state == GameState::Startup && event != Event::Timer(TimerEvent::Start) ==> {
                &&& final(self).state == GameState::Startup
                &&& final(self).board == old(self).board
                &&& final(self).current == old(self).current
                &&& final(self).hold == old(self).hold
            },
            old(self).state == GameState::Running && event == Event::Input(InputEvent::Hold) && !old(self).can_hold ==> {
                &&& final(self).board == old(self).board
                &&& final(self).current == old(self).current
                &&& final(self).hold == old(self).hold
                &&& !final(self).can_hold
                &&& final(self).state == GameState::Running
                &&& final(sounds)@ == old(sounds)@.push(Sound::Action(Action::NoHold))
            },
            old(self).state == GameState::Running && event == Event::Input(InputEvent::Hold) && old(self).can_hold ==> {
                &&& final(self).hold == Some(old(self).current.piece)
                &&& final(self).board == old(self).board
                &&& final(self).state == if fits(old(self).board, spawn_loc(hold_incoming(*old(self)))) {
                    GameState::Running
                } else {
                    GameState::Done
                }
                &&& final(self).state == GameState::Running ==> {
                    &&& final(self).current.piece == hold_incoming(*old(self))
                    &&& !final(self).can_hold
                }
            },
            old(self).state == GameState::Running && input_spin_of(event) is Some ==> {
                &&& final(self).board == old(self).board
                &&& final(self).state == GameState::Running
                &&& match rotate_result(old(self).board, old(self).current, input_spin_of(event)->0) {
                    Some(l) => {
                        &&& final(self).current.piece == l.piece
                        &&& final(self).current.rot == l.rot
                        &&& final(self).current.pos.1 == l.pos.1
                    },
                    None => final(self).current == old(self).current,
                }
            },
            event is Input && event != Event::Input(InputEvent::Undo) && final(self).state != GameState::Done && (mode_lookahead(old(self).mode) matches Some(l)
                && l.board_visible) ==> (mode_lookahead(final(self).mode) matches Some(l2) && !l2.board_visible),
    {
        let r = self._handle(event, time, sounds);
        let ghost g1 = *self;
        if let (Event::Input(kind), true) = (event, self.state != GameState::Done) {
            let (visible, goal) = match &self.mode {
                Mode::TrainingLab { lookahead: Some(lookahead), .. } => (Some(lookahead.board_visible), lookahead.next_piece_goal),
                _ => (None, 0),
            };
            if let Some(visible) = visible {
                if visible && kind != InputEvent::Undo {
                    self.hide_board();
                } else if self.pieces >= goal {
                    self.clear_timer(TimerEvent::Lookahead);
                    self.set_timer(TimerEvent::Lookahead);
                }
            }
        }
        proof {
            if r {
                let (landed, mid) = choose|landed: PieceLocation, mid: Board| #[trigger] hard_drop_via(*old(self), g1, time, landed, mid);
                assert(hard_drop_via(*old(self), *self, time, landed, mid));
                assert(commit_step(*old(self), *self, landed, mid));
            }
        }
        r
    }

    /// Hides the board in the lookahead drill.
    fn hide_board(&mut self)
        requires
            old(self).wf(),
        ensures
            final(self).wf(),
            *final(self) == (Game { mode: final(self).mode, ..*old(self) }),
            mode_lookahead(old(self).mode) is Some ==> (mode_lookahead(final(self).mode) matches Some(l) && !l.board_visible),
    {
        if let Mode::TrainingLab { lookahead: Some(lookahead), .. } = &mut self.mode {
            lookahead.board_visible = false;
        }
    }

    /// Where the current piece would come to rest if it fell straight down.
    pub fn ghost_pos(&self) -> (r: PieceLocation)
        requires
            self.wf(),
        ensures
            r.piece == self.current.piece && r.rot == self.current.rot && r.pos.0 == self.current.pos.0,
            r.pos.1 <= self.current.pos.1,
            loc_in_range(r),
            fits(self.board, self.current) ==> fits(self.board, r) && grounded(self.board, r),
            forall|k: int| r.pos.1 <= k < self.current.pos.1 ==> fits(self.board, #[trigger] shifted(self.current, 0, k - self.current.pos.1)),
    {
        let mut ghost = self.current;
        assert(ghost == shifted(self.current, 0, 0));
        loop
            invariant
                loc_in_range(ghost),
                ghost.piece == self.current.piece && ghost.rot == self.current.rot && ghost.pos.0 == self.current.pos.0,
                ghost.pos.1 <= self.current.pos.1,
                ghost == shifted(self.current, 0, ghost.pos.1 - self.current.pos.1),
                forall|k: int| ghost.pos.1 <= k < self.current.pos.1 ==> fits(self.board, #[trigger] shifted(self.current, 0, k - self.current.pos.1)),
            ensures
                fits(self.board, self.current) ==> grounded(self.board, ghost) && fits(self.board, ghost),
                forall|k: int| ghost.pos.1 <= k < self.current.pos.1 ==> fits(self.board, #[trigger] shifted(self.current, 0, k - self.current.pos.1)),
                ghost.pos.1 <= self.current.pos.1,
                loc_in_range(ghost),
                ghost.piece == self.current.piece && ghost.rot == self.current.rot && ghost.pos.0 == self.current.pos.0,
            decreases ghost.pos.1 + 128,
        {
            let mut next = ghost;
            if next.pos.1 <= -120 {
                proof {
                    if fits(self.board, shifted(ghost, 0, -1)) {
                        lemma_fits_bounds(self.board, shifted(ghost, 0, -1));
                    }
                }
                break;
            }
            next.pos.1 = next.pos.1 - 1;
            assert(next == shifted(ghost, 0, -1));
            if !self.fits_at(next) {
                break;
            }
            proof {
                lemma_fits_bounds(self.board, next);
                assert(next == shifted(self.current, 0, next.pos.1 - self.current.pos.1));
            }
            ghost = next;
        }
        ghost
    }

    pub fn draw_only_mino(&self) -> (r: bool)
        ensures
            r == match self.mode {
                Mode::Sprint { .. } => false,
                Mode::TrainingLab { mino_mode, .. } => mino_mode,
            },
    {
        match self.mode {
            Mode::Sprint { .. } => false,
            Mode::TrainingLab { mino_mode, .. } => mino_mode,
        }
    }

    pub fn should_draw_board(&self) -> (r: bool)
        ensures
            r == match mode_lookahead(self.mode) {
                Some(l) => l.board_visible,
                None => true,
            },
    {
        match &self.mode {
            Mode::TrainingLab { lookahead: Some(lookahead), .. } => lookahead.board_visible,
            _ => true,
        }
    }

    pub fn should_draw_hold(&self) -> (r: bool)
        ensures
            r == match mode_lookahead(self.mode) {
                Some(l) => l.board_visible,
                None => true,
            },
    {
        self.should_draw_board()
    }

    pub fn should_draw_queue(&self) -> (r: bool)
        ensures
            r == match mode_lookahead(self.mode) {
                Some(l) => l.board_visible,
                None => true,
            },
    {
        self.should_draw_board()
    }

    /// The upcoming pieces, next first.
    pub fn upcoming(&self) -> (r: Vec<Piece>)
        ensures
            r@.len() == ring_items(self.upcomming).len(),
            forall|i: int| 0 <= i < r@.len() && ring_items(self.upcomming)[i] < 7 ==> #[trigger] r@[i]
                == piece_of_index(ring_items(self.upcomming)[i] as nat),
    {
        let n = crate::bag::queue_len(&self.upcomming);
        let mut r: Vec<Piece> = Vec::new();
        let mut i: usize = 0;
        while i < n
            invariant
                0 <= i <= n,
                n == ring_items(self.upcomming).len(),
                r@.len() == i,
                forall|j: int| 0 <= j < i && ring_items(self.upcomming)[j] < 7 ==> #[trigger] r@[j]
                    == piece_of_index(ring_items(self.upcomming)[j] as nat),
            decreases n - i,
        {
            let k = crate::bag::queue_get(&self.upcomming, i);
            r.push(if k < 7 { Piece::from_index(k) } else { Piece::Z });
            i = i + 1;
        }
        r
    }
}

/// Along a run of successful shifts or turns that each leave the piece grounded
/// (timer queue `steps[i]` before the move at `times[i]`, `steps[i + 1]` after it),
/// each move re-arms the lock delay from its own time, while the extended cap keeps
/// the deadline it had before the run.
pub proof fn lemma_extended_cap_kept(steps: Seq<Seq<(u64, TimerEvent)>>, times: Seq<u64>, c: Config)
    requires
        steps.len() == times.len() + 1,
        deadline_of(steps[0], TimerEvent::Extended) is Some,
        forall|i: int| 0 <= i < times.len() ==> #[trigger] lock_timers_follow(steps[i], steps[i + 1], true, times[i], c),
    ensures
        forall|i: int| 0 <= i < steps.len() ==> #[trigger] deadline_of(steps[i], TimerEvent::Extended) == deadline_of(steps[0], TimerEvent::Extended),
        forall|i: int| 0 <= i < times.len() ==> #[trigger] deadline_of(steps[i + 1], TimerEvent::Lock) == Some(deadline_after(times[i], c.lock_delay.0)),
    decreases times.len(),
{
    if times.len() > 0 {
        let n = times.len() - 1;
        lemma_extended_cap_kept(steps.take(n + 1), times.take(n), c);
        assert forall|i: int| 0 <= i < steps.len() implies #[trigger] deadline_of(steps[i], TimerEvent::Extended) == deadline_of(steps[0], TimerEvent::Extended) by {
            if i < n + 1 {
                assert(steps.take(n + 1)[i] == steps[i]);
            } else {
                assert(steps.take(n + 1)[n] == steps[n]);
                assert(lock_timers_follow(steps[n], steps[n + 1], true, times[n], c));
            }
        }
        assert forall|i: int| 0 <= i < times.len() implies #[trigger] deadline_of(steps[i + 1], TimerEvent::Lock) == Some(deadline_after(times[i], c.lock_delay.0)) by {
            assert(lock_timers_follow(steps[i], steps[i + 1], true, times[i], c));
        }
    }
}

/// The cells of a placement are a function of its kind, orientation and anchor alone:
/// two equal placements cover the same cells.
pub proof fn lemma_blocks_deterministic(a: PieceLocation, b: PieceLocation)
    requires
        a == b,
    ensures
        crate::piece::placement_cells(a) == crate::piece::placement_cells(b),
{
}


/// Board, pieces, counters and round state agree.
pub open spec fn same_play(a: Game, b: Game) -> bool {
    &&& a.board == b.board
    &&& a.current == b.current
    &&& a.hold == b.hold
    &&& a.lines == b.lines
    &&& a.pieces == b.pieces
    &&& ring_items(a.upcomming) == ring_items(b.upcomming)
    &&& a.state == b.state
    &&& a.can_hold == b.can_hold
}

/// Every timer kind but the lookahead reveal has the same deadline.
pub open spec fn same_timers(a: Game, b: Game) -> bool {
    forall|k: TimerEvent| k != TimerEvent::Lookahead ==> deadline_of(b.timers@, k) == deadline_of(a.timers@, k)
}

/// `loc` after an attempted shift by (dx, 0): moved if that fits, else unchanged.
pub open spec fn shift_or_stay(b: Board, loc: PieceLocation, dx: int) -> PieceLocation {
    match shift_result(b, loc, dx, 0) {
        Some(l) => l,
        None => loc,
    }
}

/// The left direction leads: it is held, and pressed after the right one if both are.
pub open spec fn left_leads(g: Game) -> bool {
    match (g.started_left, g.started_right) {
        (Some(l), Some(r)) => l > r,
        (Some(_), None) => true,
        _ => false,
    }
}

/// The right direction leads: it is held, and pressed after the left one if both are.
pub open spec fn right_leads(g: Game) -> bool {
    match (g.started_left, g.started_right) {
        (Some(l), Some(r)) => l < r,
        (None, Some(_)) => true,
        _ => false,
    }
}

/// The direction of the auto-repeat: the more recently pressed held one, 0 for none.
pub open spec fn repeat_dir_of(g: Game) -> int {
    match (g.started_left, g.started_right) {
        (Some(l), Some(r)) => if l > r { -1 } else { 1 },
        (Some(_), None) => -1,
        (None, Some(_)) => 1,
        (None, None) => 0,
    }
}

/// What handling `e` at time `t` does, from `old` to `new`, with the effects `s0`
/// before and `s1` after. Each clause is one row of the rules; see `Game::_handle`.
pub open spec fn event_effect(old: Game, new: Game, e: Event, t: u64, s0: Seq<Sound>, s1: Seq<Sound>) -> bool {
    let g = Game { time: t, ..old };
    let run = old.state == GameState::Running;
    &&& !run ==> new.lines == old.lines && new.pieces == old.pieces && new.board == old.board && new.hold == old.hold
    &&& e == Event::Input(InputEvent::PressLeft) ==> {
        &&& new.started_left == Some(t)
        &&& deadline_of(new.timers@, TimerEvent::DasLeft) == Some(deadline_after(t, old.config.das))
        &&& deadline_of(new.timers@, TimerEvent::DasRight) is None
        &&& deadline_of(new.timers@, TimerEvent::Arr) is None
        &&& new.board == old.board
        &&& new.current == if run { shift_or_stay(old.board, old.current, -1) } else { old.current }
    }
    &&& e == Event::Input(InputEvent::PressRight) ==> {
        &&& new.started_right == Some(t)
        &&& deadline_of(new.timers@, TimerEvent::DasRight) == Some(deadline_after(t, old.config.das))
        &&& deadline_of(new.timers@, TimerEvent::DasLeft) is None
        &&& deadline_of(new.timers@, TimerEvent::Arr) is None
        &&& new.board == old.board
        &&& new.current == if run { shift_or_stay(old.board, old.current, 1) } else { old.current }
    }
    &&& e == Event::Input(InputEvent::ReleaseLeft) ==> {
        &&& new.started_left is None
        &&& deadline_of(new.timers@, TimerEvent::DasLeft) is None
        &&& left_leads(old) && das_dir(Game { started_left: None, ..g }, t) == 0 ==> deadline_of(new.timers@, TimerEvent::Arr) is None
        &&& new.board == old.board
        &&& new.state == old.state
        &&& !charging(Game { started_left: None, ..g }, t) ==> new.current == old.current
    }
    &&& e == Event::Input(InputEvent::ReleaseRight) ==> {
        &&& new.started_right is None
        &&& deadline_of(new.timers@, TimerEvent::DasRight) is None
        &&& right_leads(old) && das_dir(Game { started_right: None, ..g }, t) == 0 ==> deadline_of(new.timers@, TimerEvent::Arr) is None
        &&& new.board == old.board
        &&& new.state == old.state
        &&& !charging(Game { started_right: None, ..g }, t) ==> new.current == old.current
    }
    &&& e == Event::Input(InputEvent::PressSoft) ==> {
        &&& new.soft_dropping
        &&& new.board == old.board && new.current == old.current
        &&& deadline_of(new.timers@, TimerEvent::Gravity) is None
        &&& old.state != GameState::Done ==> deadline_of(new.timers@, TimerEvent::SoftDrop) == Some(deadline_after(t, old.config.soft_drop))
    }
    &&& e == Event::Input(InputEvent::ReleaseSoft) ==> {
        &&& !new.soft_dropping
        &&& new.board == old.board && new.current == old.current
        &&& deadline_of(new.timers@, TimerEvent::SoftDrop) is None
        &&& old.state != GameState::Done ==> (old.config.gravity matches Some(f) ==> deadline_of(new.timers@, TimerEvent::Gravity) == Some(deadline_after(t, f)))
    }
    &&& run && (e == Event::Timer(TimerEvent::DasLeft) || e == Event::Timer(TimerEvent::DasRight)) ==> das_step(g, new)
    &&& run && e == Event::Timer(TimerEvent::Arr) ==> {
        &&& repeat_dir_of(old) == 0 ==> new == g
        &&& repeat_dir_of(old) != 0 ==> {
            &&& new.board == old.board
            &&& new.current == shift_or_stay(old.board, old.current, repeat_dir_of(old))
            &&& deadline_of(new.timers@, TimerEvent::Arr) == Some(deadline_after(t, old.config.arr))
        }
    }
    &&& old.state == GameState::Startup && e == Event::Timer(TimerEvent::Start) ==> {
        &&& popped(ring_items(old.upcomming), ring_items(new.upcomming))
        &&& new.state == GameState::Running ==> {
            &&& !charging(Game { state: GameState::Running, ..g }, t) ==> new.current == spawn_rest(old.board, next_piece(old))
            &&& !old.soft_dropping ==> deadline_of(new.timers@, TimerEvent::Gravity) == match old.config.gravity {
                Some(f) => Some(deadline_after(t, f)),
                None => None,
            }
            &&& old.soft_dropping ==> deadline_of(new.timers@, TimerEvent::SoftDrop) == Some(deadline_after(t, old.config.soft_drop))
            &&& s1 == s0.push(Sound::Meta(Meta::Go))
        }
        &&& new.state == GameState::Done ==> s1 == s0.push(Sound::Meta(Meta::Lose)) && new.end_time == Some(t)
    }
    &&& run && input_spin_of(e) is Some ==> match rotate_result(old.board, old.current, input_spin_of(e)->0) {
        Some(l) => !charging(g, t) ==> new.current == l,
        None => same_play(old, new) && same_timers(old, new) && s1 == s0,
    }
    &&& run && e == Event::Input(InputEvent::Undo) && !(old.mode is TrainingLab && old.history@.len() > 0) ==> {
        &&& same_play(old, new)
        &&& same_timers(old, new)
        &&& new.history == old.history
    }
    &&& run && e == Event::Timer(TimerEvent::Gravity) ==> {
        &&& !grounded(old.board, old.current) && !charging(g, t) ==> new.current == shifted(old.current, 0, -1)
        &&& grounded(old.board, old.current) ==> deadline_of(new.timers@, TimerEvent::Lock) is Some && deadline_of(
            new.timers@,
            TimerEvent::Extended,
        ) is Some
    }
    &&& run && is_commit_event(e) ==> {
        &&& new.state == GameState::Running ==> s1 == s0.push(lock_sound((new.lines - old.lines) as nat, old.spin))
        &&& !fits(new.board, spawn_loc(next_piece(old))) ==> s1 == s0.push(Sound::Meta(Meta::Lose))
    }
    &&& run && e == Event::Input(InputEvent::Hold) && old.can_hold ==> {
        &&& fits(old.board, spawn_loc(hold_incoming(old))) ==> s1 == s0.push(Sound::Action(Action::Hold))
        &&& !fits(old.board, spawn_loc(hold_incoming(old))) ==> s1 == s0.push(Sound::Meta(Meta::Lose)) && new.end_time == Some(t)
            && new.timers@.len() == 0
        &&& old.hold is Some ==> ring_items(new.upcomming) == ring_items(old.upcomming)
        &&& old.hold is None ==> popped(ring_items(old.upcomming), ring_items(new.upcomming))
        &&& new.lines == old.lines && new.pieces == old.pieces
    }
    &&& run && e == Event::Input(InputEvent::Hold) && !old.can_hold ==> {
        &&& same_play(old, new)
        &&& same_timers(old, new)
        &&& s1 == s0.push(Sound::Action(Action::NoHold))
    }
}

/// The spin that a rotation input event asks for.
pub open spec fn input_spin_of(e: Event) -> Option<Spin> {
    match e {
        Event::Input(i) => input_spin(i),
        _ => None,
    }
}

} // verus!
