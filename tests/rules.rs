use std::collections::VecDeque;

use tetris::bag::{opening_queue, pop_piece, queue_get, queue_len, rng_from_seed};
use tetris::board::{clear_filled_rows, empty_board, is_region_free, place, Board};
use tetris::keys::{get_key, parse_kitty_key, trailer_map, KeyError, KeyEvent, DOWN, LEFT, LEFT_SHIFT, RIGHT, UP};
use tetris::sound::{clear_sound, Action, Clear, Meta, NullSink, Sound};
use tetris::timer::{clear_timer, set_timer};
use tetris::{
    Cell, Config, Event, Game, GameState, InputEvent, Lookahead, Mode, Piece, PieceLocation,
    Rotation, Spin, TimerEvent, FRAME,
};

fn running_game(current: PieceLocation) -> (Game, Vec<Sound>) {
    let mut g = Game::new(Config::default());
    let mut sounds = Vec::new();
    g.start(Some(3), 0, &mut sounds);
    g.current = current;
    g.state = GameState::Running;
    (g, sounds)
}

fn occupied(board: &Board) -> Vec<(usize, usize)> {
    let mut v = Vec::new();
    for y in 0..40 {
        for x in 0..10 {
            if board[y][x] != Cell::Empty {
                v.push((x, y));
            }
        }
    }
    v
}

#[test]
fn basic_lock_of_i_piece() {
    let (mut g, mut sounds) =
        running_game(PieceLocation::new(Piece::I, (4, 21), Rotation::North));
    let committed = g.handle(Event::Input(InputEvent::Hard), 5, &mut sounds);
    assert!(committed);
    assert_eq!(occupied(&g.board), vec![(3, 0), (4, 0), (5, 0), (6, 0)]);
    assert!(g.board[0][3..7].iter().all(|c| *c == Cell::Piece(Piece::I)));
    assert_eq!(g.lines, 0);
    assert_eq!(g.pieces, 1);
    assert!(g.state == GameState::Running);
    assert_eq!(*sounds.last().unwrap(), Sound::Action(Action::Lock));
}

#[test]
fn single_line_clear_with_o_piece() {
    let (mut g, mut sounds) =
        running_game(PieceLocation::new(Piece::O, (4, 21), Rotation::North));
    for x in 0..10 {
        if x != 4 && x != 5 {
            g.board[0][x] = Cell::Garbage;
        }
    }
    g.board[2][0] = Cell::Piece(Piece::T);
    g.board[1][9] = Cell::Piece(Piece::L);
    g.handle(Event::Input(InputEvent::Hard), 0, &mut sounds);
    assert_eq!(g.lines, 1);
    assert_eq!(occupied(&g.board), vec![(4, 0), (5, 0), (9, 0), (0, 1)]);
    assert_eq!(g.board[1][0], Cell::Piece(Piece::T));
    assert_eq!(g.board[0][9], Cell::Piece(Piece::L));
    assert_eq!(*sounds.last().unwrap(), Sound::Clear(Clear::Single));
}

#[test]
fn shift_then_clear() {
    let (mut g, mut sounds) =
        running_game(PieceLocation::new(Piece::O, (4, 21), Rotation::North));
    for x in 0..8 {
        g.board[0][x] = Cell::Garbage;
    }
    g.handle(Event::Input(InputEvent::PressRight), 0, &mut sounds);
    g.handle(Event::Input(InputEvent::ReleaseRight), 1, &mut sounds);
    g.handle(Event::Input(InputEvent::PressRight), 2, &mut sounds);
    g.handle(Event::Input(InputEvent::ReleaseRight), 3, &mut sounds);
    g.handle(Event::Input(InputEvent::PressRight), 4, &mut sounds);
    g.handle(Event::Input(InputEvent::ReleaseRight), 5, &mut sounds);
    g.handle(Event::Input(InputEvent::PressRight), 6, &mut sounds);
    assert_eq!(g.current.pos.0, 8);
    g.handle(Event::Input(InputEvent::Hard), 7, &mut sounds);
    assert_eq!(g.lines, 1);
    assert_eq!(occupied(&g.board), vec![(8, 0), (9, 0)]);
}

#[test]
fn top_out_ends_the_round() {
    let (mut g, mut sounds) =
        running_game(PieceLocation::new(Piece::I, (4, 5), Rotation::North));
    for y in 19..25 {
        for x in 2..8 {
            g.board[y][x] = Cell::Garbage;
        }
    }
    let committed = g.handle(Event::Input(InputEvent::Hard), 9, &mut sounds);
    assert!(committed);
    assert!(g.state == GameState::Done);
    assert_eq!(g.end_time, Some(9));
    assert!(g.timers.is_empty());
    assert_eq!(*sounds.last().unwrap(), Sound::Meta(Meta::Lose));
    // nothing moves once the round is over
    let board = g.board;
    g.handle(Event::Input(InputEvent::Hard), 10, &mut sounds);
    assert!(g.board == board);
    assert!(g.state == GameState::Done);
}

#[test]
fn hold_only_once_per_piece() {
    let (mut g, mut sounds) =
        running_game(PieceLocation::new(Piece::T, (4, 20), Rotation::North));
    let next = g.upcoming()[0];
    g.handle(Event::Input(InputEvent::Hold), 0, &mut sounds);
    assert!(!g.can_hold);
    assert_eq!(g.hold, Some(Piece::T));
    assert_eq!(g.current.piece, next);
    assert_eq!(*sounds.last().unwrap(), Sound::Action(Action::Hold));
    let current = g.current;
    g.handle(Event::Input(InputEvent::Hold), 1, &mut sounds);
    assert!(!g.can_hold);
    assert_eq!(g.current, current);
    assert_eq!(g.hold, Some(Piece::T));
    assert_eq!(*sounds.last().unwrap(), Sound::Action(Action::NoHold));
}

#[test]
fn i_kick_table_is_asymmetric() {
    let cw = Piece::I.get_your_kicks(Rotation::North, Spin::Cw);
    let ccw = Piece::I.get_your_kicks(Rotation::North, Spin::Ccw);
    assert_eq!(cw, [(1, 0), (2, 0), (-1, 0), (-1, -1), (2, 2), (1, 0)]);
    assert_eq!(ccw, [(0, -1), (-1, -1), (2, -1), (2, -2), (-1, 1), (0, -1)]);
    // the half turns of the I piece are not mirror images of each other
    assert_eq!(
        Piece::I.get_your_kicks(Rotation::North, Spin::Flip),
        [(1, -1), (1, 0), (1, -1), (1, -1), (1, -1), (1, -1)]
    );
    assert_eq!(
        Piece::I.get_your_kicks(Rotation::East, Spin::Flip),
        [(-1, -1), (0, -1), (-1, -1), (-1, -1), (-1, -1), (-1, -1)]
    );
    assert_eq!(
        Piece::T.get_your_kicks(Rotation::North, Spin::Cw),
        [(0, 0), (-1, 0), (-1, 1), (0, -2), (-1, -2), (0, 0)]
    );
    assert_eq!(Piece::O.get_your_kicks(Rotation::East, Spin::Flip), [(0, 0); 6]);
}

#[test]
fn i_rotation_on_the_floor_kicks_up() {
    let (g, _) = running_game(PieceLocation::new(Piece::I, (4, 0), Rotation::North));
    let cw = g.attempt_rotate(Spin::Cw).unwrap();
    assert_eq!(cw, PieceLocation::new(Piece::I, (6, 2), Rotation::East));
    let ccw = g.attempt_rotate(Spin::Ccw).unwrap();
    assert_eq!(ccw, PieceLocation::new(Piece::I, (3, 1), Rotation::West));
}

#[test]
fn rotation_back_restores_placement() {
    let (mut g, mut sounds) =
        running_game(PieceLocation::new(Piece::T, (4, 10), Rotation::North));
    let start = g.current;
    g.handle(Event::Input(InputEvent::Cw), 0, &mut sounds);
    assert_eq!(g.current.rot, Rotation::East);
    g.handle(Event::Input(InputEvent::Ccw), 1, &mut sounds);
    assert_eq!(g.current, start);
    assert_eq!(g.current.blocks(), start.blocks());
}

#[test]
fn blocks_are_deterministic() {
    let loc = PieceLocation::new(Piece::S, (5, 7), Rotation::West);
    assert_eq!(loc.blocks(), loc.blocks());
    assert_eq!(loc.blocks(), [(5, 6), (5, 7), (4, 7), (4, 8)]);
    assert_eq!(Piece::L.blocks(), [(-1, 0), (0, 0), (1, 0), (1, 1)]);
    assert_eq!(Rotation::East.rotate_block((1, 2)), (2, -1));
    assert_eq!(Rotation::North.rotate(Spin::Ccw), Rotation::West);
    assert_eq!(Rotation::South.rotate(Spin::Flip), Rotation::North);
}

#[test]
fn clear_keeps_order_and_counts_garbage() {
    let mut b = empty_board();
    for x in 0..10 {
        b[1][x] = Cell::Garbage;
        b[3][x] = Cell::Piece(Piece::J);
    }
    b[0][0] = Cell::Piece(Piece::I);
    b[2][1] = Cell::Piece(Piece::O);
    b[4][2] = Cell::Piece(Piece::S);
    let n = clear_filled_rows(&mut b);
    assert_eq!(n, 2);
    assert_eq!(occupied(&b), vec![(0, 0), (1, 1), (2, 2)]);
    assert_eq!(b[2][2], Cell::Piece(Piece::S));
    assert_eq!(clear_filled_rows(&mut b), 0);
}

#[test]
fn region_and_place() {
    let mut b = empty_board();
    let cells = [(0, 0), (1, 0), (2, 0), (3, 0)];
    assert!(is_region_free(&b, cells));
    assert!(!is_region_free(&b, [(-1, 0), (0, 0), (1, 0), (2, 0)]));
    assert!(!is_region_free(&b, [(0, 40), (0, 0), (1, 0), (2, 0)]));
    place(&mut b, cells, Piece::Z);
    assert!(!is_region_free(&b, [(3, 0), (4, 0), (5, 0), (6, 0)]));
    assert_eq!(b[0][3], Cell::Piece(Piece::Z));
}

#[test]
fn bag_windows_hold_each_kind_once() {
    let mut rng = rng_from_seed(11);
    let mut q = opening_queue(&mut rng, false);
    let mut popped = Vec::new();
    for _ in 0..70 {
        popped.push(pop_piece(&mut q, &mut rng));
        let n = queue_len(&q);
        assert!((7..=13).contains(&n));
    }
    for w in popped.chunks(7) {
        let mut sorted = w.to_vec();
        sorted.sort();
        assert_eq!(sorted, vec![0, 1, 2, 3, 4, 5, 6]);
    }
}

#[test]
fn sprint_opening_avoids_s_and_z() {
    for seed in 0..50 {
        let mut rng = rng_from_seed(seed);
        let q = opening_queue(&mut rng, true);
        let first = queue_get(&q, 0);
        assert!(first != 4 && first != 6);
    }
}

#[test]
fn timers_replace_and_order() {
    let mut t: VecDeque<(u64, TimerEvent)> = VecDeque::new();
    set_timer(&mut t, TimerEvent::Gravity, 50);
    set_timer(&mut t, TimerEvent::Lock, 10);
    set_timer(&mut t, TimerEvent::Gravity, 5);
    set_timer(&mut t, TimerEvent::Extended, 10);
    assert_eq!(
        t.iter().copied().collect::<Vec<_>>(),
        vec![(5, TimerEvent::Gravity), (10, TimerEvent::Lock), (10, TimerEvent::Extended)]
    );
    clear_timer(&mut t, TimerEvent::Lock);
    assert_eq!(
        t.iter().copied().collect::<Vec<_>>(),
        vec![(5, TimerEvent::Gravity), (10, TimerEvent::Extended)]
    );
}

#[test]
fn lock_delay_resets_but_extended_stays() {
    let (mut g, mut sounds) =
        running_game(PieceLocation::new(Piece::T, (4, 0), Rotation::North));
    g.timers.clear();
    g.handle(Event::Input(InputEvent::PressLeft), 1_000, &mut sounds);
    let deadline = |g: &Game, k: TimerEvent| g.timers.iter().find(|e| e.1 == k).map(|e| e.0);
    assert_eq!(deadline(&g, TimerEvent::Lock), Some(1_000 + 30 * FRAME));
    assert_eq!(deadline(&g, TimerEvent::Extended), Some(1_000 + 300 * FRAME));
    g.handle(Event::Input(InputEvent::ReleaseLeft), 2_000, &mut sounds);
    g.handle(Event::Input(InputEvent::PressRight), 5_000, &mut sounds);
    assert_eq!(deadline(&g, TimerEvent::Lock), Some(5_000 + 30 * FRAME));
    assert_eq!(deadline(&g, TimerEvent::Extended), Some(1_000 + 300 * FRAME));
    g.handle(Event::Input(InputEvent::Cw), 9_000, &mut sounds);
    assert_eq!(deadline(&g, TimerEvent::Extended), Some(1_000 + 300 * FRAME));
}

#[test]
fn start_arms_the_start_timer() {
    let mut g = Game::new(Config::default());
    let mut sounds = Vec::new();
    g.start(Some(1), 100, &mut sounds);
    assert!(g.state == GameState::Startup);
    assert_eq!(g.timers.iter().copied().collect::<Vec<_>>(), vec![(100 + 60 * FRAME, TimerEvent::Start)]);
    assert_eq!(sounds, vec![Sound::Meta(Meta::Go)]);
    let first = g.upcoming()[0];
    assert!(first != Piece::S && first != Piece::Z);
    g.handle(Event::Timer(TimerEvent::Start), 200, &mut sounds);
    assert!(g.state == GameState::Running);
    assert_eq!(g.current.piece, first);
    assert_eq!(g.start_time, Some(200));
}

#[test]
fn ghost_lands_on_floor() {
    let (g, _) = running_game(PieceLocation::new(Piece::J, (4, 20), Rotation::North));
    assert_eq!(g.ghost_pos(), PieceLocation::new(Piece::J, (4, 0), Rotation::North));
}

#[test]
fn mode_rules() {
    let sprint = Mode::Sprint { target_lines: 40 };
    assert!(!sprint.is_complete(39));
    assert!(sprint.is_complete(40));
    assert!(!sprint.allows_undo());
    assert!(!sprint.search_enabled());
    let lab = Mode::TrainingLab { lookahead: Some(Lookahead::new(3, 20)), search: true, mino_mode: false };
    assert!(!lab.is_complete(1000));
    assert!(lab.allows_undo());
    assert!(lab.search_enabled());
    assert_eq!(lab.lookahead_timeout(), 20);
}

#[test]
fn undo_restores_previous_board() {
    let (mut g, mut sounds) =
        running_game(PieceLocation::new(Piece::I, (4, 21), Rotation::North));
    g.mode = Mode::TrainingLab { lookahead: None, search: false, mino_mode: false };
    g.handle(Event::Input(InputEvent::Hard), 0, &mut sounds);
    assert_eq!(occupied(&g.board).len(), 4);
    g.handle(Event::Input(InputEvent::Undo), 1, &mut sounds);
    assert!(occupied(&g.board).is_empty());
    assert_eq!(g.current.piece, Piece::I);
    assert_eq!(g.pieces, 0);
}

#[test]
fn sprint_win_after_target() {
    let (mut g, mut sounds) =
        running_game(PieceLocation::new(Piece::O, (4, 21), Rotation::North));
    g.mode = Mode::Sprint { target_lines: 1 };
    for x in 0..10 {
        if x != 4 && x != 5 {
            g.board[0][x] = Cell::Garbage;
        }
    }
    g.handle(Event::Input(InputEvent::Hard), 0, &mut sounds);
    assert!(g.state == GameState::Done);
    assert_eq!(*sounds.last().unwrap(), Sound::Meta(Meta::Win));
}

#[test]
fn line_clear_sounds() {
    assert_eq!(clear_sound(0, true), Sound::Action(Action::Lock));
    assert_eq!(clear_sound(1, false), Sound::Clear(Clear::Single));
    assert_eq!(clear_sound(2, true), Sound::Clear(Clear::TspinDouble));
    assert_eq!(clear_sound(3, false), Sound::Clear(Clear::Triple));
    assert_eq!(clear_sound(4, false), Sound::Clear(Clear::Quad));
}

#[test]
fn sound_fallbacks() {
    assert_eq!(
        Sound::Clear(Clear::Quad).fallback(),
        vec![Sound::Clear(Clear::Triple), Sound::Clear(Clear::Double), Sound::Clear(Clear::Single)]
    );
    assert_eq!(
        Sound::Action(Action::MiniSpin).candidates(),
        vec![Sound::Action(Action::MiniSpin), Sound::Action(Action::Spin), Sound::Action(Action::Rotate)]
    );
    assert!(Sound::Meta(Meta::Win).fallback().is_empty());
    assert_eq!(Sound::from(Meta::Go), Sound::Meta(Meta::Go));
    let _ = NullSink;
}

#[test]
fn key_names() {
    assert_eq!(get_key("Left"), Some(LEFT));
    assert_eq!(get_key("RIGHT"), Some(RIGHT));
    assert_eq!(get_key("up"), Some(UP));
    assert_eq!(get_key("Down"), Some(DOWN));
    assert_eq!(get_key("Shift"), Some(LEFT_SHIFT));
    assert_eq!(get_key("SPACE"), Some(' '));
    assert_eq!(get_key("enter"), None);
    assert_eq!(trailer_map(b'A'), UP);
    assert_eq!(trailer_map(b'D'), LEFT);
    assert_eq!(trailer_map(b'S'), '\u{e003}');
}

#[test]
fn colors() {
    assert_eq!(Piece::T.color(), (175, 41, 138));
    assert_eq!(Cell::Garbage.color(), (106, 106, 106));
    assert_eq!(Cell::Empty.color(), (0, 0, 0));
    assert_eq!(InputEvent::Flip.spin(), Some(Spin::Flip));
    assert_eq!(InputEvent::Hard.spin(), None);
    assert_eq!(Event::from(TimerEvent::Lock), Event::Timer(TimerEvent::Lock));
}

#[test]
fn kitty_key_sequences() {
    let press = |key, mods| Ok(KeyEvent { key, mods, press: true });
    assert_eq!(parse_kitty_key(b"\x1b[97u"), press('a', 0));
    assert_eq!(parse_kitty_key(b"\x1b[97;5u"), press('a', 4));
    assert_eq!(parse_kitty_key(b"\x1b[97:65;1:1u"), press('a', 0));
    assert_eq!(
        parse_kitty_key(b"\x1b[97;1:3u"),
        Ok(KeyEvent { key: 'a', mods: 0, press: false })
    );
    assert_eq!(
        parse_kitty_key(b"\x1b[1;1:3A"),
        Ok(KeyEvent { key: UP, mods: 0, press: false })
    );
    assert_eq!(parse_kitty_key(b"\x1b[D"), press(LEFT, 0));
    assert_eq!(parse_kitty_key(b"\x1b[97;1:2u"), Err(KeyError::Repeat));
    assert_eq!(parse_kitty_key(b"\x1b[97;1:4u"), Err(KeyError::Unrecognized));
    assert_eq!(parse_kitty_key(b"\x1b[97;1:1:1u"), Err(KeyError::Unrecognized));
    assert_eq!(parse_kitty_key(b"abc"), Err(KeyError::NotKey));
    assert_eq!(parse_kitty_key(b"\x1b[97z"), Err(KeyError::NotKey));
    assert_eq!(parse_kitty_key(b"\x1b[55296u"), Err(KeyError::NotKey));
    assert_eq!(parse_kitty_key(b"\x1b[99999999999u"), press('\0', 0));
}

#[test]
fn bags_are_shuffled_and_seeded() {
    let mut firsts = Vec::new();
    for seed in 0..20 {
        let mut rng = rng_from_seed(seed);
        let q = opening_queue(&mut rng, false);
        let items: Vec<u8> = (0..7).map(|i| queue_get(&q, i)).collect();
        firsts.push(items[0]);
        let mut again = rng_from_seed(seed);
        let q2 = opening_queue(&mut again, false);
        let items2: Vec<u8> = (0..7).map(|i| queue_get(&q2, i)).collect();
        assert_eq!(items, items2);
    }
    firsts.sort();
    firsts.dedup();
    assert!(firsts.len() > 1);
}

#[test]
fn start_without_seed_fills_a_bag() {
    let mut g = Game::new(Config::default());
    let mut sounds = Vec::new();
    g.start(None, 0, &mut sounds);
    let mut q: Vec<Piece> = g.upcoming();
    assert_eq!(q.len(), 7);
    q.sort_by_key(|p| p.index());
    assert_eq!(q, vec![Piece::I, Piece::J, Piece::L, Piece::O, Piece::S, Piece::T, Piece::Z]);
}

#[test]
fn lookahead_hides_board_on_input() {
    let (mut g, mut sounds) =
        running_game(PieceLocation::new(Piece::T, (4, 20), Rotation::North));
    g.mode = Mode::TrainingLab { lookahead: Some(Lookahead::new(2, 30)), search: false, mino_mode: true };
    assert!(g.should_draw_board());
    assert!(g.draw_only_mino());
    g.handle(Event::Input(InputEvent::PressLeft), 0, &mut sounds);
    assert!(!g.should_draw_board());
    assert!(!g.should_draw_queue());
    g.handle(Event::Input(InputEvent::Hard), 1, &mut sounds);
    g.handle(Event::Input(InputEvent::Hard), 2, &mut sounds);
    g.handle(Event::Input(InputEvent::ReleaseLeft), 3, &mut sounds);
    assert!(g.timers.iter().any(|e| e.1 == TimerEvent::Lookahead));
    g.handle(Event::Timer(TimerEvent::Lookahead), 4, &mut sounds);
    assert!(g.should_draw_hold());
}

#[test]
fn gravity_tick_arms_lock_on_grounded_piece() {
    let (mut g, mut sounds) =
        running_game(PieceLocation::new(Piece::T, (4, 0), Rotation::North));
    g.timers.clear();
    g.handle(Event::Timer(TimerEvent::Gravity), 1_000, &mut sounds);
    let deadline = |g: &Game, k: TimerEvent| g.timers.iter().find(|e| e.1 == k).map(|e| e.0);
    assert_eq!(deadline(&g, TimerEvent::Lock), Some(1_000 + 30 * FRAME));
    assert_eq!(deadline(&g, TimerEvent::Extended), Some(1_000 + 300 * FRAME));
    assert_eq!(deadline(&g, TimerEvent::Gravity), Some(1_000 + 60 * FRAME));
    assert_eq!(g.current, PieceLocation::new(Piece::T, (4, 0), Rotation::North));
}

#[test]
fn das_charges_to_wall_with_zero_repeat() {
    let mut config = Config::default();
    config.arr = 0;
    let mut g = Game::new(config);
    let mut sounds = Vec::new();
    g.start(Some(3), 0, &mut sounds);
    g.current = PieceLocation::new(Piece::O, (4, 10), Rotation::North);
    g.state = GameState::Running;
    g.handle(Event::Input(InputEvent::PressLeft), 0, &mut sounds);
    assert_eq!(g.current.pos.0, 3);
    g.handle(Event::Timer(TimerEvent::DasLeft), 11 * FRAME, &mut sounds);
    assert_eq!(g.current, PieceLocation::new(Piece::O, (0, 10), Rotation::North));
}

#[test]
fn das_arms_repeat_timer() {
    let (mut g, mut sounds) =
        running_game(PieceLocation::new(Piece::O, (4, 10), Rotation::North));
    g.handle(Event::Input(InputEvent::PressRight), 0, &mut sounds);
    g.handle(Event::Timer(TimerEvent::DasRight), 11 * FRAME, &mut sounds);
    assert_eq!(g.current.pos.0, 5);
    assert!(g.timers.iter().any(|e| *e == (13 * FRAME, TimerEvent::Arr)));
    g.handle(Event::Timer(TimerEvent::Arr), 13 * FRAME, &mut sounds);
    assert_eq!(g.current.pos.0, 6);
}

#[test]
fn due_timers_pop_in_order() {
    let mut g = Game::new(Config::default());
    let mut sounds = Vec::new();
    g.start(Some(1), 0, &mut sounds);
    assert_eq!(g.pop_due_timer(60 * FRAME), None);
    assert_eq!(g.pop_due_timer(60 * FRAME + 1), Some(TimerEvent::Start));
    assert!(g.timers.is_empty());
}

#[test]
fn first_loaded_sample() {
    let loaded = vec![Sound::Clear(Clear::Single), Sound::Clear(Clear::Double)];
    assert_eq!(Sound::Clear(Clear::Quad).first_loaded(&loaded), Some(Sound::Clear(Clear::Double)));
    assert_eq!(Sound::Clear(Clear::Single).first_loaded(&loaded), Some(Sound::Clear(Clear::Single)));
    assert_eq!(Sound::Meta(Meta::Win).first_loaded(&loaded), None);
}
