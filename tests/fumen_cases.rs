use fumen::{CellColor, Fumen, PieceType, RotationState};

use tetris::board::Board;
use tetris::sound::Sound;
use tetris::{Cell, Config, Event, Game, GameState, InputEvent, Piece, PieceLocation, Rotation};

fn piece_of(value: PieceType) -> Piece {
    match value {
        PieceType::I => Piece::I,
        PieceType::L => Piece::L,
        PieceType::O => Piece::O,
        PieceType::Z => Piece::Z,
        PieceType::T => Piece::T,
        PieceType::J => Piece::J,
        PieceType::S => Piece::S,
    }
}

fn rotation_of(value: RotationState) -> Rotation {
    match value {
        RotationState::South => Rotation::South,
        RotationState::East => Rotation::East,
        RotationState::North => Rotation::North,
        RotationState::West => Rotation::West,
    }
}

fn cell_of(value: CellColor) -> Cell {
    match value {
        CellColor::Empty => Cell::Empty,
        CellColor::I => Cell::Piece(Piece::I),
        CellColor::L => Cell::Piece(Piece::L),
        CellColor::O => Cell::Piece(Piece::O),
        CellColor::Z => Cell::Piece(Piece::Z),
        CellColor::T => Cell::Piece(Piece::T),
        CellColor::J => Cell::Piece(Piece::J),
        CellColor::S => Cell::Piece(Piece::S),
        CellColor::Grey => Cell::Garbage,
    }
}

fn get_board(page: &fumen::Page) -> Board {
    let mut board: Board = [[Cell::Empty; 10]; 40];
    for (row, from) in board.iter_mut().zip(page.field) {
        *row = from.map(cell_of);
    }
    board
}

fn get_piece(page: &fumen::Page) -> PieceLocation {
    page.piece
        .map(|p| {
            PieceLocation::new(piece_of(p.kind), (p.x as i8, p.y as i8), rotation_of(p.rotation))
        })
        .unwrap_or(PieceLocation::new(Piece::I, (3, 20), Rotation::North))
}

fn render(board: Board, current: PieceLocation) -> String {
    let cells = current.blocks();
    let mut s = "\n----------------------\n".to_owned();
    for y in (0..20).rev() {
        s.push('|');
        for x in 0..10 {
            if cells.contains(&(x as i8, y as i8)) {
                s.push_str("..");
                continue;
            }
            let next = match board[y][x] {
                Cell::Piece(piece) => format!("{piece:?}{piece:?}"),
                Cell::Garbage => "X ".to_owned(),
                Cell::Empty => "  ".to_owned(),
            };
            s.push_str(next.as_str());
        }
        s.push_str("|\n");
    }
    s.push_str("----------------------");
    s
}

fn run_fumen(data: &str, events: Vec<Vec<InputEvent>>) {
    let f = Fumen::decode(data).unwrap();
    let mut g = Game::new(Config::default());
    let mut sounds: Vec<Sound> = Vec::new();
    g.start(Some(7), 0, &mut sounds);
    let first = f.pages.first().unwrap();
    g.board = get_board(first);
    g.current = get_piece(first);
    g.state = GameState::Running;
    println!("{}", render(g.board, g.current));
    assert_eq!(events.len(), f.pages.len() - 1);
    for (i, (events, page)) in events.into_iter().zip(f.pages[1..].iter()).enumerate() {
        for e in events {
            g.handle(Event::Input(e), 0, &mut sounds);
        }
        assert_eq!(
            render(get_board(page), get_piece(page)),
            render(g.board, g.current),
            "Issue on page {i}:"
        );
        println!("{}", render(g.board, g.current));
    }
}

#[test]
fn test_fumen() {
    let data = "v115@fgh0RpFeg0Q4RpBeglBewhg0R4CeilxhR4AeBtilxh?R4BeBtwwglxhg0Q4AeBtxwRpwhi0AeBtwwRpJe93mvhCVcf?tlBAAA";
    let events = vec![vec![InputEvent::Cw], vec![InputEvent::Cw], vec![InputEvent::Hard]];
    run_fumen(data, events);
}

#[test]
fn test_basic() {
    // all in n/e/s/w order
    let strings = [
        // I
        "v115@vhBRQJAAA",
        "v115@vhBJGJAAA",
        "v115@vhBBQJAAA",
        "v115@vhB5GJAAA",
    ];
    for s in strings {
        run_fumen(s, vec![vec![InputEvent::Hard]]);
    }
}

#[test]
fn test_right_side_i_kick() {
    run_fumen("v115@WhR4GeR4Ne5InvhBhxBAAA", vec![vec![InputEvent::Ccw], vec![InputEvent::Hard]]);
}
