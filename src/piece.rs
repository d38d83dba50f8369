use vstd::prelude::*;

verus! {

/// The seven piece kinds.
#[derive(Copy, Clone, Debug, PartialEq, Eq, Structural, Hash)]
pub enum Piece {
    I,
    J,
    L,
    O,
    S,
    T,
    Z,
}

/// The four orientations; `North` is the spawn orientation.
#[derive(Copy, Clone, Debug, PartialEq, Eq, Structural, Hash)]
pub enum Rotation {
    North,
    East,
    South,
    West,
}

/// A rotation input: clockwise, counterclockwise or a half turn.
#[derive(Copy, Clone, Debug, PartialEq, Eq, Structural, Hash)]
pub enum Spin {
    Cw,
    Ccw,
    Flip,
}

pub open spec fn piece_index(p: Piece) -> nat {
    match p {
        Piece::I => 0,
        Piece::J => 1,
        Piece::L => 2,
        Piece::O => 3,
        Piece::S => 4,
        Piece::T => 5,
        Piece::Z => 6,
    }
}

pub open spec fn piece_of_index(i: nat) -> Piece {
    if i == 0 {
        Piece::I
    } else if i == 1 {
        Piece::J
    } else if i == 2 {
        Piece::L
    } else if i == 3 {
        Piece::O
    } else if i == 4 {
        Piece::S
    } else if i == 5 {
        Piece::T
    } else {
        Piece::Z
    }
}

impl Piece {
    /// The position of this kind in the order I, J, L, O, S, T, Z.
    pub fn index(&self) -> (r: u8)
        ensures
            r as nat == piece_index(*self),
            r < 7,
            piece_of_index(r as nat) == *self,
    {
        match self {
            Piece::I => 0,
            Piece::J => 1,
            Piece::L => 2,
            Piece::O => 3,
            Piece::S => 4,
            Piece::T => 5,
            Piece::Z => 6,
        }
    }

    /// The kind at position `i` of the order I, J, L, O, S, T, Z.
    pub fn from_index(i: u8) -> (r: Piece)
        requires
            i < 7,
        ensures
            r == piece_of_index(i as nat),
            piece_index(r) == i as nat,
    {
        if i == 0 {
            Piece::I
        } else if i == 1 {
            Piece::J
        } else if i == 2 {
            Piece::L
        } else if i == 3 {
            Piece::O
        } else if i == 4 {
            Piece::S
        } else if i == 5 {
            Piece::T
        } else {
            Piece::Z
        }
    }
}


/// The cells of a kind in its spawn orientation, relative to its anchor.
pub open spec fn base_offset(p: Piece, i: int) -> (int, int) {
    let t: Seq<(int, int)> = match p {
        Piece::Z => seq![(-1, 1), (0, 1), (0, 0), (1, 0)],
        Piece::S => seq![(-1, 0), (0, 0), (0, 1), (1, 1)],
        Piece::I => seq![(-1, 0), (0, 0), (1, 0), (2, 0)],
        Piece::O => seq![(0, 0), (1, 0), (0, 1), (1, 1)],
        Piece::J => seq![(-1, 0), (0, 0), (1, 0), (-1, 1)],
        Piece::L => seq![(-1, 0), (0, 0), (1, 0), (1, 1)],
        Piece::T => seq![(-1, 0), (0, 0), (1, 0), (0, 1)],
    };
    t[i]
}

/// A quarter turn clockwise maps (x, y) to (y, -x).
pub open spec fn rotate_point(r: Rotation, c: (int, int)) -> (int, int) {
    match r {
        Rotation::North => c,
        Rotation::East => (c.1, -c.0),
        Rotation::South => (-c.0, -c.1),
        Rotation::West => (-c.1, c.0),
    }
}

/// Cell `i` of a kind in orientation `r`, relative to its anchor.
pub open spec fn shape_offset(p: Piece, r: Rotation, i: int) -> (int, int) {
    rotate_point(r, base_offset(p, i))
}

/// The orientation reached from `r` by `s`.
pub open spec fn rotated(r: Rotation, s: Spin) -> Rotation {
    match (r, s) {
        (Rotation::North, Spin::Ccw) => Rotation::West,
        (Rotation::North, Spin::Cw) => Rotation::East,
        (Rotation::North, Spin::Flip) => Rotation::South,
        (Rotation::East, Spin::Ccw) => Rotation::North,
        (Rotation::East, Spin::Cw) => Rotation::South,
        (Rotation::East, Spin::Flip) => Rotation::West,
        (Rotation::South, Spin::Ccw) => Rotation::East,
        (Rotation::South, Spin::Cw) => Rotation::West,
        (Rotation::South, Spin::Flip) => Rotation::North,
        (Rotation::West, Spin::Ccw) => Rotation::South,
        (Rotation::West, Spin::Cw) => Rotation::North,
        (Rotation::West, Spin::Flip) => Rotation::East,
    }
}

/// The spin that undoes `s`.
pub open spec fn inverse_spin(s: Spin) -> Spin {
    match s {
        Spin::Cw => Spin::Ccw,
        Spin::Ccw => Spin::Cw,
        Spin::Flip => Spin::Flip,
    }
}

pub open spec fn pair_view(c: (i8, i8)) -> (int, int) {
    (c.0 as int, c.1 as int)
}

impl Piece {
    /// The cells of this kind in its spawn orientation, relative to its anchor.
    pub fn blocks(&self) -> (r: [(i8, i8); 4])
        ensures
            forall|i: int| 0 <= i < 4 ==> pair_view(#[trigger] r@[i]) == base_offset(*self, i),
            forall|i: int| 0 <= i < 4 ==> -1 <= #[trigger] r@[i].0 <= 2 && -1 <= r@[i].1 <= 1,
    {
        match self {
            Piece::Z => [(-1, 1), (0, 1), (0, 0), (1, 0)],
            Piece::S => [(-1, 0), (0, 0), (0, 1), (1, 1)],
            Piece::I => [(-1, 0), (0, 0), (1, 0), (2, 0)],
            Piece::O => [(0, 0), (1, 0), (0, 1), (1, 1)],
            Piece::J => [(-1, 0), (0, 0), (1, 0), (-1, 1)],
            Piece::L => [(-1, 0), (0, 0), (1, 0), (1, 1)],
            Piece::T => [(-1, 0), (0, 0), (1, 0), (0, 1)],
        }
    }
}

impl Rotation {
    /// Turns one relative cell from the spawn orientation into this one.
    pub fn rotate_block(&self, b: (i8, i8)) -> (r: (i8, i8))
        requires
            -127 <= b.0 <= 127,
            -127 <= b.1 <= 127,
        ensures
            pair_view(r) == rotate_point(*self, pair_view(b)),
    {
        let (x, y) = b;
        match self {
            Rotation::North => (x, y),
            Rotation::East => (y, -x),
            Rotation::South => (-x, -y),
            Rotation::West => (-y, x),
        }
    }

    /// Turns the four relative cells of a shape from the spawn orientation into this one.
    pub fn rotate_blocks(&self, blocks: [(i8, i8); 4]) -> (r: [(i8, i8); 4])
        requires
            forall|i: int| 0 <= i < 4 ==> -127 <= #[trigger] blocks@[i].0 <= 127 && -127 <= blocks@[i].1 <= 127,
        ensures
            forall|i: int| 0 <= i < 4 ==> pair_view(#[trigger] r@[i]) == rotate_point(*self, pair_view(blocks@[i])),
    {
        let r = [
            self.rotate_block(blocks[0]),
            self.rotate_block(blocks[1]),
            self.rotate_block(blocks[2]),
            self.rotate_block(blocks[3]),
        ];
        assert forall|i: int| 0 <= i < 4 implies pair_view(#[trigger] r@[i]) == rotate_point(*self, pair_view(blocks@[i])) by {
            if i == 0 {} else if i == 1 {} else if i == 2 {} else {}
        }
        r
    }

    /// The orientation reached from this one by `dir`.
    pub fn rotate(self, dir: Spin) -> (r: Rotation)
        ensures
            r == rotated(self, dir),
    {
        match (self, dir) {
            (Rotation::North, Spin::Ccw) => Rotation::West,
            (Rotation::North, Spin::Cw) => Rotation::East,
            (Rotation::North, Spin::Flip) => Rotation::South,
            (Rotation::East, Spin::Ccw) => Rotation::North,
            (Rotation::East, Spin::Cw) => Rotation::South,
            (Rotation::East, Spin::Flip) => Rotation::West,
            (Rotation::South, Spin::Ccw) => Rotation::East,
            (Rotation::South, Spin::Cw) => Rotation::West,
            (Rotation::South, Spin::Flip) => Rotation::North,
            (Rotation::West, Spin::Ccw) => Rotation::South,
            (Rotation::West, Spin::Cw) => Rotation::North,
            (Rotation::West, Spin::Flip) => Rotation::East,
        }
    }
}

/// The cells of kind `p` in orientation `r`, relative to the anchor.
pub fn table_blocks(p: Piece, r: Rotation) -> (res: [(i8, i8); 4])
    ensures
        forall|i: int| 0 <= i < 4 ==> pair_view(#[trigger] res@[i]) == shape_offset(p, r, i),
        forall|i: int| 0 <= i < 4 ==> -2 <= #[trigger] res@[i].0 <= 2 && -2 <= res@[i].1 <= 2,
{
    let b = p.blocks();
    let res = r.rotate_blocks(b);
    assert forall|i: int| 0 <= i < 4 implies -2 <= #[trigger] res@[i].0 <= 2 && -2 <= res@[i].1 <= 2 by {
        assert(pair_view(b@[i]) == base_offset(p, i));
    }
    res
}


/// The ordered kick candidates for turning kind `p` from `r` by `s`: the first one
/// that leaves the piece on free cells is taken. The I kind has its own, deliberately
/// asymmetric table; the O kind never moves.
pub open spec fn kick_table(p: Piece, r: Rotation, s: Spin) -> Seq<(int, int)> {
    match p {
        Piece::O => seq![(0, 0), (0, 0), (0, 0), (0, 0), (0, 0), (0, 0)],
        Piece::I => match (r, s) {
            (Rotation::North, Spin::Cw) => seq![(1, 0), (2, 0), (-1, 0), (-1, -1), (2, 2), (1, 0)],
            (Rotation::North, Spin::Ccw) => seq![(0, -1), (-1, -1), (2, -1), (2, -2), (-1, 1), (0, -1)],
            (Rotation::North, Spin::Flip) => seq![(1, -1), (1, 0), (1, -1), (1, -1), (1, -1), (1, -1)],
            (Rotation::East, Spin::Cw) => seq![(0, -1), (-1, -1), (2, -1), (-1, 1), (2, -2), (0, -1)],
            (Rotation::East, Spin::Ccw) => seq![(-1, 0), (-2, 0), (1, 0), (-2, -2), (1, 1), (-1, 0)],
            (Rotation::East, Spin::Flip) => seq![(-1, -1), (0, -1), (-1, -1), (-1, -1), (-1, -1), (-1, -1)],
            (Rotation::South, Spin::Cw) => seq![(-1, 0), (1, 0), (-2, 0), (1, 1), (-2, -2), (-1, 0)],
            (Rotation::South, Spin::Ccw) => seq![(0, 1), (-2, 1), (1, 1), (-2, 2), (1, -1), (0, 1)],
            (Rotation::South, Spin::Flip) => seq![(-1, 1), (-1, 0), (-1, 1), (-1, 1), (-1, 1), (-1, 1)],
            (Rotation::West, Spin::Cw) => seq![(0, 1), (1, 1), (-2, 1), (1, -1), (-2, 2), (0, 1)],
            (Rotation::West, Spin::Ccw) => seq![(1, 0), (2, 0), (-1, 0), (2, 2), (-1, -1), (1, 0)],
            (Rotation::West, Spin::Flip) => seq![(1, 1), (0, 1), (1, 1), (1, 1), (1, 1), (1, 1)],
        },
        _ => match (r, s) {
            (Rotation::North, Spin::Cw) => seq![(0, 0), (-1, 0), (-1, 1), (0, -2), (-1, -2), (0, 0)],
            (Rotation::North, Spin::Ccw) => seq![(0, 0), (1, 0), (1, 1), (0, -2), (1, -2), (0, 0)],
            (Rotation::North, Spin::Flip) => seq![(0, 0), (0, 1), (1, 1), (-1, 1), (1, 0), (-1, 0)],
            (Rotation::East, Spin::Cw) => seq![(0, 0), (1, 0), (1, -1), (0, 2), (1, 2), (0, 0)],
            (Rotation::East, Spin::Ccw) => seq![(0, 0), (1, 0), (1, -1), (0, 2), (1, 2), (0, 0)],
            (Rotation::East, Spin::Flip) => seq![(0, 0), (1, 0), (1, 2), (1, 1), (0, 2), (0, 1)],
            (Rotation::South, Spin::Cw) => seq![(0, 0), (1, 0), (1, 1), (0, -2), (1, -2), (0, 0)],
            (Rotation::South, Spin::Ccw) => seq![(0, 0), (-1, 0), (-1, 1), (0, -2), (-1, -2), (0, 0)],
            (Rotation::South, Spin::Flip) => seq![(0, 0), (0, -1), (-1, -1), (1, -1), (-1, 0), (1, 0)],
            (Rotation::West, Spin::Cw) => seq![(0, 0), (-1, 0), (-1, -1), (0, 2), (-1, 2), (0, 0)],
            (Rotation::West, Spin::Ccw) => seq![(0, 0), (-1, 0), (-1, -1), (0, 2), (-1, 2), (0, 0)],
            (Rotation::West, Spin::Flip) => seq![(0, 0), (-1, 0), (-1, 2), (-1, 1), (0, 2), (0, 1)],
        },
    }
}

impl Piece {
    /// The six kick candidates for turning this kind from `rot` by `dir`, in priority order.
    pub fn get_your_kicks(self, rot: Rotation, dir: Spin) -> (r: [(i8, i8); 6])
        ensures
            forall|i: int| 0 <= i < 6 ==> pair_view(#[trigger] r@[i]) == kick_table(self, rot, dir)[i],
            forall|i: int| 0 <= i < 6 ==> -2 <= #[trigger] r@[i].0 <= 2 && -2 <= r@[i].1 <= 2,
    {
        let r: [(i8, i8); 6] = match self {
            Piece::O => [(0, 0), (0, 0), (0, 0), (0, 0), (0, 0), (0, 0)],
            Piece::I => match (rot, dir) {
                (Rotation::North, Spin::Cw) => [(1, 0), (2, 0), (-1, 0), (-1, -1), (2, 2), (1, 0)],
                (Rotation::North, Spin::Ccw) => [(0, -1), (-1, -1), (2, -1), (2, -2), (-1, 1), (0, -1)],
                (Rotation::North, Spin::Flip) => [(1, -1), (1, 0), (1, -1), (1, -1), (1, -1), (1, -1)],
                (Rotation::East, Spin::Cw) => [(0, -1), (-1, -1), (2, -1), (-1, 1), (2, -2), (0, -1)],
                (Rotation::East, Spin::Ccw) => [(-1, 0), (-2, 0), (1, 0), (-2, -2), (1, 1), (-1, 0)],
                (Rotation::East, Spin::Flip) => [(-1, -1), (0, -1), (-1, -1), (-1, -1), (-1, -1), (-1, -1)],
                (Rotation::South, Spin::Cw) => [(-1, 0), (1, 0), (-2, 0), (1, 1), (-2, -2), (-1, 0)],
                (Rotation::South, Spin::Ccw) => [(0, 1), (-2, 1), (1, 1), (-2, 2), (1, -1), (0, 1)],
                (Rotation::South, Spin::Flip) => [(-1, 1), (-1, 0), (-1, 1), (-1, 1), (-1, 1), (-1, 1)],
                (Rotation::West, Spin::Cw) => [(0, 1), (1, 1), (-2, 1), (1, -1), (-2, 2), (0, 1)],
                (Rotation::West, Spin::Ccw) => [(1, 0), (2, 0), (-1, 0), (2, 2), (-1, -1), (1, 0)],
                (Rotation::West, Spin::Flip) => [(1, 1), (0, 1), (1, 1), (1, 1), (1, 1), (1, 1)],
            },
            _ => match (rot, dir) {
                (Rotation::North, Spin::Cw) => [(0, 0), (-1, 0), (-1, 1), (0, -2), (-1, -2), (0, 0)],
                (Rotation::North, Spin::Ccw) => [(0, 0), (1, 0), (1, 1), (0, -2), (1, -2), (0, 0)],
                (Rotation::North, Spin::Flip) => [(0, 0), (0, 1), (1, 1), (-1, 1), (1, 0), (-1, 0)],
                (Rotation::East, Spin::Cw) => [(0, 0), (1, 0), (1, -1), (0, 2), (1, 2), (0, 0)],
                (Rotation::East, Spin::Ccw) => [(0, 0), (1, 0), (1, -1), (0, 2), (1, 2), (0, 0)],
                (Rotation::East, Spin::Flip) => [(0, 0), (1, 0), (1, 2), (1, 1), (0, 2), (0, 1)],
                (Rotation::South, Spin::Cw) => [(0, 0), (1, 0), (1, 1), (0, -2), (1, -2), (0, 0)],
                (Rotation::South, Spin::Ccw) => [(0, 0), (-1, 0), (-1, 1), (0, -2), (-1, -2), (0, 0)],
                (Rotation::South, Spin::Flip) => [(0, 0), (0, -1), (-1, -1), (1, -1), (-1, 0), (1, 0)],
                (Rotation::West, Spin::Cw) => [(0, 0), (-1, 0), (-1, -1), (0, 2), (-1, 2), (0, 0)],
                (Rotation::West, Spin::Ccw) => [(0, 0), (-1, 0), (-1, -1), (0, 2), (-1, 2), (0, 0)],
                (Rotation::West, Spin::Flip) => [(0, 0), (-1, 0), (-1, 2), (-1, 1), (0, 2), (0, 1)],
            },
        };
        assert forall|i: int| 0 <= i < 6 implies pair_view(#[trigger] r@[i]) == kick_table(self, rot, dir)[i] && -2 <= r@[i].0 <= 2 && -2 <= r@[i].1 <= 2 by {
            if i == 0 {} else if i == 1 {} else if i == 2 {} else if i == 3 {} else if i == 4 {} else {}
        }
        r
    }
}


/// A piece kind at an anchor position, in an orientation.
#[derive(Copy, Clone, Debug, PartialEq, Eq)]
pub struct PieceLocation {
    pub piece: Piece,
    pub pos: (i8, i8),
    pub rot: Rotation,
}

/// Anchor coordinates stay within this bound, so that adding a cell offset, a kick
/// (each at most 2 per axis) and a one-column shift never leaves `i8`.
pub open spec fn loc_in_range(loc: PieceLocation) -> bool {
    -120 <= loc.pos.0 <= 120 && -120 <= loc.pos.1 <= 120
}

/// Board cell `i` (of four) taken by a placement.
pub open spec fn placement_cell(loc: PieceLocation, i: int) -> (int, int) {
    let o = shape_offset(loc.piece, loc.rot, i);
    (o.0 + loc.pos.0, o.1 + loc.pos.1)
}

/// The four board cells taken by a placement.
pub open spec fn placement_cells(loc: PieceLocation) -> Seq<(int, int)> {
    Seq::new(4, |i: int| placement_cell(loc, i))
}

impl PieceLocation {
    /// The four board cells taken by this placement.
    pub fn blocks(&self) -> (r: [(i8, i8); 4])
        requires
            loc_in_range(*self),
        ensures
            forall|i: int| 0 <= i < 4 ==> pair_view(#[trigger] r@[i]) == placement_cell(*self, i),
    {
        self.translate_blocks(table_blocks(self.piece, self.rot))
    }

    fn translate(&self, c: (i8, i8)) -> (r: (i8, i8))
        requires
            loc_in_range(*self),
            -2 <= c.0 <= 2 && -2 <= c.1 <= 2,
        ensures
            pair_view(r) == (c.0 + self.pos.0, c.1 + self.pos.1),
    {
        (c.0 + self.pos.0, c.1 + self.pos.1)
    }

    fn translate_blocks(&self, cells: [(i8, i8); 4]) -> (r: [(i8, i8); 4])
        requires
            loc_in_range(*self),
            forall|i: int| 0 <= i < 4 ==> -2 <= #[trigger] cells@[i].0 <= 2 && -2 <= cells@[i].1 <= 2,
        ensures
            forall|i: int| 0 <= i < 4 ==> pair_view(#[trigger] r@[i]) == (cells@[i].0 + self.pos.0, cells@[i].1 + self.pos.1),
    {
        let r = [
            self.translate(cells[0]),
            self.translate(cells[1]),
            self.translate(cells[2]),
            self.translate(cells[3]),
        ];
        assert forall|i: int| 0 <= i < 4 implies pair_view(#[trigger] r@[i]) == (cells@[i].0 + self.pos.0, cells@[i].1 + self.pos.1) by {
            if i == 0 {} else if i == 1 {} else if i == 2 {} else {}
        }
        r
    }

    pub fn new(piece: Piece, pos: (i8, i8), rot: Rotation) -> (r: Self)
        ensures
            r == (PieceLocation { piece, pos, rot }),
    {
        Self { piece, rot, pos }
    }
}

} // verus!
