//! Squares, pieces and the board.
use vstd::prelude::*;

verus! {

/// A square as (row, column); on the board both lie in `0..8`.
pub type Pos = (i8, i8);

/// The six kinds of chess piece.
#[derive(PartialEq, Eq, Structural, Clone, Copy, Debug)]
pub enum PieceTypes {
    King,
    Queen,
    Rook,
    Bishop,
    Knight,
    Pawn,
}

/// One piece. `color` is `true` for white, `false` for black; `first_move`
/// holds until the piece has moved once.
#[derive(PartialEq, Eq, Structural, Clone, Copy, Debug)]
pub struct Piece {
    pub kind: PieceTypes,
    pub color: bool,
    pub first_move: bool,
}

pub open spec fn in_bounds(p: Pos) -> bool {
    0 <= p.0 < 8 && 0 <= p.1 < 8
}

/// Index of a square in the row-major list of 64 squares.
pub open spec fn idx(p: Pos) -> int {
    p.0 * 8 + p.1
}

/// Whether a square lies on the board.
pub fn is_valid_pos(pos: Pos) -> (r: bool)
    ensures
        r == in_bounds(pos),
{
    pos.0 < 8 && pos.0 >= 0 && pos.1 < 8 && pos.1 >= 0
}

impl Piece {
    /// A piece that has not moved yet.
    pub fn new(kind: PieceTypes, color: bool) -> (r: Piece)
        ensures
            r == (Piece { kind, color, first_move: true }),
    {
        Piece { kind, color, first_move: true }
    }

    pub fn color(&self) -> (r: bool)
        ensures
            r == self.color,
    {
        self.color
    }

    pub fn piece_type(&self) -> (r: PieceTypes)
        ensures
            r == self.kind,
    {
        self.kind
    }

    pub fn is_first_move(&self) -> (r: bool)
        ensures
            r == self.first_move,
    {
        self.first_move
    }

    /// Records that the piece has moved.
    pub fn move_piece(&mut self)
        ensures
            *final(self) == (Piece { first_move: false, ..*old(self) }),
    {
        self.first_move = false;
    }
}

/// What a square holds, by row and column.
pub open spec fn cell(b: Seq<Option<Piece>>, r: int, c: int) -> Option<Piece> {
    b[r * 8 + c]
}

/// `b` with the content of `from` moved to `to` (which it overwrites) and
/// `from` emptied; unchanged when the two squares are the same.
pub open spec fn relocate(b: Seq<Option<Piece>>, from: Pos, to: Pos) -> Seq<Option<Piece>> {
    if from != to {
        b.update(idx(to), b[idx(from)]).update(idx(from), None)
    } else {
        b
    }
}

/// The back rank of one side, from column 0 to column 7.
pub open spec fn back_rank_kind(c: int) -> PieceTypes {
    if c == 0 || c == 7 {
        PieceTypes::Rook
    } else if c == 1 || c == 6 {
        PieceTypes::Knight
    } else if c == 2 || c == 5 {
        PieceTypes::Bishop
    } else if c == 3 {
        PieceTypes::Queen
    } else {
        PieceTypes::King
    }
}

/// The standard starting position: black on rows 0 and 1, white on rows 6 and 7.
pub open spec fn initial_cell(r: int, c: int) -> Option<Piece> {
    if r == 0 || r == 7 {
        Some(Piece { kind: back_rank_kind(c), color: r == 7, first_move: true })
    } else if r == 1 || r == 6 {
        Some(Piece { kind: PieceTypes::Pawn, color: r == 6, first_move: true })
    } else {
        None
    }
}

/// An 8x8 board held as 64 squares in row-major order.
pub struct Board {
    pub cells: Vec<Option<Piece>>,
}

impl View for Board {
    type V = Seq<Option<Piece>>;

    open spec fn view(&self) -> Seq<Option<Piece>> {
        self.cells@
    }
}

impl Board {
    pub open spec fn wf(&self) -> bool {
        self.cells@.len() == 64
    }

    /// The standard starting position.
    pub fn new() -> (r: Board)
        ensures
            r.wf(),
            forall|p: Pos| in_bounds(p) ==> #[trigger] r@[idx(p)] == initial_cell(p.0 as int, p.1 as int),
    {
        let mut cells: Vec<Option<Piece>> = Vec::new();
        let mut r: i8 = 0;
        while r < 8
            invariant
                0 <= r <= 8,
                cells@.len() == r * 8,
                forall|i: int| 0 <= i < cells@.len() ==> #[trigger] cells@[i] == initial_cell(i / 8, i % 8),
            decreases 8 - r,
        {
            let mut c: i8 = 0;
            while c < 8
                invariant
                    0 <= r < 8,
                    0 <= c <= 8,
                    cells@.len() == r * 8 + c,
                    forall|i: int| 0 <= i < cells@.len() ==> #[trigger] cells@[i] == initial_cell(i / 8, i % 8),
                decreases 8 - c,
            {
                let v = if r == 0 || r == 7 {
                    let kind = if c == 0 || c == 7 {
                        PieceTypes::Rook
                    } else if c == 1 || c == 6 {
                        PieceTypes::Knight
                    } else if c == 2 || c == 5 {
                        PieceTypes::Bishop
                    } else if c == 3 {
                        PieceTypes::Queen
                    } else {
                        PieceTypes::King
                    };
                    Some(Piece::new(kind, r == 7))
                } else if r == 1 || r == 6 {
                    Some(Piece::new(PieceTypes::Pawn, r == 6))
                } else {
                    None
                };
                proof {
                    let i = r * 8 + c;
                    assert(i / 8 == r && i % 8 == c) by (nonlinear_arith)
                        requires i == r * 8 + c, 0 <= c < 8, 0 <= r;
                }
                cells.push(v);
                c = c + 1;
            }
            r = r + 1;
        }
        proof {
            assert forall|p: Pos| in_bounds(p) implies #[trigger] cells@[idx(p)] == initial_cell(p.0 as int, p.1 as int) by {
                let i = idx(p);
                assert(i / 8 == p.0 && i % 8 == p.1) by (nonlinear_arith)
                    requires i == p.0 * 8 + p.1, 0 <= p.1 < 8, 0 <= p.0;
            }
        }
        Board { cells }
    }

    /// What the square `p` holds.
    pub fn get(&self, p: Pos) -> (r: Option<Piece>)
        requires
            self.wf(),
            in_bounds(p),
        ensures
            r == self@[idx(p)],
    {
        self.cells[(p.0 as usize) * 8 + (p.1 as usize)]
    }

    /// Puts `v` on the square `p`.
    pub fn set(&mut self, p: Pos, v: Option<Piece>)
        requires
            old(self).wf(),
            in_bounds(p),
        ensures
            final(self).wf(),
            final(self)@ == old(self)@.update(idx(p), v),
    {
        self.cells.set((p.0 as usize) * 8 + (p.1 as usize), v);
    }

    /// A copy of the board with the piece on `from` moved to `to`; a plain
    /// copy when the two squares are the same.
    pub fn relocated(&self, from: Pos, to: Pos) -> (r: Board)
        requires
            self.wf(),
            from == to || (in_bounds(from) && in_bounds(to)),
        ensures
            r.wf(),
            r@ == relocate(self@, from, to),
    {
        let moving = from.0 != to.0 || from.1 != to.1;
        let mut fi: usize = 64;
        let mut ti: usize = 64;
        let mut moved: Option<Piece> = None;
        if moving {
            fi = (from.0 as usize) * 8 + (from.1 as usize);
            ti = (to.0 as usize) * 8 + (to.1 as usize);
            moved = self.cells[fi];
        }
        let mut cells: Vec<Option<Piece>> = Vec::new();
        let mut i: usize = 0;
        while i < 64
            invariant
                self.wf(),
                0 <= i <= 64,
                cells@.len() == i,
                moving == (from != to),
                from == to || (in_bounds(from) && in_bounds(to)),
                moving ==> fi == idx(from) && ti == idx(to) && moved == self@[idx(from)],
                forall|k: int| 0 <= k < i ==> #[trigger] cells@[k] == relocate(self@, from, to)[k],
            decreases 64 - i,
        {
            let v = if moving && i == fi {
                None
            } else if moving && i == ti {
                moved
            } else {
                self.cells[i]
            };
            cells.push(v);
            i = i + 1;
        }
        assert(cells@ =~= relocate(self@, from, to));
        Board { cells }
    }
}

} // verus!
