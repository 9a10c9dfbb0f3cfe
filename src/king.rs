//! Check detection and legal moves: a move is legal when it is reachable and
//! leaves the mover's king unattacked; castling adds its own conditions.
use vstd::prelude::*;
use crate::piece::{Pos, Piece, PieceTypes, Board, in_bounds, idx, cell, relocate};
use crate::moves::{can_reach, reaches};

verus! {

/// Whether a piece whose colour is not `color` reaches `t`.
pub open spec fn attacked(b: Seq<Option<Piece>>, t: Pos, color: bool, ep: Option<Pos>) -> bool {
    exists|s: Pos| #[trigger] can_reach(b, s, t, ep) && b[idx(s)].unwrap().color != color
}

/// Whether `(row, col)` holds a rook of `color` that has never moved.
pub open spec fn unmoved_rook(b: Seq<Option<Piece>>, row: int, col: int, color: bool) -> bool {
    match cell(b, row, col) {
        Some(q) => q.kind == PieceTypes::Rook && q.color == color && q.first_move,
        None => false,
    }
}

/// Whether the king of `color` on `s` would be attacked after moving to `t`.
pub open spec fn unsafe_for_king(b: Seq<Option<Piece>>, s: Pos, t: Pos, color: bool, ep: Option<Pos>) -> bool {
    attacked(relocate(b, s, t), t, color, ep)
}

/// Castling of the king on `s` to `t`: the king has never moved, stands on
/// column 4 and is not attacked; to column 6 the squares of columns 5 and 6
/// are empty and neither is attacked, and an unmoved rook of its colour
/// stands on column 7; to column 2 the squares of columns 1, 2 and 3 are
/// empty, those of columns 2 and 3 are not attacked, and an unmoved rook
/// stands on column 0.
pub open spec fn can_castle(b: Seq<Option<Piece>>, s: Pos, t: Pos, ep: Option<Pos>) -> bool {
    match b[idx(s)] {
        Some(k) => {
            &&& in_bounds(s)
            &&& k.kind == PieceTypes::King
            &&& k.first_move
            &&& s.1 == 4
            &&& t.0 == s.0
            &&& !attacked(b, s, k.color, ep)
            &&& {
                ||| {
                    &&& t.1 == 6
                    &&& cell(b, s.0 as int, 5) is None
                    &&& cell(b, s.0 as int, 6) is None
                    &&& !unsafe_for_king(b, s, (s.0, 5i8), k.color, ep)
                    &&& !unsafe_for_king(b, s, t, k.color, ep)
                    &&& unmoved_rook(b, s.0 as int, 7, k.color)
                }
                ||| {
                    &&& t.1 == 2
                    &&& cell(b, s.0 as int, 1) is None
                    &&& cell(b, s.0 as int, 2) is None
                    &&& cell(b, s.0 as int, 3) is None
                    &&& !unsafe_for_king(b, s, (s.0, 3i8), k.color, ep)
                    &&& !unsafe_for_king(b, s, t, k.color, ep)
                    &&& unmoved_rook(b, s.0 as int, 0, k.color)
                }
            }
        },
        None => false,
    }
}

/// Whether the piece on `s` may legally move to `t`, where `kp` is where
/// the king of its colour stands: the move is reachable and leaves that king
/// unattacked (for the king itself, on `t`), or it is castling; and `t` does
/// not hold a king.
pub open spec fn legal_target(b: Seq<Option<Piece>>, s: Pos, t: Pos, ep: Option<Pos>, kp: Pos) -> bool {
    match b[idx(s)] {
        Some(p) => !holds_king(b, t) && if p.kind == PieceTypes::King {
            (can_reach(b, s, t, ep) && !unsafe_for_king(b, s, t, p.color, ep)) || can_castle(b, s, t, ep)
        } else {
            can_reach(b, s, t, ep) && !attacked(relocate(b, s, t), kp, p.color, ep)
        },
        None => false,
    }
}

/// Whether `t` holds a king; no move may take one.
pub open spec fn holds_king(b: Seq<Option<Piece>>, t: Pos) -> bool {
    match b[idx(t)] {
        Some(q) => q.kind == PieceTypes::King,
        None => false,
    }
}

/// Whether a piece of `color` has a legal move.
pub open spec fn has_legal_move(b: Seq<Option<Piece>>, color: bool, ep: Option<Pos>, kp: Pos) -> bool {
    exists|s: Pos, t: Pos|
        #![trigger legal_target(b, s, t, ep, kp)]
        in_bounds(s) && in_bounds(t) && b[idx(s)] is Some && b[idx(s)].unwrap().color == color
            && legal_target(b, s, t, ep, kp)
}

/// Whether a piece whose colour is not `color` reaches `t`.
pub fn square_attacked(board: &Board, t: Pos, color: bool, ep: Option<Pos>) -> (r: bool)
    requires
        board.wf(),
        in_bounds(t),
    ensures
        r == attacked(board@, t, color, ep),
{
    let mut row: i8 = 0;
    while row < 8
        invariant
            board.wf(),
            in_bounds(t),
            0 <= row <= 8,
            forall|s: Pos|
                #![trigger can_reach(board@, s, t, ep)]
                s.0 < row ==> !(can_reach(board@, s, t, ep) && board@[idx(s)].unwrap().color != color),
        decreases 8 - row,
    {
        let mut col: i8 = 0;
        while col < 8
            invariant
                board.wf(),
                in_bounds(t),
                0 <= row < 8,
                0 <= col <= 8,
                forall|s: Pos|
                    #![trigger can_reach(board@, s, t, ep)]
                    (s.0 < row || (s.0 == row && s.1 < col)) ==> !(can_reach(board@, s, t, ep)
                        && board@[idx(s)].unwrap().color != color),
            decreases 8 - col,
        {
            if let Some(p) = board.get((row, col)) {
                if p.color != color && reaches(board, (row, col), t, ep) {
                    assert(can_reach(board@, (row, col), t, ep));
                    return true;
                }
            }
            col = col + 1;
        }
        row = row + 1;
    }
    false
}

impl Piece {
    /// Whether the king of this piece's colour, standing on `king_pos`, is
    /// attacked once the piece on `orig_pos` has moved to `dest_pos`; with
    /// `orig_pos == dest_pos` nothing moves (`(-1, -1)` twice is the usual
    /// way to ask about the board as it stands).
    pub fn is_check(&self, board: &Board, orig_pos: Pos, dest_pos: Pos, en_passant: Option<Pos>, king_pos: Pos) -> (r: bool)
        requires
            board.wf(),
            in_bounds(king_pos),
            orig_pos == dest_pos || (in_bounds(orig_pos) && in_bounds(dest_pos)),
        ensures
            r == attacked(relocate(board@, orig_pos, dest_pos), king_pos, self.color, en_passant),
    {
        let copy = board.relocated(orig_pos, dest_pos);
        square_attacked(&copy, king_pos, self.color, en_passant)
    }

    /// Whether no piece of this piece's colour has a legal move, where
    /// `king_pos` is where the king of that colour stands. This holds at
    /// checkmate and at stalemate alike.
    pub fn is_checkmate(&self, board: &Board, en_passant: Option<Pos>, king_pos: Pos) -> (r: bool)
        requires
            board.wf(),
            in_bounds(king_pos),
        ensures
            r == !has_legal_move(board@, self.color, en_passant, king_pos),
    {
        let mut row: i8 = 0;
        while row < 8
            invariant
                board.wf(),
                in_bounds(king_pos),
                0 <= row <= 8,
                forall|s: Pos, t: Pos|
                    #![trigger legal_target(board@, s, t, en_passant, king_pos)]
                    in_bounds(s) && in_bounds(t) && s.0 < row && board@[idx(s)] is Some
                        && board@[idx(s)].unwrap().color == self.color
                        ==> !legal_target(board@, s, t, en_passant, king_pos),
            decreases 8 - row,
        {
            let mut col: i8 = 0;
            while col < 8
                invariant
                    board.wf(),
                    in_bounds(king_pos),
                    0 <= row < 8,
                    0 <= col <= 8,
                    forall|s: Pos, t: Pos|
                        #![trigger legal_target(board@, s, t, en_passant, king_pos)]
                        in_bounds(s) && in_bounds(t) && (s.0 < row || (s.0 == row && s.1 < col))
                            && board@[idx(s)] is Some && board@[idx(s)].unwrap().color == self.color
                            ==> !legal_target(board@, s, t, en_passant, king_pos),
                decreases 8 - col,
            {
                if let Some(p) = board.get((row, col)) {
                    if p.color == self.color {
                        let mv = legal_moves(board, (row, col), en_passant, king_pos);
                        if mv.len() > 0 {
                            assert(mv@.contains(mv@[0]));
                            assert(legal_target(board@, (row, col), mv@[0], en_passant, king_pos));
                            return false;
                        }
                        assert forall|t: Pos| in_bounds(t) implies !legal_target(board@, (row, col), t, en_passant, king_pos) by {
                            if legal_target(board@, (row, col), t, en_passant, king_pos) {
                                assert(mv@.contains(t));
                            }
                        }
                    }
                }
                col = col + 1;
            }
            row = row + 1;
        }
        true
    }
}

/// Whether the king on `s` may castle to `t`.
fn castle_ok(board: &Board, s: Pos, t: Pos, ep: Option<Pos>) -> (r: bool)
    requires
        board.wf(),
        in_bounds(s),
        in_bounds(t),
    ensures
        r == can_castle(board@, s, t, ep),
{
    let k = match board.get(s) {
        Some(k) => k,
        None => {
            return false;
        },
    };
    if !(k.kind == PieceTypes::King && k.first_move && s.1 == 4 && t.0 == s.0) {
        return false;
    }
    if k.is_check(board, s, s, ep, s) {
        return false;
    }
    if t.1 == 6 {
        board.get((s.0, 5)).is_none() && board.get((s.0, 6)).is_none()
            && !k.is_check(board, s, (s.0, 5), ep, (s.0, 5))
            && !k.is_check(board, s, t, ep, t)
            && match board.get((s.0, 7)) {
                Some(q) => q.kind == PieceTypes::Rook && q.color == k.color && q.first_move,
                None => false,
            }
    } else if t.1 == 2 {
        board.get((s.0, 1)).is_none() && board.get((s.0, 2)).is_none() && board.get((s.0, 3)).is_none()
            && !k.is_check(board, s, (s.0, 3), ep, (s.0, 3))
            && !k.is_check(board, s, t, ep, t)
            && match board.get((s.0, 0)) {
                Some(q) => q.kind == PieceTypes::Rook && q.color == k.color && q.first_move,
                None => false,
            }
    } else {
        false
    }
}

/// Whether the piece on `s` may legally move to `t`.
fn is_legal_target(board: &Board, s: Pos, t: Pos, ep: Option<Pos>, kp: Pos) -> (r: bool)
    requires
        board.wf(),
        in_bounds(s),
        in_bounds(t),
        in_bounds(kp),
    ensures
        r == legal_target(board@, s, t, ep, kp),
{
    let p = match board.get(s) {
        Some(p) => p,
        None => {
            return false;
        },
    };
    let takes_king = match board.get(t) {
        Some(q) => q.kind == PieceTypes::King,
        None => false,
    };
    if takes_king {
        false
    } else if p.kind == PieceTypes::King {
        (reaches(board, s, t, ep) && !p.is_check(board, s, t, ep, t)) || castle_ok(board, s, t, ep)
    } else {
        reaches(board, s, t, ep) && !p.is_check(board, s, t, ep, kp)
    }
}

proof fn lemma_push_contains(s: Seq<Pos>, x: Pos)
    ensures
        forall|t: Pos| s.push(x).contains(t) <==> (s.contains(t) || t == x),
{
    assert forall|t: Pos| s.push(x).contains(t) <==> (s.contains(t) || t == x) by {
        if t == x {
            assert(s.push(x)[s.len() as int] == t);
        }
        if s.contains(t) {
            let i = choose|i: int| 0 <= i < s.len() && s[i] == t;
            assert(s.push(x)[i] == t);
        }
        if s.push(x).contains(t) {
            let i = choose|i: int| 0 <= i < s.push(x).len() && s.push(x)[i] == t;
            if i < s.len() {
                assert(s[i] == t);
            }
        }
    }
}

/// Every square that the piece on `pos` reaches by its movement pattern,
/// without regard to its own king: the attack map of that piece.
pub fn attack_map(board: &Board, pos: Pos, en_passant: Option<Pos>) -> (r: Vec<Pos>)
    requires
        board.wf(),
        in_bounds(pos),
    ensures
        forall|t: Pos| r@.contains(t) <==> can_reach(board@, pos, t, en_passant),
        forall|i: int| 0 <= i < r@.len() ==> in_bounds(#[trigger] r@[i]),
        r@.no_duplicates(),
{
    let mut out: Vec<Pos> = Vec::new();
    let mut row: i8 = 0;
    while row < 8
        invariant
            board.wf(),
            in_bounds(pos),
            0 <= row <= 8,
            forall|t: Pos| out@.contains(t) <==> (in_bounds(t) && t.0 < row && can_reach(board@, pos, t, en_passant)),
            forall|i: int| 0 <= i < out@.len() ==> in_bounds(#[trigger] out@[i]) && out@[i].0 < row,
            out@.no_duplicates(),
        decreases 8 - row,
    {
        let mut col: i8 = 0;
        while col < 8
            invariant
                board.wf(),
                in_bounds(pos),
                0 <= row < 8,
                0 <= col <= 8,
                forall|t: Pos|
                    out@.contains(t) <==> (in_bounds(t) && (t.0 < row || (t.0 == row && t.1 < col)) && can_reach(
                        board@,
                        pos,
                        t,
                        en_passant,
                    )),
                forall|i: int|
                    0 <= i < out@.len() ==> in_bounds(#[trigger] out@[i]) && (out@[i].0 < row || (
                    out@[i].0 == row && out@[i].1 < col)),
                out@.no_duplicates(),
            decreases 8 - col,
        {
            if reaches(board, pos, (row, col), en_passant) {
                proof {
                    lemma_push_contains(out@, (row, col));
                }
                out.push((row, col));
            }
            col = col + 1;
        }
        row = row + 1;
    }
    out
}

/// Every square to which the piece on `pos` may legally move, where
/// `king_pos` is where the king of its colour stands.
pub fn legal_moves(board: &Board, pos: Pos, en_passant: Option<Pos>, king_pos: Pos) -> (r: Vec<Pos>)
    requires
        board.wf(),
        in_bounds(pos),
        in_bounds(king_pos),
    ensures
        forall|t: Pos| r@.contains(t) <==> in_bounds(t) && legal_target(board@, pos, t, en_passant, king_pos),
        forall|i: int| 0 <= i < r@.len() ==> in_bounds(#[trigger] r@[i]),
        r@.no_duplicates(),
{
    let mut out: Vec<Pos> = Vec::new();
    let mut row: i8 = 0;
    while row < 8
        invariant
            board.wf(),
            in_bounds(pos),
            in_bounds(king_pos),
            0 <= row <= 8,
            forall|t: Pos|
                out@.contains(t) <==> (in_bounds(t) && t.0 < row && legal_target(board@, pos, t, en_passant, king_pos)),
            forall|i: int| 0 <= i < out@.len() ==> in_bounds(#[trigger] out@[i]) && out@[i].0 < row,
            out@.no_duplicates(),
        decreases 8 - row,
    {
        let mut col: i8 = 0;
        while col < 8
            invariant
                board.wf(),
                in_bounds(pos),
                in_bounds(king_pos),
                0 <= row < 8,
                0 <= col <= 8,
                forall|t: Pos|
                    out@.contains(t) <==> (in_bounds(t) && (t.0 < row || (t.0 == row && t.1 < col))
                        && legal_target(board@, pos, t, en_passant, king_pos)),
                forall|i: int|
                    0 <= i < out@.len() ==> in_bounds(#[trigger] out@[i]) && (out@[i].0 < row || (
                    out@[i].0 == row && out@[i].1 < col)),
                out@.no_duplicates(),
            decreases 8 - col,
        {
            if is_legal_target(board, pos, (row, col), en_passant, king_pos) {
                proof {
                    lemma_push_contains(out@, (row, col));
                }
                out.push((row, col));
            }
            col = col + 1;
        }
        row = row + 1;
    }
    out
}

} // verus!
