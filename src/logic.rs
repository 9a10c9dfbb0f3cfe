//! The game session: selection of a piece, legal moves, move application
//! with castling, en passant and promotion, and end-of-game tests.
use vstd::prelude::*;
use crate::piece::{Pos, Piece, PieceTypes, Board, in_bounds, idx, cell, initial_cell};
use crate::moves::{iabs, marks, can_reach};
use crate::king::{attacked, legal_target, has_legal_move, legal_moves, holds_king, can_castle, unmoved_rook};
use crate::history::{Snapshot, entries, keys_unique, recorded, snapshot_of, snapshot, record, bumped};

verus! {

/// The position that stands for "no square".
pub open spec fn no_square() -> Pos {
    (-1i8, -1i8)
}

/// The abstract state of a session.
pub struct GameState {
    /// The 64 squares, row by row.
    pub board: Seq<Option<Piece>>,
    /// The selected square, or `(-1, -1)`.
    pub selected: Pos,
    /// The legal destinations of the selected piece.
    pub moves: Seq<Pos>,
    /// The square open to capture en passant during this half-move.
    pub en_passant: Option<Pos>,
    pub black_king: Pos,
    pub white_king: Pos,
    /// A pawn of the selection reached its last row and waits for the
    /// choice of a piece.
    pub promotion_pending: bool,
    /// Each snapshot recorded since the last capture, with its count.
    pub history: Seq<(Seq<(u8, u8)>, u32)>,
    /// Half-moves since the last capture.
    pub since_capture: u32,
    /// The game is over: nothing may be selected or moved.
    pub stopped: bool,
}

/// Whether `c` holds a king of `color`.
pub open spec fn is_king_of(c: Option<Piece>, color: bool) -> bool {
    match c {
        Some(p) => p.kind == PieceTypes::King && p.color == color,
        None => false,
    }
}

/// The piece after its move: the same, but no longer on its first move.
pub open spec fn after_first(c: Option<Piece>) -> Option<Piece> {
    match c {
        Some(p) => Some(Piece { first_move: false, ..p }),
        None => None,
    }
}

/// The last row for a pawn of `color`.
pub open spec fn last_row(color: bool) -> int {
    if color { 0 } else { 7 }
}

/// Whether moving the piece on `from` to `to` is a pawn reaching its last row.
pub open spec fn is_promotion(b: Seq<Option<Piece>>, from: Pos, to: Pos) -> bool {
    let p = b[idx(from)].unwrap();
    p.kind == PieceTypes::Pawn && to.0 == last_row(p.color)
}

/// Whether moving the piece on `from` to `to` captures en passant: a pawn
/// moves diagonally onto the marked square, and the square beside `from` in
/// the column of `to` holds an enemy pawn, which is the one taken.
pub open spec fn is_en_passant(b: Seq<Option<Piece>>, from: Pos, to: Pos, ep: Option<Pos>) -> bool {
    let p = b[idx(from)].unwrap();
    &&& p.kind == PieceTypes::Pawn
    &&& to.1 != from.1
    &&& marks(ep, to.0 as int, to.1 as int)
    &&& match cell(b, from.0 as int, to.1 as int) {
        Some(q) => q.kind == PieceTypes::Pawn && q.color != p.color,
        None => false,
    }
}

/// Whether moving the piece on `from` to `to` is castling: an unmoved king
/// on column 4 moves two columns along its row.
pub open spec fn is_castling(b: Seq<Option<Piece>>, from: Pos, to: Pos) -> bool {
    let p = b[idx(from)].unwrap();
    p.kind == PieceTypes::King && p.first_move && from.1 == 4 && to.0 == from.0 && (to.1 == 6 || to.1 == 2)
}

/// Where the rook of a castling move to `to` starts.
pub open spec fn rook_from(to: Pos) -> Pos {
    if to.1 == 6 { (to.0, 7i8) } else { (to.0, 0i8) }
}

/// Where the rook of a castling move to `to` ends.
pub open spec fn rook_to(to: Pos) -> Pos {
    if to.1 == 6 { (to.0, 5i8) } else { (to.0, 3i8) }
}

/// The board after the piece on `from` moves to `to` (no promotion): a pawn
/// taken en passant leaves the board, the rook of a castling move jumps
/// over the king, and the mover replaces whatever stood on `to`.
pub open spec fn board_after(b: Seq<Option<Piece>>, from: Pos, to: Pos, ep: Option<Pos>) -> Seq<Option<Piece>> {
    let b1 = if is_en_passant(b, from, to, ep) {
        b.update(idx((from.0, to.1)), None)
    } else {
        b
    };
    let b2 = if is_castling(b, from, to) {
        b1.update(idx(rook_to(to)), after_first(b1[idx(rook_from(to))])).update(idx(rook_from(to)), None)
    } else {
        b1
    };
    b2.update(idx(to), after_first(b[idx(from)])).update(idx(from), None)
}

/// The en passant square after the piece on `from` moves to `to`: the
/// square passed over by a pawn's two-square advance, else none.
pub open spec fn marker_after(b: Seq<Option<Piece>>, from: Pos, to: Pos) -> Option<Pos> {
    if b[idx(from)].unwrap().kind == PieceTypes::Pawn && iabs(to.0 - from.0) == 2 {
        Some((((from.0 + to.0) / 2) as i8, from.1))
    } else {
        None
    }
}

/// The second piece that a move displaces, as (old square, new square),
/// with `(-1, -1)` as new square for a piece taken en passant.
pub open spec fn side_move(b: Seq<Option<Piece>>, from: Pos, to: Pos, ep: Option<Pos>) -> Option<(Pos, Pos)> {
    if is_en_passant(b, from, to, ep) {
        Some(((from.0, to.1), no_square()))
    } else if is_castling(b, from, to) {
        Some((rook_from(to), rook_to(to)))
    } else {
        None
    }
}

impl GameState {
    /// Where the king of `color` stands.
    pub open spec fn king_of(self, color: bool) -> Pos {
        if color { self.white_king } else { self.black_king }
    }

    pub open spec fn has_selection(self) -> bool {
        self.selected != no_square()
    }

    /// Whether `t` is a legal destination of the piece on `s`.
    pub open spec fn legal_from(self, s: Pos, t: Pos) -> bool {
        in_bounds(t) && legal_target(self.board, s, t, self.en_passant, self.king_of(self.board[idx(s)].unwrap().color))
    }

    /// One king of each colour, on the tracked squares; the kept
    /// destinations are exactly those of the selected piece; a waiting
    /// promotion belongs to a selected pawn; no snapshot is recorded twice.
    pub open spec fn wf(self) -> bool {
        &&& self.board.len() == 64
        &&& in_bounds(self.white_king)
        &&& in_bounds(self.black_king)
        &&& is_king_of(self.board[idx(self.white_king)], true)
        &&& is_king_of(self.board[idx(self.black_king)], false)
        &&& forall|p: Pos, color: bool|
            in_bounds(p) && #[trigger] is_king_of(self.board[idx(p)], color) ==> p == self.king_of(color)
        &&& self.has_selection() ==> {
            &&& in_bounds(self.selected)
            &&& self.board[idx(self.selected)] is Some
            &&& forall|t: Pos| self.moves.contains(t) <==> self.legal_from(self.selected, t)
        }
        &&& !self.has_selection() ==> self.moves.len() == 0 && !self.promotion_pending
        &&& self.promotion_pending ==> self.board[idx(self.selected)].unwrap().kind == PieceTypes::Pawn
        &&& keys_unique(self.history)
    }

    /// The state after the selected piece moves to `to` (no promotion).
    pub open spec fn after_move(self, to: Pos) -> GameState {
        let s = self.selected;
        let p = self.board[idx(s)].unwrap();
        let b = board_after(self.board, s, to, self.en_passant);
        let captured = self.board[idx(to)] is Some;
        GameState {
            board: b,
            selected: no_square(),
            moves: Seq::empty(),
            en_passant: marker_after(self.board, s, to),
            white_king: if p.kind == PieceTypes::King && p.color { to } else { self.white_king },
            black_king: if p.kind == PieceTypes::King && !p.color { to } else { self.black_king },
            promotion_pending: false,
            history: self.counted(captured, b).0,
            since_capture: self.counted(captured, b).1,
            stopped: self.stopped,
        }
    }

    /// The state after the pawn waiting on the selected square is replaced
    /// by a new piece of `kind` on `to`.
    pub open spec fn after_promotion(self, to: Pos, kind: PieceTypes) -> GameState {
        let s = self.selected;
        let p = self.board[idx(s)].unwrap();
        let b = self.board.update(idx(to), Some(Piece { kind, color: p.color, first_move: true })).update(
            idx(s),
            None,
        );
        let captured = self.board[idx(to)] is Some;
        GameState {
            board: b,
            selected: no_square(),
            moves: Seq::empty(),
            en_passant: None,
            promotion_pending: false,
            history: self.counted(captured, b).0,
            since_capture: self.counted(captured, b).1,
            ..self
        }
    }

    /// Whether a move to `to` may be applied: a piece is selected, no
    /// promotion waits, and `to` is one of its legal destinations.
    pub open spec fn may_move_to(self, to: Pos) -> bool {
        self.has_selection() && !self.promotion_pending && self.moves.contains(to)
    }

    /// Whether the game is drawn: 100 half-moves without a capture, or a
    /// snapshot seen three times.
    pub open spec fn drawn(self) -> bool {
        self.since_capture >= 100 || exists|i: int| 0 <= i < self.history.len() && #[trigger] self.history[i].1 >= 3
    }

    /// The history and the half-move count after a move that leaves the
    /// board `b`: a capture (the destination was occupied) clears both, any
    /// other move counts one more half-move and one more occurrence of the
    /// snapshot of `b`.
    pub open spec fn counted(self, captured: bool, b: Seq<Option<Piece>>) -> (Seq<(Seq<(u8, u8)>, u32)>, u32) {
        if captured {
            (Seq::empty(), 0u32)
        } else {
            (recorded(self.history, snapshot_of(b)), bumped(self.since_capture))
        }
    }
}

/// A legal move keeps one king of each colour, on the squares that the
/// state tracks.
proof fn lemma_kings_after_move(g: GameState, to: Pos)
    requires
        g.wf(),
        g.may_move_to(to),
        !is_promotion(g.board, g.selected, to),
    ensures
        ({
            let a = g.after_move(to);
            &&& a.board.len() == 64
            &&& in_bounds(a.white_king)
            &&& in_bounds(a.black_king)
            &&& is_king_of(a.board[idx(a.white_king)], true)
            &&& is_king_of(a.board[idx(a.black_king)], false)
            &&& forall|q: Pos, color: bool|
                in_bounds(q) && #[trigger] is_king_of(a.board[idx(q)], color) ==> q == a.king_of(color)
        }),
{
    let s = g.selected;
    let b = g.board;
    let p = b[idx(s)].unwrap();
    let a = g.after_move(to);
    assert(g.moves.contains(to));
    assert(g.legal_from(s, to));
    assert(!holds_king(b, to));
    if is_castling(b, s, to) {
        assert(!can_reach(b, s, to, g.en_passant));
        assert(can_castle(b, s, to, g.en_passant));
        assert(unmoved_rook(b, s.0 as int, rook_from(to).1 as int, p.color));
        assert(b[idx(rook_to(to))] is None);
    }
    assert(is_king_of(b[idx(g.white_king)], true));
    assert(is_king_of(b[idx(g.black_king)], false));
    assert forall|q: Pos, color: bool|
        in_bounds(q) && #[trigger] is_king_of(a.board[idx(q)], color) implies q == a.king_of(color) by {
        if q != to && q != s {
            assert(is_king_of(b[idx(q)], color));
            assert(q == g.king_of(color));
        }
    }
    if p.kind == PieceTypes::King {
        assert(is_king_of(b[idx(s)], p.color));
        assert(s == g.king_of(p.color));
    }
    assert(is_king_of(a.board[idx(a.white_king)], true));
    assert(is_king_of(a.board[idx(a.black_king)], false));
}

/// A promotion keeps one king of each colour, on the squares that the
/// state tracks.
proof fn lemma_kings_after_promotion(g: GameState, to: Pos, kind: PieceTypes)
    requires
        g.wf(),
        g.promotion_pending,
        g.moves.contains(to),
        kind != PieceTypes::King,
    ensures
        ({
            let a = g.after_promotion(to, kind);
            &&& a.board.len() == 64
            &&& is_king_of(a.board[idx(a.white_king)], true)
            &&& is_king_of(a.board[idx(a.black_king)], false)
            &&& forall|q: Pos, color: bool|
                in_bounds(q) && #[trigger] is_king_of(a.board[idx(q)], color) ==> q == a.king_of(color)
        }),
{
    let s = g.selected;
    let b = g.board;
    let a = g.after_promotion(to, kind);
    assert(g.legal_from(s, to));
    assert(!holds_king(b, to));
    assert(is_king_of(b[idx(g.white_king)], true));
    assert(is_king_of(b[idx(g.black_king)], false));
    assert forall|q: Pos, color: bool|
        in_bounds(q) && #[trigger] is_king_of(a.board[idx(q)], color) implies q == a.king_of(color) by {
        if q != to && q != s {
            assert(is_king_of(b[idx(q)], color));
        }
    }
}

/// A chess game in progress. The selection is `(-1, -1)` when no piece is
/// selected.
pub struct LogicManager {
    board: Board,
    curr_selected: Pos,
    possible_moves: Vec<Pos>,
    en_passant: Option<Pos>,
    black_king: Pos,
    white_king: Pos,
    promotion_pending: bool,
    history: Vec<(Snapshot, u32)>,
    since_capture: u32,
    stopped: bool,
}

impl View for LogicManager {
    type V = GameState;

    closed spec fn view(&self) -> GameState {
        GameState {
            board: self.board@,
            selected: self.curr_selected,
            moves: self.possible_moves@,
            en_passant: self.en_passant,
            black_king: self.black_king,
            white_king: self.white_king,
            promotion_pending: self.promotion_pending,
            history: entries(self.history@),
            since_capture: self.since_capture,
            stopped: self.stopped,
        }
    }
}

impl LogicManager {
    pub open spec fn wf(&self) -> bool {
        self@.wf()
    }

    /// A new game from the standard starting position.
    pub fn new() -> (r: LogicManager)
        ensures
            r.wf(),
            forall|p: Pos| in_bounds(p) ==> #[trigger] r@.board[idx(p)] == initial_cell(p.0 as int, p.1 as int),
            r@.selected == no_square(),
            r@.moves.len() == 0,
            r@.en_passant is None,
            r@.black_king == (0i8, 4i8),
            r@.white_king == (7i8, 4i8),
            !r@.promotion_pending,
            r@.history.len() == 0,
            r@.since_capture == 0,
            !r@.stopped,
    {
        let board = Board::new();
        let r = LogicManager {
            board,
            curr_selected: (-1, -1),
            possible_moves: Vec::new(),
            en_passant: None,
            black_king: (0, 4),
            white_king: (7, 4),
            promotion_pending: false,
            history: Vec::new(),
            since_capture: 0,
            stopped: false,
        };
        proof {
            assert(r@.board[idx((0i8, 4i8))] == initial_cell(0, 4));
            assert(r@.board[idx((7i8, 4i8))] == initial_cell(7, 4));
            assert forall|p: Pos, color: bool|
                in_bounds(p) && #[trigger] is_king_of(r@.board[idx(p)], color) implies p == r@.king_of(color) by {
                assert(r@.board[idx(p)] == initial_cell(p.0 as int, p.1 as int));
            }
            assert(entries(r.history@) =~= Seq::empty());
        }
        r
    }

    /// The board as it stands.
    pub fn get_board(&self) -> (r: &Board)
        ensures
            r@ == self@.board,
    {
        &self.board
    }

    fn copy_moves(v: &Vec<Pos>) -> (r: Vec<Pos>)
        ensures
            r@ == v@,
    {
        let mut out: Vec<Pos> = Vec::new();
        let mut i: usize = 0;
        while i < v.len()
            invariant
                0 <= i <= v@.len(),
                out@ == v@.subrange(0, i as int),
            decreases v@.len() - i,
        {
            out.push(v[i]);
            i = i + 1;
            assert(out@ =~= v@.subrange(0, i as int));
        }
        assert(v@.subrange(0, v@.len() as int) =~= v@);
        out
    }

    /// Selects the piece on `pos` and returns its legal destinations, which
    /// are kept for the move that follows; any earlier selection is dropped.
    /// Returns `None`, changing nothing, when the game is stopped or `pos`
    /// is empty.
    pub fn get_possible_moves(&mut self, pos: Pos) -> (r: Option<Vec<Pos>>)
        requires
            old(self).wf(),
            in_bounds(pos),
        ensures
            final(self).wf(),
            (match r {
                None => (old(self)@.stopped || old(self)@.board[idx(pos)] is None) && final(self)@ == old(self)@,
                Some(v) => {
                    &&& !old(self)@.stopped
                    &&& old(self)@.board[idx(pos)] is Some
                    &&& forall|t: Pos| v@.contains(t) <==> old(self)@.legal_from(pos, t)
                    &&& final(self)@ == (GameState {
                        selected: pos,
                        moves: v@,
                        promotion_pending: false,
                        ..old(self)@
                    })
                },
            }),
    {
        if self.stopped {
            return None;
        }
        match self.board.get(pos) {
            None => None,
            Some(p) => {
                let king_pos = if p.color { self.white_king } else { self.black_king };
                let moves = legal_moves(&self.board, pos, self.en_passant, king_pos);
                let out = Self::copy_moves(&moves);
                self.curr_selected = pos;
                self.possible_moves = moves;
                self.promotion_pending = false;
                Some(out)
            },
        }
    }

    /// Whether `pos` is among the destinations of the selected piece.
    pub fn is_in_possible_moves(&self, pos: Pos) -> (r: bool)
        ensures
            r == self@.moves.contains(pos),
    {
        let mut i: usize = 0;
        while i < self.possible_moves.len()
            invariant
                0 <= i <= self@.moves.len(),
                forall|k: int| 0 <= k < i ==> self@.moves[k] != pos,
            decreases self@.moves.len() - i,
        {
            let m = self.possible_moves[i];
            if m.0 == pos.0 && m.1 == pos.1 {
                assert(self@.moves[i as int] == pos);
                return true;
            }
            i = i + 1;
        }
        false
    }

    /// Drops the selection, its destinations and any pending promotion.
    pub fn clear_selection(&mut self)
        requires
            old(self).wf(),
        ensures
            final(self).wf(),
            final(self)@ == (GameState {
                selected: no_square(),
                moves: Seq::empty(),
                promotion_pending: false,
                ..old(self)@
            }),
    {
        self.curr_selected = (-1, -1);
        self.possible_moves = Vec::new();
        self.promotion_pending = false;
    }

    /// The colour of the piece on `pos`, if any.
    pub fn get_piece_color(&self, pos: Pos) -> (r: Option<bool>)
        requires
            self.wf(),
            in_bounds(pos),
        ensures
            r == (match self@.board[idx(pos)] {
                Some(p) => Some(p.color),
                None => None,
            }),
    {
        match self.board.get(pos) {
            Some(p) => Some(p.color),
            None => None,
        }
    }

    /// Whether a move may follow: the game goes on, a piece is selected and
    /// no promotion waits for its choice.
    pub fn can_move(&self) -> (r: bool)
        ensures
            r == (!self@.stopped && self@.has_selection() && !self@.promotion_pending),
    {
        !self.stopped && !(self.curr_selected.0 == -1 && self.curr_selected.1 == -1) && !self.promotion_pending
    }

    /// Whether a promotion waits for the choice of a piece.
    pub fn is_promotion_pending(&self) -> (r: bool)
        ensures
            r == self@.promotion_pending,
    {
        self.promotion_pending
    }

    /// Half-moves made since the last capture.
    pub fn moves_since_capture(&self) -> (r: u32)
        ensures
            r == self@.since_capture,
    {
        self.since_capture
    }

    /// Ends the game: no piece can be selected or moved after this.
    pub fn stop(&mut self)
        requires
            old(self).wf(),
        ensures
            final(self).wf(),
            final(self)@ == (GameState { stopped: true, ..old(self)@ }),
    {
        self.stopped = true;
    }

    /// Whether the king of `color` is attacked.
    pub fn is_check(&self, color: bool) -> (r: bool)
        requires
            self.wf(),
        ensures
            r == attacked(self@.board, self@.king_of(color), color, self@.en_passant),
    {
        let king_pos = if color { self.white_king } else { self.black_king };
        let king = Piece::new(PieceTypes::King, color);
        king.is_check(&self.board, (-1, -1), (-1, -1), self.en_passant, king_pos)
    }

    /// Whether no piece of `color` has a legal move (checkmate, or stalemate
    /// when the king is not attacked; `is_check` tells the two apart).
    pub fn is_checkmate(&self, color: bool) -> (r: bool)
        requires
            self.wf(),
        ensures
            r == !has_legal_move(self@.board, color, self@.en_passant, self@.king_of(color)),
    {
        let king_pos = if color { self.white_king } else { self.black_king };
        let king = Piece::new(PieceTypes::King, color);
        king.is_checkmate(&self.board, self.en_passant, king_pos)
    }

    /// Whether the game is drawn by the fifty-move rule (100 half-moves
    /// without a capture) or by a snapshot seen three times.
    pub fn is_draw(&self) -> (r: bool)
        ensures
            r == self@.drawn(),
    {
        if self.since_capture >= 100 {
            return true;
        }
        let mut i: usize = 0;
        while i < self.history.len()
            invariant
                0 <= i <= self.history@.len(),
                self@.history == entries(self.history@),
                forall|k: int| 0 <= k < i ==> self@.history[k].1 < 3,
            decreases self.history@.len() - i,
        {
            if self.history[i].1 >= 3 {
                assert(self@.history[i as int].1 >= 3);
                return true;
            }
            i = i + 1;
        }
        false
    }

    /// Moves the selected piece to `new_pos`, one of its legal destinations.
    /// A pawn reaching its last row is not moved: the promotion waits for
    /// `promote_pawn`. Otherwise the move is applied with its side effects
    /// (en passant capture, the rook of a castling move, the en passant
    /// square, the kings' squares, the draw counters) and the second piece
    /// displaced, if any, is returned. A move counts as a capture for the
    /// draw counters when its destination was occupied. Nothing happens once
    /// the game is stopped.
    pub fn move_piece(&mut self, new_pos: Pos) -> (r: Option<(Pos, Pos)>)
        requires
            old(self).wf(),
            old(self)@.stopped || old(self)@.may_move_to(new_pos),
        ensures
            final(self).wf(),
            old(self)@.stopped ==> r is None && final(self)@ == old(self)@,
            !old(self)@.stopped && is_promotion(old(self)@.board, old(self)@.selected, new_pos) ==> r is None
                && final(self)@ == (GameState { promotion_pending: true, ..old(self)@ }),
            !old(self)@.stopped && !is_promotion(old(self)@.board, old(self)@.selected, new_pos) ==> r == side_move(
                old(self)@.board,
                old(self)@.selected,
                new_pos,
                old(self)@.en_passant,
            ) && final(self)@ == old(self)@.after_move(new_pos),
    {
        if self.stopped {
            return None;
        }
        let ghost g = self@;
        let from = self.curr_selected;
        proof {
            assert(g.moves.contains(new_pos));
            assert(g.legal_from(from, new_pos));
        }
        let p = match self.board.get(from) {
            Some(p) => p,
            None => {
                return None;
            },
        };
        let last: i8 = if p.color { 0 } else { 7 };
        if p.kind == PieceTypes::Pawn && new_pos.0 == last {
            self.promotion_pending = true;
            return None;
        }
        let mut side: Option<(Pos, Pos)> = None;
        let on_mark = match self.en_passant {
            Some(e) => e.0 == new_pos.0 && e.1 == new_pos.1,
            None => false,
        };
        if p.kind == PieceTypes::Pawn && new_pos.1 != from.1 && on_mark {
            let beside = (from.0, new_pos.1);
            let taken = match self.board.get(beside) {
                Some(q) => q.kind == PieceTypes::Pawn && q.color != p.color,
                None => false,
            };
            if taken {
                self.board.set(beside, None);
                side = Some((beside, (-1, -1)));
            }
        }
        if p.kind == PieceTypes::King && p.first_move && from.1 == 4 && new_pos.0 == from.0 && (new_pos.1 == 6
            || new_pos.1 == 2) {
            let rf: Pos = if new_pos.1 == 6 { (from.0, 7) } else { (from.0, 0) };
            let rt: Pos = if new_pos.1 == 6 { (from.0, 5) } else { (from.0, 3) };
            let rook = match self.board.get(rf) {
                Some(q) => {
                    let mut q = q;
                    q.move_piece();
                    Some(q)
                },
                None => None,
            };
            self.board.set(rt, rook);
            self.board.set(rf, None);
            side = Some((rf, rt));
        }
        if p.kind == PieceTypes::King {
            if p.color {
                self.white_king = new_pos;
            } else {
                self.black_king = new_pos;
            }
        }
        self.en_passant = if p.kind == PieceTypes::Pawn && (new_pos.0 - from.0 == 2 || from.0 - new_pos.0 == 2) {
            Some(((from.0 + new_pos.0) / 2, from.1))
        } else {
            None
        };
        let captured = self.board.get(new_pos).is_some();
        let mut mover = p;
        mover.move_piece();
        self.board.set(new_pos, Some(mover));
        self.board.set(from, None);
        self.curr_selected = (-1, -1);
        self.possible_moves = Vec::new();
        if captured {
            self.since_capture = 0;
            self.history = Vec::new();
        } else {
            if self.since_capture < u32::MAX {
                self.since_capture = self.since_capture + 1;
            }
            let snap = snapshot(&self.board);
            record(&mut self.history, snap);
        }
        proof {
            lemma_kings_after_move(g, new_pos);
            assert(self@.board =~= board_after(g.board, from, new_pos, g.en_passant));
            assert(entries(self.history@) =~= g.after_move(new_pos).history);
            assert(self@ == g.after_move(new_pos));
        }
        side
    }

    /// Completes a waiting promotion: the pawn on the selected square is
    /// replaced by a new piece of `kind`, of its colour, on `new_pos`.
    /// Returns `false`, changing nothing, when `kind` is a king or a pawn.
    pub fn promote_pawn(&mut self, new_pos: Pos, kind: PieceTypes) -> (r: bool)
        requires
            old(self).wf(),
            old(self)@.promotion_pending,
            old(self)@.moves.contains(new_pos),
        ensures
            final(self).wf(),
            r == (kind != PieceTypes::King && kind != PieceTypes::Pawn),
            !r ==> final(self)@ == old(self)@,
            r ==> final(self)@ == old(self)@.after_promotion(new_pos, kind),
    {
        if kind == PieceTypes::King || kind == PieceTypes::Pawn {
            return false;
        }
        let ghost g = self@;
        let from = self.curr_selected;
        proof {
            assert(g.legal_from(from, new_pos));
            lemma_kings_after_promotion(g, new_pos, kind);
        }
        let p = match self.board.get(from) {
            Some(p) => p,
            None => {
                return false;
            },
        };
        let captured = self.board.get(new_pos).is_some();
        self.board.set(new_pos, Some(Piece::new(kind, p.color)));
        self.board.set(from, None);
        self.curr_selected = (-1, -1);
        self.possible_moves = Vec::new();
        self.promotion_pending = false;
        self.en_passant = None;
        if captured {
            self.since_capture = 0;
            self.history = Vec::new();
        } else {
            if self.since_capture < u32::MAX {
                self.since_capture = self.since_capture + 1;
            }
            let snap = snapshot(&self.board);
            record(&mut self.history, snap);
        }
        proof {
            assert(entries(self.history@) =~= g.after_promotion(new_pos, kind).history);
            assert(self@ == g.after_promotion(new_pos, kind));
        }
        true
    }
}

} // verus!
