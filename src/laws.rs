//! Properties of the rules that relate several steps of a game.
use vstd::prelude::*;
use crate::piece::{Pos, Piece, PieceTypes, in_bounds, idx, cell, relocate};
use crate::moves::{can_reach, iabs, marks, sgn, shift, orthogonal, diagonal, path_clear};
use crate::king::{attacked, can_castle, unsafe_for_king, unmoved_rook, holds_king};
use crate::history::{snapshot_of, bumped};
use crate::logic::{GameState, is_castling, is_en_passant, is_promotion, rook_from, rook_to, board_after, marker_after, is_king_of};

verus! {

/// Castling is offered only when the king and the rook have never moved,
/// the squares between them are empty, and the king is attacked neither
/// where it stands nor on the squares it crosses and reaches.
pub proof fn lemma_castling_offered(g: GameState, to: Pos)
    requires
        g.wf(),
        g.may_move_to(to),
        is_castling(g.board, g.selected, to),
    ensures
        ({
            let s = g.selected;
            let k = g.board[idx(s)].unwrap();
            &&& k.first_move
            &&& unmoved_rook(g.board, s.0 as int, rook_from(to).1 as int, k.color)
            &&& !attacked(g.board, s, k.color, g.en_passant)
            &&& !unsafe_for_king(g.board, s, to, k.color, g.en_passant)
            &&& !unsafe_for_king(g.board, s, rook_to(to), k.color, g.en_passant)
            &&& to.1 == 6 ==> cell(g.board, s.0 as int, 5) is None && cell(g.board, s.0 as int, 6) is None
            &&& to.1 == 2 ==> cell(g.board, s.0 as int, 1) is None && cell(g.board, s.0 as int, 2) is None
                && cell(g.board, s.0 as int, 3) is None
        }),
{
    let s = g.selected;
    assert(g.moves.contains(to));
    assert(g.legal_from(s, to));
    assert(!can_reach(g.board, s, to, g.en_passant));
    assert(can_castle(g.board, s, to, g.en_passant));
}

/// After castling the king stands on its destination and the rook on the
/// square the king crossed, both marked as moved, and their starting
/// squares are empty.
pub proof fn lemma_castling_result(g: GameState, to: Pos)
    requires
        g.wf(),
        g.may_move_to(to),
        is_castling(g.board, g.selected, to),
    ensures
        ({
            let s = g.selected;
            let k = g.board[idx(s)].unwrap();
            let a = g.after_move(to);
            &&& a.board[idx(to)] == Some(Piece { kind: PieceTypes::King, color: k.color, first_move: false })
            &&& a.board[idx(rook_to(to))] == Some(Piece { kind: PieceTypes::Rook, color: k.color, first_move: false })
            &&& a.board[idx(s)] is None
            &&& a.board[idx(rook_from(to))] is None
            &&& a.king_of(k.color) == to
        }),
{
    let s = g.selected;
    assert(g.moves.contains(to));
    assert(g.legal_from(s, to));
    assert(!can_reach(g.board, s, to, g.en_passant));
    assert(can_castle(g.board, s, to, g.en_passant));
    assert(!is_en_passant(g.board, s, to, g.en_passant));
}

/// The en passant square exists only right after a pawn's two-square
/// advance, and is the square it passed over; after any other move no
/// capture en passant is possible.
pub proof fn lemma_en_passant_window(g: GameState, to: Pos)
    requires
        g.wf(),
        g.may_move_to(to),
        !is_promotion(g.board, g.selected, to),
    ensures
        ({
            let s = g.selected;
            let p = g.board[idx(s)].unwrap();
            let a = g.after_move(to);
            &&& (p.kind == PieceTypes::Pawn && iabs(to.0 - s.0) == 2) ==> a.en_passant == Some(
                ((((s.0 + to.0) / 2) as i8, s.1)),
            )
            &&& !(p.kind == PieceTypes::Pawn && iabs(to.0 - s.0) == 2) ==> a.en_passant is None
                && forall|x: Pos, y: Pos| !#[trigger] is_en_passant(a.board, x, y, a.en_passant)
        }),
{
}

/// A promotion to a queen leaves a queen of the pawn's colour on the
/// destination and empties the pawn's square.
pub proof fn lemma_promotion_to_queen(g: GameState, to: Pos)
    requires
        g.wf(),
        g.promotion_pending,
        g.moves.contains(to),
    ensures
        ({
            let s = g.selected;
            let a = g.after_promotion(to, PieceTypes::Queen);
            &&& a.board[idx(to)] == Some(
                Piece { kind: PieceTypes::Queen, color: g.board[idx(s)].unwrap().color, first_move: true },
            )
            &&& a.board[idx(s)] is None
            &&& !a.promotion_pending
        }),
{
    assert(g.legal_from(g.selected, to));
    assert(in_bounds(to));
}

/// A move that does not capture and brings back a snapshot already
/// recorded twice makes the game drawn.
pub proof fn lemma_threefold_repetition(g: GameState, to: Pos, i: int)
    requires
        g.wf(),
        g.may_move_to(to),
        !is_promotion(g.board, g.selected, to),
        g.board[idx(to)] is None,
        0 <= i < g.history.len(),
        g.history[i].0 == snapshot_of(board_after(g.board, g.selected, to, g.en_passant)),
        g.history[i].1 == 2,
    ensures
        g.after_move(to).drawn(),
{
    let key = snapshot_of(board_after(g.board, g.selected, to, g.en_passant));
    let a = g.after_move(to);
    let j = choose|j: int| 0 <= j < g.history.len() && g.history[j].0 == key;
    assert(j == i);
    assert(a.history[i].1 == bumped(2u32));
    assert(a.history[i].1 >= 3);
}

/// The hundredth half-move in a row without a capture makes the game
/// drawn; a capture sets the count back to zero.
pub proof fn lemma_fifty_moves(g: GameState, to: Pos)
    requires
        g.wf(),
        g.may_move_to(to),
        !is_promotion(g.board, g.selected, to),
    ensures
        g.board[idx(to)] is None && g.since_capture == 99 ==> g.after_move(to).drawn(),
        g.board[idx(to)] is Some ==> g.after_move(to).since_capture == 0,
{
}

/// The colour on a square, if it is occupied.
spec fn color_at(o: Option<Piece>) -> Option<bool> {
    match o {
        Some(p) => Some(p.color),
        None => None,
    }
}

/// The `j`-th square on the way from `x` toward `t`.
spec fn step_row(x: Pos, t: Pos, j: int) -> int {
    x.0 + shift(sgn(t.0 - x.0), j)
}

spec fn step_col(x: Pos, t: Pos, j: int) -> int {
    x.1 + shift(sgn(t.1 - x.1), j)
}

spec fn span(x: Pos, t: Pos) -> int {
    if iabs(t.0 - x.0) > iabs(t.1 - x.1) { iabs(t.0 - x.0) } else { iabs(t.1 - x.1) }
}

/// Every square strictly between `x` and `t` that is empty in `b1` is empty
/// in `b2`, when the two squares lie on one line.
spec fn clearer_between(b1: Seq<Option<Piece>>, b2: Seq<Option<Piece>>, x: Pos, t: Pos) -> bool {
    (orthogonal(t.0 - x.0, t.1 - x.1) || diagonal(t.0 - x.0, t.1 - x.1)) ==> forall|j: int|
        0 < j < span(x, t) ==> (#[trigger] cell(b1, step_row(x, t, j), step_col(x, t, j)) is None ==> cell(
            b2,
            step_row(x, t, j),
            step_col(x, t, j),
        ) is None)
}

/// A piece that reaches `t` on `b1` reaches it on `b2` as well, when the
/// two boards agree on that piece and on the colour on `t`, and `b2` is
/// no more crowded between them.
proof fn lemma_reach_transfer(
    b1: Seq<Option<Piece>>,
    b2: Seq<Option<Piece>>,
    x: Pos,
    t: Pos,
    e1: Option<Pos>,
    e2: Option<Pos>,
)
    requires
        b1.len() == 64,
        b2.len() == 64,
        in_bounds(x),
        in_bounds(t),
        b1[idx(x)] == b2[idx(x)],
        color_at(b1[idx(t)]) == color_at(b2[idx(t)]),
        clearer_between(b1, b2, x, t),
        marks(e1, t.0 as int, t.1 as int) ==> marks(e2, t.0 as int, t.1 as int),
        can_reach(b1, x, t, e1),
    ensures
        can_reach(b2, x, t, e2),
{
    let p = b1[idx(x)].unwrap();
    let (sr, sc, tr, tc) = (x.0 as int, x.1 as int, t.0 as int, t.1 as int);
    assert(cell(b1, tr, tc) == b1[idx(t)]);
    assert(cell(b2, tr, tc) == b2[idx(t)]);
    if p.kind == PieceTypes::Rook || p.kind == PieceTypes::Bishop || p.kind == PieceTypes::Queen {
        assert(path_clear(b1, sr, sc, tr, tc));
        assert(orthogonal(tr - sr, tc - sc) || diagonal(tr - sr, tc - sc));
        assert forall|j: int| 0 < j < span(x, t) implies (#[trigger] cell(
            b2,
            sr + shift(sgn(tr - sr), j),
            sc + shift(sgn(tc - sc), j),
        )) is None by {
            assert(step_row(x, t, j) == sr + shift(sgn(tr - sr), j));
            assert(step_col(x, t, j) == sc + shift(sgn(tc - sc), j));
            assert(cell(b1, sr + shift(sgn(tr - sr), j), sc + shift(sgn(tc - sc), j)) is None);
            assert(cell(b1, step_row(x, t, j), step_col(x, t, j)) is None);
        }
        assert(path_clear(b2, sr, sc, tr, tc));
    } else if p.kind == PieceTypes::Pawn {
        let d = if p.color { -1int } else { 1int };
        if tc == sc && tr == sr + 2 * d && p.first_move && cell(b1, sr + d, sc) is None && cell(b1, tr, tc) is None {
            assert(step_row(x, t, 1) == sr + d);
            assert(step_col(x, t, 1) == sc);
            assert(cell(b1, step_row(x, t, 1), step_col(x, t, 1)) is None);
        }
    }
}

/// The square of the mover's king after the move, attacked on the board
/// where only the mover has moved, contradicts the move's legality.
proof fn lemma_legal_target_safe(g: GameState, to: Pos)
    requires
        g.wf(),
        g.may_move_to(to),
    ensures
        ({
            let s = g.selected;
            let p = g.board[idx(s)].unwrap();
            let k = if p.kind == PieceTypes::King { to } else { g.king_of(p.color) };
            &&& !attacked(relocate(g.board, s, to), k, p.color, g.en_passant)
            &&& in_bounds(to)
            &&& s != to
            &&& !holds_king(g.board, to)
            &&& is_king_of(g.board[idx(k)], p.color) || k == to
            &&& p.kind == PieceTypes::King ==> s == g.king_of(p.color)
            &&& p.kind != PieceTypes::King ==> k != s && k != to
            &&& is_castling(g.board, s, to) ==> unmoved_rook(g.board, s.0 as int, rook_from(to).1 as int, p.color)
                && g.board[idx(rook_to(to))] is None
        }),
{
    let s = g.selected;
    let b = g.board;
    let p = b[idx(s)].unwrap();
    assert(g.moves.contains(to));
    assert(g.legal_from(s, to));
    let kp = g.king_of(p.color);
    assert(is_king_of(b[idx(kp)], p.color));
    if p.kind == PieceTypes::King {
        assert(is_king_of(b[idx(s)], p.color));
    }
    if is_castling(b, s, to) {
        assert(!can_reach(b, s, to, g.en_passant));
        assert(can_castle(b, s, to, g.en_passant));
    }
}

/// The en passant square after a move never marks a square holding a
/// king of the mover's colour.
proof fn lemma_marker_off_king(g: GameState, to: Pos, k: Pos)
    requires
        g.wf(),
        g.may_move_to(to),
        in_bounds(k),
        is_king_of(g.board[idx(k)], g.board[idx(g.selected)].unwrap().color),
    ensures
        !marks(marker_after(g.board, g.selected, to), k.0 as int, k.1 as int),
{
    let s = g.selected;
    let b = g.board;
    let p = b[idx(s)].unwrap();
    assert(g.moves.contains(to));
    assert(g.legal_from(s, to));
    if marks(marker_after(b, s, to), k.0 as int, k.1 as int) {
        let d = if p.color { -1int } else { 1int };
        assert(p.kind == PieceTypes::Pawn);
        assert(can_reach(b, s, to, g.en_passant));
        assert(to.0 == s.0 + 2 * d);
        assert((s.0 + to.0) / 2 == s.0 + d);
        assert(cell(b, s.0 + d, s.1 as int) is None);
        assert(k.0 == s.0 + d && k.1 == s.1);
        assert(cell(b, k.0 as int, k.1 as int) == b[idx(k)]);
    }
}

/// Facts about a move from `s` to `to` that the lemmas below share.
spec fn plain_move(b: Seq<Option<Piece>>, s: Pos, to: Pos, ep: Option<Pos>) -> bool {
    &&& b.len() == 64
    &&& in_bounds(s)
    &&& in_bounds(to)
    &&& s != to
    &&& b[idx(s)] is Some
    &&& !is_en_passant(b, s, to, ep)
    &&& is_castling(b, s, to) ==> unmoved_rook(b, s.0 as int, rook_from(to).1 as int, b[idx(s)].unwrap().color)
        && b[idx(rook_to(to))] is None
}

/// On a square other than the mover's, the board after the move and the
/// board where only the mover has moved agree on the colour, and on the
/// whole piece where it is an enemy piece.
proof fn lemma_boards_agree(b: Seq<Option<Piece>>, s: Pos, to: Pos, ep: Option<Pos>, x: Pos)
    requires
        plain_move(b, s, to, ep),
        in_bounds(x),
        is_castling(b, s, to) ==> x != rook_from(to) && x != rook_to(to),
    ensures
        x != to ==> board_after(b, s, to, ep)[idx(x)] == relocate(b, s, to)[idx(x)],
        color_at(board_after(b, s, to, ep)[idx(x)]) == color_at(relocate(b, s, to)[idx(x)]),
{
}

/// Between an enemy piece and the mover's king, the board after the move
/// is no more crowded than the board where only the mover has moved.
proof fn lemma_paths_agree(b: Seq<Option<Piece>>, s: Pos, to: Pos, ep: Option<Pos>, x: Pos, k: Pos)
    requires
        plain_move(b, s, to, ep),
        in_bounds(x),
        in_bounds(k),
        is_castling(b, s, to) ==> k == to,
    ensures
        clearer_between(board_after(b, s, to, ep), relocate(b, s, to), x, k),
{
    let ab = board_after(b, s, to, ep);
    let h = relocate(b, s, to);
    if orthogonal(k.0 - x.0, k.1 - x.1) || diagonal(k.0 - x.0, k.1 - x.1) {
        assert forall|j: int| 0 < j < span(x, k) && #[trigger] cell(ab, step_row(x, k, j), step_col(x, k, j)) is None
            implies cell(h, step_row(x, k, j), step_col(x, k, j)) is None by {
            let y: Pos = (step_row(x, k, j) as i8, step_col(x, k, j) as i8);
            assert(in_bounds(y));
            if is_castling(b, s, to) {
                assert(y != rook_from(to));
            }
            assert(cell(ab, step_row(x, k, j), step_col(x, k, j)) == ab[idx(y)]);
        }
    }
}

/// A legal move, other than a capture en passant, never leaves the
/// mover's own king attacked. (A capture en passant can: the taken pawn
/// may have shielded the king along its row.)
pub proof fn lemma_move_keeps_own_king_safe(g: GameState, to: Pos)
    requires
        g.wf(),
        g.may_move_to(to),
        !is_promotion(g.board, g.selected, to),
        !is_en_passant(g.board, g.selected, to, g.en_passant),
    ensures
        ({
            let c = g.board[idx(g.selected)].unwrap().color;
            let a = g.after_move(to);
            !attacked(a.board, a.king_of(c), c, a.en_passant)
        }),
{
    let s = g.selected;
    let b = g.board;
    let ep = g.en_passant;
    let p = b[idx(s)].unwrap();
    let c = p.color;
    let ab = board_after(b, s, to, ep);
    let ae = marker_after(b, s, to);
    let h = relocate(b, s, to);
    let k = if p.kind == PieceTypes::King { to } else { g.king_of(c) };
    let castle = is_castling(b, s, to);
    lemma_legal_target_safe(g, to);
    if p.kind != PieceTypes::King {
        lemma_marker_off_king(g, to, k);
    }
    assert(g.after_move(to).board == ab);
    assert(g.after_move(to).en_passant == ae);
    assert(g.after_move(to).king_of(c) == k);
    if attacked(ab, k, c, ae) {
        let x = choose|x: Pos| #[trigger] can_reach(ab, x, k, ae) && ab[idx(x)].unwrap().color != c;
        assert(plain_move(b, s, to, ep));
        if castle {
            assert(x != rook_from(to));
            assert(x != rook_to(to));
        }
        lemma_boards_agree(b, s, to, ep, x);
        if castle {
            assert(k != rook_from(to));
            assert(k != rook_to(to));
        }
        lemma_boards_agree(b, s, to, ep, k);
        lemma_paths_agree(b, s, to, ep, x, k);
        lemma_reach_transfer(ab, h, x, k, ae, ep);
        assert(attacked(h, k, c, ep));
    }
}


/// Completing a promotion never leaves the mover's own king attacked.
pub proof fn lemma_promotion_keeps_own_king_safe(g: GameState, to: Pos, kind: PieceTypes)
    requires
        g.wf(),
        g.promotion_pending,
        g.moves.contains(to),
        kind != PieceTypes::King,
    ensures
        ({
            let c = g.board[idx(g.selected)].unwrap().color;
            let a = g.after_promotion(to, kind);
            !attacked(a.board, a.king_of(c), c, a.en_passant)
        }),
{
    let s = g.selected;
    let b = g.board;
    let ep = g.en_passant;
    let c = b[idx(s)].unwrap().color;
    let a = g.after_promotion(to, kind);
    let h = relocate(b, s, to);
    let k = g.king_of(c);
    assert(g.legal_from(s, to));
    assert(in_bounds(to));
    assert(!holds_king(b, to));
    assert(is_king_of(b[idx(k)], c));
    assert(k != s && k != to);
    assert(!attacked(h, k, c, ep));
    assert(a.king_of(c) == k);
    if attacked(a.board, k, c, a.en_passant) {
        let x = choose|x: Pos| #[trigger] can_reach(a.board, x, k, a.en_passant) && a.board[idx(x)].unwrap().color != c;
        assert(x != s && x != to);
        assert(a.board[idx(x)] == h[idx(x)]);
        assert(a.board[idx(k)] == h[idx(k)]);
        if orthogonal(k.0 - x.0, k.1 - x.1) || diagonal(k.0 - x.0, k.1 - x.1) {
            assert forall|j: int| 0 < j < span(x, k) && #[trigger] cell(a.board, step_row(x, k, j), step_col(x, k, j)) is None
                implies cell(h, step_row(x, k, j), step_col(x, k, j)) is None by {
                let y: Pos = (step_row(x, k, j) as i8, step_col(x, k, j) as i8);
                assert(in_bounds(y));
                assert(cell(a.board, step_row(x, k, j), step_col(x, k, j)) == a.board[idx(y)]);
            }
        }
        assert(clearer_between(a.board, h, x, k));
        lemma_reach_transfer(a.board, h, x, k, a.en_passant, ep);
        assert(attacked(h, k, c, ep));
    }
}

} // verus!
