//! Raw reachability of each kind of piece: where a piece could go by its
//! movement pattern alone, before any test of its own king's safety. This is
//! also the attack map that check detection uses.
use vstd::prelude::*;
use crate::piece::{Pos, Piece, PieceTypes, Board, in_bounds, idx, cell};

verus! {

pub open spec fn iabs(x: int) -> int {
    if x < 0 { -x } else { x }
}

pub open spec fn sgn(x: int) -> int {
    if x > 0 { 1 } else if x < 0 { -1 } else { 0 }
}

/// `j` steps in the direction of sign `s`.
pub open spec fn shift(s: int, j: int) -> int {
    if s > 0 { j } else if s < 0 { -j } else { 0 }
}

/// Whether `(r, c)` is empty or holds a piece of the other colour than `color`.
pub open spec fn open_for(b: Seq<Option<Piece>>, r: int, c: int, color: bool) -> bool {
    match cell(b, r, c) {
        None => true,
        Some(q) => q.color != color,
    }
}

/// Every square strictly between `(sr, sc)` and `(tr, tc)` on the straight
/// line joining them is empty.
pub open spec fn path_clear(b: Seq<Option<Piece>>, sr: int, sc: int, tr: int, tc: int) -> bool {
    let dr = tr - sr;
    let dc = tc - sc;
    let n = if iabs(dr) > iabs(dc) { iabs(dr) } else { iabs(dc) };
    forall|j: int| 0 < j < n ==> (#[trigger] cell(b, sr + shift(sgn(dr), j), sc + shift(sgn(dc), j))) is None
}

pub open spec fn orthogonal(dr: int, dc: int) -> bool {
    (dr == 0) != (dc == 0)
}

pub open spec fn diagonal(dr: int, dc: int) -> bool {
    dr != 0 && iabs(dr) == iabs(dc)
}

/// Whether `e` is the square `(r, c)`.
pub open spec fn marks(e: Option<Pos>, r: int, c: int) -> bool {
    match e {
        Some(q) => q.0 == r && q.1 == c,
        None => false,
    }
}

/// Row step of a pawn: white moves toward row 0, black toward row 7.
pub open spec fn pawn_dir(color: bool) -> int {
    if color { -1 } else { 1 }
}

/// Where a pawn on `(sr, sc)` reaches `(tr, tc)`: one square forward onto an
/// empty square, two on its first move over an empty square, or one square
/// diagonally forward onto an enemy piece or onto the en passant square `ep`.
pub open spec fn pawn_reaches(
    b: Seq<Option<Piece>>,
    p: Piece,
    sr: int,
    sc: int,
    tr: int,
    tc: int,
    ep: Option<Pos>,
) -> bool {
    let d = pawn_dir(p.color);
    ||| (tc == sc && tr == sr + d && cell(b, tr, tc) is None)
    ||| (tc == sc && tr == sr + 2 * d && p.first_move && cell(b, sr + d, sc) is None && cell(
        b,
        tr,
        tc,
    ) is None)
    ||| (tr == sr + d && iabs(tc - sc) == 1 && ((cell(b, tr, tc) is Some && cell(
        b,
        tr,
        tc,
    ).unwrap().color != p.color) || marks(ep, tr, tc)))
}

/// Whether the piece `p` standing on `(sr, sc)` reaches `(tr, tc)` by its
/// movement pattern.
pub open spec fn piece_reaches(
    b: Seq<Option<Piece>>,
    p: Piece,
    sr: int,
    sc: int,
    tr: int,
    tc: int,
    ep: Option<Pos>,
) -> bool {
    let dr = tr - sr;
    let dc = tc - sc;
    match p.kind {
        PieceTypes::Knight => ((iabs(dr) == 1 && iabs(dc) == 2) || (iabs(dr) == 2 && iabs(dc) == 1))
            && open_for(b, tr, tc, p.color),
        PieceTypes::King => iabs(dr) <= 1 && iabs(dc) <= 1 && !(dr == 0 && dc == 0) && open_for(
            b,
            tr,
            tc,
            p.color,
        ),
        PieceTypes::Rook => orthogonal(dr, dc) && path_clear(b, sr, sc, tr, tc) && open_for(
            b,
            tr,
            tc,
            p.color,
        ),
        PieceTypes::Bishop => diagonal(dr, dc) && path_clear(b, sr, sc, tr, tc) && open_for(
            b,
            tr,
            tc,
            p.color,
        ),
        PieceTypes::Queen => (orthogonal(dr, dc) || diagonal(dr, dc)) && path_clear(b, sr, sc, tr, tc)
            && open_for(b, tr, tc, p.color),
        PieceTypes::Pawn => pawn_reaches(b, p, sr, sc, tr, tc, ep),
    }
}

/// Whether the piece on `s` reaches `t` by its movement pattern, both squares
/// on the board.
pub open spec fn can_reach(b: Seq<Option<Piece>>, s: Pos, t: Pos, ep: Option<Pos>) -> bool {
    &&& in_bounds(s)
    &&& in_bounds(t)
    &&& match b[idx(s)] {
        Some(p) => piece_reaches(b, p, s.0 as int, s.1 as int, t.0 as int, t.1 as int, ep),
        None => false,
    }
}

fn abs8(x: i8) -> (r: i8)
    requires
        -100 <= x <= 100,
    ensures
        r == iabs(x as int),
{
    if x < 0 { -x } else { x }
}

fn sgn8(x: i8) -> (r: i8)
    ensures
        r == sgn(x as int),
{
    if x > 0 { 1 } else if x < 0 { -1 } else { 0 }
}

/// Whether every square strictly between `s` and `t` is empty; the two lie
/// on one row, column or diagonal.
fn is_path_clear(board: &Board, s: Pos, t: Pos) -> (r: bool)
    requires
        board.wf(),
        in_bounds(s),
        in_bounds(t),
        orthogonal(t.0 - s.0, t.1 - s.1) || diagonal(t.0 - s.0, t.1 - s.1),
    ensures
        r == path_clear(board@, s.0 as int, s.1 as int, t.0 as int, t.1 as int),
{
    let dr = t.0 - s.0;
    let dc = t.1 - s.1;
    let ar = abs8(dr);
    let ac = abs8(dc);
    let n = if ar > ac { ar } else { ac };
    let sr = sgn8(dr);
    let sc = sgn8(dc);
    let mut j: i8 = 1;
    let mut r: i8 = s.0 + sr;
    let mut c: i8 = s.1 + sc;
    while j < n
        invariant
            board.wf(),
            in_bounds(s),
            in_bounds(t),
            orthogonal(dr as int, dc as int) || diagonal(dr as int, dc as int),
            dr == t.0 - s.0,
            dc == t.1 - s.1,
            n == (if iabs(dr as int) > iabs(dc as int) { iabs(dr as int) } else { iabs(dc as int) }),
            sr == sgn(dr as int),
            sc == sgn(dc as int),
            1 <= j <= n || n == 0,
            j >= 1,
            r == s.0 + shift(sr as int, j as int),
            c == s.1 + shift(sc as int, j as int),
            forall|k: int|
                0 < k < j ==> (#[trigger] cell(board@, s.0 + shift(sr as int, k), s.1 + shift(sc as int, k))) is None,
        decreases n - j,
    {
        if board.get((r, c)).is_some() {
            assert(cell(board@, s.0 + shift(sr as int, j as int), s.1 + shift(sc as int, j as int)) is Some);
            return false;
        }
        j = j + 1;
        r = r + sr;
        c = c + sc;
    }
    true
}

/// Whether the piece on `s` reaches `t` by its movement pattern, where `ep`
/// is the square open to capture en passant, if any.
pub fn reaches(board: &Board, s: Pos, t: Pos, ep: Option<Pos>) -> (r: bool)
    requires
        board.wf(),
        in_bounds(s),
        in_bounds(t),
    ensures
        r == can_reach(board@, s, t, ep),
{
    let p = match board.get(s) {
        Some(p) => p,
        None => {
            return false;
        },
    };
    let dr = t.0 - s.0;
    let dc = t.1 - s.1;
    let ar = abs8(dr);
    let ac = abs8(dc);
    let open = match board.get(t) {
        None => true,
        Some(q) => q.color != p.color,
    };
    match p.kind {
        PieceTypes::Knight => ((ar == 1 && ac == 2) || (ar == 2 && ac == 1)) && open,
        PieceTypes::King => ar <= 1 && ac <= 1 && !(dr == 0 && dc == 0) && open,
        PieceTypes::Rook => (dr == 0) != (dc == 0) && open && is_path_clear(board, s, t),
        PieceTypes::Bishop => dr != 0 && ar == ac && open && is_path_clear(board, s, t),
        PieceTypes::Queen => ((dr == 0) != (dc == 0) || (dr != 0 && ar == ac)) && open
            && is_path_clear(board, s, t),
        PieceTypes::Pawn => {
            let d: i8 = if p.color { -1 } else { 1 };
            let target = board.get(t);
            if dc == 0 && dr == d {
                target.is_none()
            } else if dc == 0 && dr == 2 * d {
                p.first_move && board.get((s.0 + d, s.1)).is_none() && target.is_none()
            } else if dr == d && ac == 1 {
                let enemy = match target {
                    Some(q) => q.color != p.color,
                    None => false,
                };
                let on_mark = match ep {
                    Some(e) => e.0 == t.0 && e.1 == t.1,
                    None => false,
                };
                enemy || on_mark
            } else {
                false
            }
        },
    }
}

} // verus!
