//! Snapshots of board occupancy and their occurrence counts, for draws by
//! repetition.
use vstd::prelude::*;
use crate::piece::{Piece, PieceTypes, Board};

verus! {

/// A snapshot of the board: one two-letter code per square.
pub type Snapshot = Vec<(u8, u8)>;

pub open spec fn kind_letter(k: PieceTypes) -> u8 {
    match k {
        PieceTypes::King => 75u8,
        PieceTypes::Queen => 81u8,
        PieceTypes::Rook => 82u8,
        PieceTypes::Bishop => 66u8,
        PieceTypes::Knight => 78u8,
        PieceTypes::Pawn => 80u8,
    }
}

/// The code of a square: kind letter (`K`, `Q`, `R`, `B`, `N`, `P`) and
/// colour letter (`w`, `b`), or two blanks for an empty square.
pub open spec fn square_code(c: Option<Piece>) -> (u8, u8) {
    match c {
        Some(p) => (kind_letter(p.kind), if p.color { 119u8 } else { 98u8 }),
        None => (32u8, 32u8),
    }
}

/// The snapshot of a board of 64 squares.
pub open spec fn snapshot_of(b: Seq<Option<Piece>>) -> Seq<(u8, u8)> {
    Seq::new(64, |i: int| square_code(b[i]))
}

/// A count raised by one, held at the largest `u32`.
pub open spec fn bumped(n: u32) -> u32 {
    if n < u32::MAX { (n + 1) as u32 } else { n }
}

/// History entries as plain sequences.
pub open spec fn entries(h: Seq<(Snapshot, u32)>) -> Seq<(Seq<(u8, u8)>, u32)> {
    Seq::new(h.len(), |i: int| (h[i].0@, h[i].1))
}

/// No snapshot appears in two entries.
pub open spec fn keys_unique(h: Seq<(Seq<(u8, u8)>, u32)>) -> bool {
    forall|i: int, j: int| 0 <= i < h.len() && 0 <= j < h.len() && i != j ==> h[i].0 != h[j].0
}

/// `h` after one more occurrence of `key`: its count is raised, or it is
/// appended with count 1.
pub open spec fn recorded(h: Seq<(Seq<(u8, u8)>, u32)>, key: Seq<(u8, u8)>) -> Seq<(Seq<(u8, u8)>, u32)> {
    if exists|i: int| 0 <= i < h.len() && h[i].0 == key {
        let i = choose|i: int| 0 <= i < h.len() && h[i].0 == key;
        h.update(i, (key, bumped(h[i].1)))
    } else {
        h.push((key, 1u32))
    }
}

fn kind_letter_of(k: PieceTypes) -> (r: u8)
    ensures
        r == kind_letter(k),
{
    match k {
        PieceTypes::King => 75u8,
        PieceTypes::Queen => 81u8,
        PieceTypes::Rook => 82u8,
        PieceTypes::Bishop => 66u8,
        PieceTypes::Knight => 78u8,
        PieceTypes::Pawn => 80u8,
    }
}

/// The snapshot of `board`.
pub fn snapshot(board: &Board) -> (r: Snapshot)
    requires
        board.wf(),
    ensures
        r@ == snapshot_of(board@),
{
    let mut out: Snapshot = Vec::new();
    let mut i: usize = 0;
    while i < 64
        invariant
            board.wf(),
            0 <= i <= 64,
            out@.len() == i,
            forall|k: int| 0 <= k < i ==> #[trigger] out@[k] == square_code(board@[k]),
        decreases 64 - i,
    {
        let code = match board.cells[i] {
            Some(p) => (kind_letter_of(p.kind), if p.color { 119u8 } else { 98u8 }),
            None => (32u8, 32u8),
        };
        out.push(code);
        i = i + 1;
    }
    assert(out@ =~= snapshot_of(board@));
    out
}

/// Whether two snapshots are equal.
pub fn same_snapshot(a: &Snapshot, b: &Snapshot) -> (r: bool)
    ensures
        r == (a@ == b@),
{
    if a.len() != b.len() {
        return false;
    }
    let mut i: usize = 0;
    while i < a.len()
        invariant
            a@.len() == b@.len(),
            0 <= i <= a@.len(),
            forall|k: int| 0 <= k < i ==> #[trigger] a@[k] == b@[k],
        decreases a@.len() - i,
    {
        if a[i].0 != b[i].0 || a[i].1 != b[i].1 {
            return false;
        }
        i = i + 1;
    }
    assert(a@ =~= b@);
    true
}

/// Counts one more occurrence of `key` in `history`.
pub fn record(history: &mut Vec<(Snapshot, u32)>, key: Snapshot)
    requires
        keys_unique(entries(old(history)@)),
    ensures
        keys_unique(entries(final(history)@)),
        entries(final(history)@) == recorded(entries(old(history)@), key@),
{
    let ghost h = entries(history@);
    let mut i: usize = 0;
    while i < history.len()
        invariant
            h == entries(history@),
            h == entries(old(history)@),
            keys_unique(h),
            0 <= i <= history@.len(),
            forall|k: int| 0 <= k < i ==> h[k].0 != key@,
        decreases history@.len() - i,
    {
        if same_snapshot(&history[i].0, &key) {
            let n = history[i].1;
            let count = if n < u32::MAX { n + 1 } else { n };
            assert(h[i as int].0 == key@);
            let ghost j = choose|j: int| 0 <= j < h.len() && h[j].0 == key@;
            assert(j == i);
            assert(h[i as int].1 == n);
            assert(recorded(h, key@) == h.update(i as int, (key@, bumped(n))));
            history.set(i, (key, count));
            assert(entries(history@) =~= h.update(i as int, (key@, bumped(n))));
            return;
        }
        i = i + 1;
    }
    history.push((key, 1u32));
    assert(entries(history@) =~= h.push((key@, 1u32)));
}

} // verus!
