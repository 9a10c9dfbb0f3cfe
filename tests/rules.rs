use chess_logic::piece::{is_valid_pos, Board, Piece, PieceTypes, Pos};
use chess_logic::king::{attack_map, legal_moves, square_attacked};
use chess_logic::logic::LogicManager;

fn play(lm: &mut LogicManager, from: Pos, to: Pos) -> Option<(Pos, Pos)> {
    let moves = lm.get_possible_moves(from).expect("a piece stands there");
    assert!(moves.contains(&to), "{:?} -> {:?} is not legal: {:?}", from, to, moves);
    lm.move_piece(to)
}

fn sorted(mut v: Vec<Pos>) -> Vec<Pos> {
    v.sort();
    v
}

#[test]
fn valid_positions() {
    assert!(is_valid_pos((0, 0)));
    assert!(is_valid_pos((7, 7)));
    assert!(is_valid_pos((3, 5)));
    assert!(!is_valid_pos((-1, 0)));
    assert!(!is_valid_pos((0, 8)));
    assert!(!is_valid_pos((8, 3)));
    assert!(!is_valid_pos((2, -1)));
}

#[test]
fn starting_position() {
    let lm = LogicManager::new();
    let b = lm.get_board();
    assert_eq!(b.get((0, 4)), Some(Piece { kind: PieceTypes::King, color: false, first_move: true }));
    assert_eq!(b.get((7, 3)), Some(Piece { kind: PieceTypes::Queen, color: true, first_move: true }));
    assert_eq!(b.get((6, 2)).map(|p| p.kind), Some(PieceTypes::Pawn));
    assert_eq!(b.get((4, 4)), None);
    assert_eq!(lm.get_piece_color((1, 0)), Some(false));
    assert_eq!(lm.get_piece_color((6, 0)), Some(true));
    assert_eq!(lm.get_piece_color((3, 3)), None);
}

#[test]
fn opening_moves_of_knight_and_pawn() {
    let mut lm = LogicManager::new();
    assert_eq!(sorted(lm.get_possible_moves((7, 6)).unwrap()), vec![(5, 5), (5, 7)]);
    assert_eq!(sorted(lm.get_possible_moves((6, 4)).unwrap()), vec![(4, 4), (5, 4)]);
    assert_eq!(sorted(lm.get_possible_moves((1, 3)).unwrap()), vec![(2, 3), (3, 3)]);
    assert!(lm.get_possible_moves((7, 0)).unwrap().is_empty());
    assert!(lm.get_possible_moves((7, 4)).unwrap().is_empty());
}

#[test]
fn empty_square_gives_no_moves() {
    let mut lm = LogicManager::new();
    assert!(lm.get_possible_moves((4, 4)).is_none());
    assert!(!lm.can_move());
}

#[test]
fn selection_and_clearing() {
    let mut lm = LogicManager::new();
    lm.get_possible_moves((6, 4));
    assert!(lm.can_move());
    assert!(lm.is_in_possible_moves((4, 4)));
    assert!(!lm.is_in_possible_moves((3, 4)));
    lm.clear_selection();
    assert!(!lm.can_move());
    assert!(!lm.is_in_possible_moves((4, 4)));
}

#[test]
fn destinations_stay_on_the_board() {
    let mut lm = LogicManager::new();
    play(&mut lm, (6, 4), (4, 4));
    play(&mut lm, (1, 4), (3, 4));
    play(&mut lm, (7, 3), (3, 7));
    for r in 0..8i8 {
        for c in 0..8i8 {
            if let Some(moves) = lm.get_possible_moves((r, c)) {
                assert!(moves.iter().all(|&p| is_valid_pos(p)));
            }
            lm.clear_selection();
            for p in attack_map(lm.get_board(), (r, c), None) {
                assert!(is_valid_pos(p));
            }
        }
    }
}

#[test]
fn sliding_pieces_stop_at_blockers() {
    let mut lm = LogicManager::new();
    play(&mut lm, (6, 4), (4, 4));
    play(&mut lm, (1, 0), (2, 0));
    // the bishop on f1 now sees the diagonal up to a6, where a black pawn stands
    assert_eq!(
        sorted(lm.get_possible_moves((7, 5)).unwrap()),
        vec![(2, 0), (3, 1), (4, 2), (5, 3), (6, 4)]
    );
    // the queen on d1 sees the diagonal to h5
    assert_eq!(sorted(lm.get_possible_moves((7, 3)).unwrap()), vec![(3, 7), (4, 6), (5, 5), (6, 4)]);
}

#[test]
fn attack_map_of_a_rook_includes_the_capture() {
    let mut b = Board::new();
    b.set((6, 0), None);
    let mut m = attack_map(&b, (7, 0), None);
    m.sort();
    assert_eq!(m, vec![(1, 0), (2, 0), (3, 0), (4, 0), (5, 0), (6, 0)]);
}

#[test]
fn no_move_may_leave_the_own_king_in_check() {
    let mut lm = LogicManager::new();
    play(&mut lm, (6, 4), (4, 4));
    play(&mut lm, (1, 3), (3, 3));
    play(&mut lm, (7, 5), (3, 1));
    // the bishop on b5 gives check to the king on e8
    assert!(lm.is_check(false));
    // black may only answer the check
    let pawn_moves = lm.get_possible_moves((1, 7)).unwrap();
    assert!(pawn_moves.is_empty());
    let blocks = sorted(lm.get_possible_moves((1, 2)).unwrap());
    assert_eq!(blocks, vec![(2, 2)]);
    for r in 0..8i8 {
        for c in 0..8i8 {
            if lm.get_piece_color((r, c)) == Some(false) {
                let moves = lm.get_possible_moves((r, c)).unwrap();
                for m in moves {
                    let mut trial = LogicManager::new();
                    play(&mut trial, (6, 4), (4, 4));
                    play(&mut trial, (1, 3), (3, 3));
                    play(&mut trial, (7, 5), (3, 1));
                    play(&mut trial, (r, c), m);
                    assert!(!trial.is_check(false));
                }
            }
        }
    }
}

#[test]
fn kingside_castling() {
    let mut lm = LogicManager::new();
    play(&mut lm, (6, 4), (5, 4));
    play(&mut lm, (1, 0), (2, 0));
    play(&mut lm, (7, 6), (5, 5));
    play(&mut lm, (2, 0), (3, 0));
    play(&mut lm, (7, 5), (4, 2));
    play(&mut lm, (3, 0), (4, 0));
    let moves = lm.get_possible_moves((7, 4)).unwrap();
    assert!(moves.contains(&(7, 6)));
    assert!(!moves.contains(&(7, 2)));
    let side = lm.move_piece((7, 6));
    assert_eq!(side, Some(((7, 7), (7, 5))));
    let b = lm.get_board();
    assert_eq!(b.get((7, 6)), Some(Piece { kind: PieceTypes::King, color: true, first_move: false }));
    assert_eq!(b.get((7, 5)), Some(Piece { kind: PieceTypes::Rook, color: true, first_move: false }));
    assert_eq!(b.get((7, 7)), None);
    assert_eq!(b.get((7, 4)), None);
}

#[test]
fn no_castling_after_the_rook_moved() {
    let mut lm = LogicManager::new();
    play(&mut lm, (6, 4), (5, 4));
    play(&mut lm, (1, 0), (2, 0));
    play(&mut lm, (7, 6), (5, 5));
    play(&mut lm, (2, 0), (3, 0));
    play(&mut lm, (7, 5), (4, 2));
    play(&mut lm, (3, 0), (4, 0));
    play(&mut lm, (7, 7), (7, 6));
    play(&mut lm, (4, 0), (5, 0));
    play(&mut lm, (7, 6), (7, 7));
    play(&mut lm, (1, 1), (2, 1));
    let moves = lm.get_possible_moves((7, 4)).unwrap();
    assert!(!moves.contains(&(7, 6)));
}

#[test]
fn no_castling_through_an_attacked_square() {
    let mut lm = LogicManager::new();
    play(&mut lm, (6, 6), (5, 6));
    play(&mut lm, (1, 1), (2, 1));
    play(&mut lm, (7, 6), (5, 5));
    play(&mut lm, (0, 2), (2, 0));
    play(&mut lm, (7, 5), (6, 6));
    play(&mut lm, (1, 4), (2, 4));
    play(&mut lm, (6, 4), (5, 4));
    play(&mut lm, (1, 7), (2, 7));
    // the black bishop on a6 attacks f1, which the king would cross
    let moves = lm.get_possible_moves((7, 4)).unwrap();
    assert!(!moves.contains(&(7, 6)));
    assert!(!moves.contains(&(7, 5)));
}

#[test]
fn en_passant_needs_a_pawn_beside() {
    let mut lm = LogicManager::new();
    play(&mut lm, (6, 4), (4, 4));
    play(&mut lm, (1, 3), (3, 3));
    // d5 passed e4 on the diagonal, not beside it: no en passant to d6
    let moves = sorted(lm.get_possible_moves((4, 4)).unwrap());
    assert_eq!(moves, vec![(3, 3), (3, 4)]);
    assert!(!moves.contains(&(2, 3)));
}

#[test]
fn en_passant_capture() {
    let mut lm = LogicManager::new();
    play(&mut lm, (6, 4), (4, 4));
    play(&mut lm, (1, 0), (2, 0));
    play(&mut lm, (4, 4), (3, 4));
    play(&mut lm, (1, 3), (3, 3));
    let moves = lm.get_possible_moves((3, 4)).unwrap();
    assert!(moves.contains(&(2, 3)));
    let side = lm.move_piece((2, 3));
    assert_eq!(side, Some(((3, 3), (-1, -1))));
    let b = lm.get_board();
    assert_eq!(b.get((3, 3)), None);
    assert_eq!(b.get((2, 3)).map(|p| (p.kind, p.color)), Some((PieceTypes::Pawn, true)));
}

#[test]
fn en_passant_expires_after_one_move() {
    let mut lm = LogicManager::new();
    play(&mut lm, (6, 4), (4, 4));
    play(&mut lm, (1, 0), (2, 0));
    play(&mut lm, (4, 4), (3, 4));
    play(&mut lm, (1, 3), (3, 3));
    play(&mut lm, (6, 0), (5, 0));
    play(&mut lm, (2, 0), (3, 0));
    let moves = lm.get_possible_moves((3, 4)).unwrap();
    assert!(!moves.contains(&(2, 3)));
}

fn march_to_promotion(lm: &mut LogicManager) {
    play(lm, (6, 7), (4, 7));
    play(lm, (1, 0), (2, 0));
    play(lm, (4, 7), (3, 7));
    play(lm, (2, 0), (3, 0));
    play(lm, (3, 7), (2, 7));
    play(lm, (3, 0), (4, 0));
    play(lm, (2, 7), (1, 6));
    play(lm, (4, 0), (5, 0));
}

#[test]
fn promotion_waits_for_a_choice() {
    let mut lm = LogicManager::new();
    march_to_promotion(&mut lm);
    let side = play(&mut lm, (1, 6), (0, 7));
    assert_eq!(side, None);
    assert!(lm.is_promotion_pending());
    assert_eq!(lm.get_board().get((1, 6)).map(|p| p.kind), Some(PieceTypes::Pawn));
    assert_eq!(lm.get_board().get((0, 7)).map(|p| (p.kind, p.color)), Some((PieceTypes::Rook, false)));
    assert!(lm.promote_pawn((0, 7), PieceTypes::Queen));
    assert!(!lm.is_promotion_pending());
    assert_eq!(
        lm.get_board().get((0, 7)),
        Some(Piece { kind: PieceTypes::Queen, color: true, first_move: true })
    );
    assert_eq!(lm.get_board().get((1, 6)), None);
}

#[test]
fn promotion_to_king_or_pawn_is_refused() {
    let mut lm = LogicManager::new();
    march_to_promotion(&mut lm);
    play(&mut lm, (1, 6), (0, 7));
    assert!(!lm.promote_pawn((0, 7), PieceTypes::King));
    assert!(!lm.promote_pawn((0, 7), PieceTypes::Pawn));
    assert!(lm.is_promotion_pending());
    assert!(lm.promote_pawn((0, 7), PieceTypes::Knight));
    assert_eq!(lm.get_board().get((0, 7)).map(|p| p.kind), Some(PieceTypes::Knight));
}

#[test]
fn fools_mate() {
    let mut lm = LogicManager::new();
    play(&mut lm, (6, 5), (5, 5));
    play(&mut lm, (1, 4), (3, 4));
    play(&mut lm, (6, 6), (4, 6));
    play(&mut lm, (0, 3), (4, 7));
    assert!(lm.is_check(true));
    assert!(lm.is_checkmate(true));
    assert!(!lm.is_check(false));
    assert!(!lm.is_checkmate(false));
    for r in 0..8i8 {
        for c in 0..8i8 {
            if lm.get_piece_color((r, c)) == Some(true) {
                assert!(lm.get_possible_moves((r, c)).unwrap().is_empty());
            }
        }
    }
}

#[test]
fn threefold_repetition() {
    let mut lm = LogicManager::new();
    for round in 0..3 {
        assert!(!lm.is_draw(), "drawn too early, round {}", round);
        play(&mut lm, (7, 6), (5, 5));
        play(&mut lm, (0, 6), (2, 5));
        play(&mut lm, (5, 5), (7, 6));
        play(&mut lm, (2, 5), (0, 6));
    }
    assert!(lm.is_draw());
}

#[test]
fn capture_resets_the_half_move_count() {
    let mut lm = LogicManager::new();
    play(&mut lm, (6, 4), (4, 4));
    play(&mut lm, (1, 3), (3, 3));
    assert_eq!(lm.moves_since_capture(), 2);
    play(&mut lm, (4, 4), (3, 3));
    assert_eq!(lm.moves_since_capture(), 0);
    play(&mut lm, (0, 3), (3, 3));
    assert_eq!(lm.moves_since_capture(), 0);
    play(&mut lm, (7, 6), (5, 5));
    assert_eq!(lm.moves_since_capture(), 1);
}

fn occupancy(lm: &LogicManager) -> Vec<Option<(PieceTypes, bool)>> {
    lm.get_board().cells.iter().map(|c| c.map(|p| (p.kind, p.color))).collect()
}

#[test]
fn fifty_move_rule() {
    let mut lm = LogicManager::new();
    let mut seen: Vec<Vec<Option<(PieceTypes, bool)>>> = vec![];
    let mut color = true;
    for ply in 0..100 {
        assert!(!lm.is_draw(), "drawn before the hundredth half-move, at {}", ply);
        let mut done = false;
        'search: for r in 0..8i8 {
            for c in 0..8i8 {
                let p = match lm.get_board().get((r, c)) {
                    Some(p) if p.color == color && p.kind != PieceTypes::King => p,
                    _ => continue,
                };
                let moves = lm.get_possible_moves((r, c)).unwrap();
                for m in moves {
                    if lm.get_board().get(m).is_some() {
                        continue;
                    }
                    if p.kind == PieceTypes::Pawn && (m.1 != c || m.0 == 0 || m.0 == 7) {
                        continue;
                    }
                    let mut next = occupancy(&lm);
                    next[(m.0 * 8 + m.1) as usize] = next[(r * 8 + c) as usize];
                    next[(r * 8 + c) as usize] = None;
                    if seen.iter().filter(|s| **s == next).count() >= 2 {
                        continue;
                    }
                    lm.get_possible_moves((r, c));
                    assert_eq!(lm.move_piece(m), None);
                    seen.push(next);
                    done = true;
                    break 'search;
                }
            }
        }
        assert!(done, "no quiet move found at {}", ply);
        lm.clear_selection();
        color = !color;
    }
    assert_eq!(lm.moves_since_capture(), 100);
    assert!(lm.is_draw());
}

#[test]
fn stopped_game_refuses_moves() {
    let mut lm = LogicManager::new();
    lm.get_possible_moves((6, 4));
    lm.stop();
    assert!(!lm.can_move());
    assert_eq!(lm.move_piece((4, 4)), None);
    assert_eq!(lm.get_board().get((6, 4)).map(|p| p.kind), Some(PieceTypes::Pawn));
    assert!(lm.get_possible_moves((6, 3)).is_none());
}

#[test]
fn attacked_squares_in_the_opening() {
    let b = Board::new();
    // the colour names the side whose square is looked at: attackers are the other side
    assert!(square_attacked(&b, (5, 0), false, None));
    // reachability includes pawn advances: a2 reaches a4, nothing white reaches a5
    assert!(square_attacked(&b, (4, 0), false, None));
    assert!(!square_attacked(&b, (3, 0), false, None));
    assert!(square_attacked(&b, (2, 2), true, None));
    assert!(!square_attacked(&b, (5, 0), true, None));
    let moves = legal_moves(&b, (7, 1), None, (7, 4));
    assert_eq!(sorted(moves), vec![(5, 0), (5, 2)]);
}

#[test]
fn queenside_castling() {
    let mut lm = LogicManager::new();
    play(&mut lm, (6, 3), (5, 3));
    play(&mut lm, (1, 0), (2, 0));
    play(&mut lm, (7, 1), (5, 2));
    play(&mut lm, (2, 0), (3, 0));
    play(&mut lm, (7, 2), (5, 4));
    play(&mut lm, (3, 0), (4, 0));
    play(&mut lm, (7, 3), (6, 3));
    play(&mut lm, (1, 7), (2, 7));
    let moves = sorted(lm.get_possible_moves((7, 4)).unwrap());
    assert_eq!(moves, vec![(7, 2), (7, 3)]);
    assert_eq!(lm.move_piece((7, 2)), Some(((7, 0), (7, 3))));
    let b = lm.get_board();
    assert_eq!(b.get((7, 2)).map(|p| p.kind), Some(PieceTypes::King));
    assert_eq!(b.get((7, 3)), Some(Piece { kind: PieceTypes::Rook, color: true, first_move: false }));
    assert_eq!(b.get((7, 0)), None);
    // the tracked king square follows the king
    assert!(!lm.is_check(true));
}

#[test]
fn new_selection_replaces_the_old_one() {
    let mut lm = LogicManager::new();
    lm.get_possible_moves((6, 4));
    assert!(lm.is_in_possible_moves((4, 4)));
    lm.get_possible_moves((7, 6));
    assert!(!lm.is_in_possible_moves((4, 4)));
    assert!(lm.is_in_possible_moves((5, 5)));
    assert_eq!(lm.move_piece((5, 5)), None);
    assert_eq!(lm.get_board().get((5, 5)).map(|p| p.kind), Some(PieceTypes::Knight));
    assert_eq!(lm.get_board().get((6, 4)).map(|p| p.kind), Some(PieceTypes::Pawn));
}

#[test]
fn stalemate_has_no_move_and_no_check() {
    let mut lm = LogicManager::new();
    let game = [
        ((6, 4), (5, 4)), ((1, 0), (3, 0)),
        ((7, 3), (3, 7)), ((0, 0), (2, 0)),
        ((3, 7), (3, 0)), ((1, 7), (3, 7)),
        ((6, 7), (4, 7)), ((2, 0), (2, 7)),
        ((3, 0), (1, 2)), ((1, 5), (2, 5)),
        ((1, 2), (1, 3)), ((0, 4), (1, 5)),
        ((1, 3), (1, 1)), ((0, 3), (5, 3)),
        ((1, 1), (0, 1)), ((5, 3), (1, 7)),
        ((0, 1), (0, 2)), ((1, 5), (2, 6)),
        ((0, 2), (2, 4)),
    ];
    for (from, to) in game {
        play(&mut lm, from, to);
    }
    assert!(!lm.is_check(false));
    assert!(lm.is_checkmate(false));
    assert!(!lm.is_checkmate(true));
}
