use chess::board::{Board, Occupant, PieceKind, Side, Square, BOARD_SIZE};
use chess::game::{ClickOutcome, Game};

fn sq(file: usize, rank: usize) -> Square {
    Square::new(file, rank)
}

fn snapshot(g: &Game) -> Vec<Occupant> {
    let mut cells = Vec::new();
    for r in 0..BOARD_SIZE {
        for f in 0..BOARD_SIZE {
            cells.push(g.occupant_at(sq(f, r)));
        }
    }
    cells
}

#[test]
fn new_game_starts_with_dark_to_move() {
    let g = Game::new();
    assert_eq!(g.side_to_move(), Side::Dark);
    assert_eq!(g.selected_square(), None);
    assert_eq!(g.occupant_at(sq(4, 6)), Occupant::Occupied(Side::Dark, PieceKind::Pawn));
}

#[test]
fn pawn_push_moves_piece_and_passes_turn() {
    let mut g = Game::new();
    assert!(g.apply_move(sq(4, 6), sq(4, 5)));
    assert_eq!(g.occupant_at(sq(4, 6)), Occupant::Empty);
    assert_eq!(g.occupant_at(sq(4, 5)), Occupant::Occupied(Side::Dark, PieceKind::Pawn));
    assert_eq!(g.side_to_move(), Side::Light);
}

#[test]
fn illegal_target_changes_nothing() {
    let mut g = Game::new();
    let before = snapshot(&g);
    assert!(!g.apply_move(sq(4, 6), sq(4, 3)));
    assert_eq!(snapshot(&g), before);
    assert_eq!(g.side_to_move(), Side::Dark);
}

#[test]
fn repeating_a_move_fails() {
    let mut g = Game::new();
    assert!(g.apply_move(sq(1, 7), sq(2, 5)));
    let before = snapshot(&g);
    assert!(!g.apply_move(sq(1, 7), sq(2, 5)));
    assert_eq!(snapshot(&g), before);
    assert_eq!(g.side_to_move(), Side::Light);
}

#[test]
fn turn_alternates_only_on_success() {
    let mut g = Game::new();
    assert_eq!(g.side_to_move(), Side::Dark);
    assert!(g.apply_move(sq(3, 6), sq(3, 4)));
    assert_eq!(g.side_to_move(), Side::Light);
    assert!(!g.apply_move(sq(0, 0), sq(0, 5)));
    assert_eq!(g.side_to_move(), Side::Light);
    assert!(g.apply_move(sq(4, 1), sq(4, 3)));
    assert_eq!(g.side_to_move(), Side::Dark);
    assert!(g.apply_move(sq(3, 4), sq(4, 3)));
    assert_eq!(g.occupant_at(sq(4, 3)), Occupant::Occupied(Side::Dark, PieceKind::Pawn));
    assert_eq!(g.side_to_move(), Side::Light);
}

#[test]
fn empty_source_never_moves() {
    let mut g = Game::new();
    assert!(!g.apply_move(sq(4, 4), sq(4, 3)));
    assert_eq!(g.side_to_move(), Side::Dark);
}

#[test]
fn king_can_be_captured() {
    let mut b = Board::empty();
    b.set(sq(4, 4), Occupant::Occupied(Side::Light, PieceKind::Rook));
    b.set(sq(4, 6), Occupant::Occupied(Side::Dark, PieceKind::King));
    let mut g = Game { board: b, to_move: Side::Light, selected: None };
    assert!(g.legal_destinations(sq(4, 4)).contains(&sq(4, 6)));
    assert!(g.apply_move(sq(4, 4), sq(4, 6)));
    assert_eq!(g.occupant_at(sq(4, 6)), Occupant::Occupied(Side::Light, PieceKind::Rook));
}

#[test]
fn selection_follows_side_to_move() {
    let mut g = Game::new();
    assert!(g.is_selectable(sq(0, 6)));
    assert!(!g.is_selectable(sq(0, 1)));
    assert!(!g.is_selectable(sq(0, 4)));
    assert!(!g.select(sq(0, 1)));
    assert_eq!(g.selected_square(), None);
    assert!(g.select(sq(0, 6)));
    assert_eq!(g.selected_square(), Some(sq(0, 6)));
    g.clear_selection();
    assert_eq!(g.selected_square(), None);
}

#[test]
fn two_clicks_make_a_move() {
    let mut g = Game::new();
    assert_eq!(g.click(sq(0, 1)), ClickOutcome::Ignored);
    assert_eq!(g.selected_square(), None);
    assert_eq!(g.click(sq(6, 7)), ClickOutcome::Selected);
    assert_eq!(g.selected_square(), Some(sq(6, 7)));
    assert_eq!(g.click(sq(5, 5)), ClickOutcome::Moved);
    assert_eq!(g.selected_square(), None);
    assert_eq!(g.side_to_move(), Side::Light);
    assert_eq!(g.occupant_at(sq(5, 5)), Occupant::Occupied(Side::Dark, PieceKind::Knight));
    assert_eq!(g.occupant_at(sq(6, 7)), Occupant::Empty);
}

#[test]
fn rejected_click_clears_selection() {
    let mut g = Game::new();
    let before = snapshot(&g);
    assert_eq!(g.click(sq(2, 6)), ClickOutcome::Selected);
    assert_eq!(g.click(sq(2, 2)), ClickOutcome::Rejected);
    assert_eq!(g.selected_square(), None);
    assert_eq!(g.side_to_move(), Side::Dark);
    assert_eq!(snapshot(&g), before);
}
