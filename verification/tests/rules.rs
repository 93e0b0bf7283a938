//! Unit-level behavior of positions, figures, fields and boards.

use chess::logic::{Board, Color, Field, Figure, Position};

fn empty_board() -> Board {
    let mut fields = Vec::new();
    for y in 0..8u8 {
        for x in 0..8u8 {
            fields.push(Field {
                color: Field::get_field_color(Position::new(x, y)),
                figure: None,
            });
        }
    }
    Board { fields }
}

#[test]
fn position_bounds() {
    assert!(Position::is_pos(0, 0));
    assert!(Position::is_pos(7, 7));
    assert!(!Position::is_pos(8, 0));
    assert!(!Position::is_pos(0, 8));
    let p = Position::new(4, 1);
    assert_eq!(p.x, 4);
    assert_eq!(p.y, 1);
}

#[test]
fn color_opposite() {
    assert_eq!(Color::White.opposite(), Color::Black);
    assert_eq!(Color::Black.opposite(), Color::White);
}

#[test]
fn figure_names_roundtrip() {
    let kinds = [
        Figure::King,
        Figure::Queen,
        Figure::Bishop,
        Figure::Knight,
        Figure::Rook,
        Figure::Pawn,
    ];
    for f in kinds {
        assert_eq!(Figure::from_name(f.name().as_str()), f);
    }
    assert_eq!(Figure::from_name("queen"), Figure::Queen);
    assert_eq!(Figure::King.name(), "king");
    assert_eq!(Figure::Knight.name(), "knight");
}

#[test]
fn figure_short_names() {
    assert_eq!(Figure::King.short(), "Ki");
    assert_eq!(Figure::Queen.short(), "Qu");
    assert_eq!(Figure::Rook.short(), "Ro");
    assert_eq!(Figure::Knight.short(), "Kn");
    assert_eq!(Figure::Bishop.short(), "Bi");
    assert_eq!(Figure::Pawn.short(), "Pa");
}

#[test]
fn initial_board_layout() {
    let b = Board::new();
    assert_eq!(b.get_figure(Position::new(0, 0)), Some(Figure::Rook));
    assert_eq!(b.get_figure(Position::new(1, 0)), Some(Figure::Knight));
    assert_eq!(b.get_figure(Position::new(2, 0)), Some(Figure::Bishop));
    assert_eq!(b.get_figure(Position::new(3, 0)), Some(Figure::Queen));
    assert_eq!(b.get_figure(Position::new(4, 0)), Some(Figure::King));
    for x in 0..8 {
        assert_eq!(b.get_figure(Position::new(x, 1)), Some(Figure::Pawn));
        assert_eq!(b.get_figure_color(Position::new(x, 1)), Some(Color::White));
        assert_eq!(b.get_figure(Position::new(x, 6)), Some(Figure::Pawn));
        assert_eq!(b.get_figure_color(Position::new(x, 6)), Some(Color::Black));
        for y in 2..6 {
            assert!(b.is_empty(Position::new(x, y)));
            assert_eq!(b.get_figure_color(Position::new(x, y)), None);
        }
    }
    assert_eq!(b.get_figure(Position::new(4, 7)), Some(Figure::King));
    assert_eq!(b.get_figure_color(Position::new(4, 7)), Some(Color::Black));
}

#[test]
fn empty_field_colors_follow_parity() {
    let b = Board::new();
    // (0, 2) has even file and even rank: a black square
    assert_eq!(b.field_at(Position::new(0, 2)).color, Color::Black);
    assert_eq!(b.field_at(Position::new(0, 3)).color, Color::White);
    assert_eq!(b.field_at(Position::new(1, 2)).color, Color::White);
}

#[test]
fn capture_move_detection() {
    let mut b = empty_board();
    b.set_figure(Position::new(0, 0), Figure::Rook, Color::White);
    b.set_figure(Position::new(0, 5), Figure::Rook, Color::Black);
    b.set_figure(Position::new(3, 0), Figure::Pawn, Color::White);
    assert!(b.is_capture_move(Position::new(0, 0), Position::new(0, 5)));
    assert!(!b.is_capture_move(Position::new(0, 0), Position::new(3, 0)));
    assert!(!b.is_capture_move(Position::new(0, 0), Position::new(4, 4)));
}

#[test]
fn knight_accepts_both_jump_shapes() {
    let mut b = empty_board();
    b.set_figure(Position::new(1, 0), Figure::Knight, Color::White);
    let n = Figure::Knight;
    // the (1,2) displacement
    assert!(n.valid_move(&b, Position::new(1, 0), Position::new(2, 2), &Color::White));
    // the (2,1) displacement
    assert!(n.valid_move(&b, Position::new(1, 0), Position::new(3, 1), &Color::White));
    // not a knight shape
    assert!(!n.valid_move(&b, Position::new(1, 0), Position::new(3, 2), &Color::White));
    assert!(!n.valid_move(&b, Position::new(1, 0), Position::new(1, 2), &Color::White));
}

#[test]
fn sliding_moves_respect_blockers() {
    let mut b = empty_board();
    b.set_figure(Position::new(0, 0), Figure::Rook, Color::White);
    b.set_figure(Position::new(0, 3), Figure::Pawn, Color::White);
    let r = Figure::Rook;
    assert!(r.valid_move(&b, Position::new(0, 0), Position::new(0, 2), &Color::White));
    // blocked by the own pawn
    assert!(!r.valid_move(&b, Position::new(0, 0), Position::new(0, 3), &Color::White));
    assert!(!r.valid_move(&b, Position::new(0, 0), Position::new(0, 5), &Color::White));
    // sideways is free
    assert!(r.valid_move(&b, Position::new(0, 0), Position::new(7, 0), &Color::White));
    // a zero move is no rook move
    assert!(!r.valid_move(&b, Position::new(0, 0), Position::new(0, 0), &Color::White));
}

#[test]
fn bishop_and_queen_diagonals() {
    let mut b = empty_board();
    b.set_figure(Position::new(2, 2), Figure::Bishop, Color::White);
    b.set_figure(Position::new(4, 4), Figure::Pawn, Color::Black);
    let bi = Figure::Bishop;
    assert!(bi.valid_move(&b, Position::new(2, 2), Position::new(3, 3), &Color::White));
    // capturing the black pawn diagonally
    assert!(bi.valid_move(&b, Position::new(2, 2), Position::new(4, 4), &Color::White));
    // blocked behind it
    assert!(!bi.valid_move(&b, Position::new(2, 2), Position::new(5, 5), &Color::White));
    // not a diagonal
    assert!(!bi.valid_move(&b, Position::new(2, 2), Position::new(2, 5), &Color::White));
    let q = Figure::Queen;
    assert!(q.valid_move(&b, Position::new(2, 2), Position::new(2, 7), &Color::White));
    assert!(q.valid_move(&b, Position::new(2, 2), Position::new(0, 2), &Color::White));
    assert!(!q.valid_move(&b, Position::new(2, 2), Position::new(3, 4), &Color::White));
}

#[test]
fn pawn_rules() {
    let b = Board::new();
    let p = Figure::Pawn;
    // single and double step from the starting rank
    assert!(p.valid_move(&b, Position::new(4, 1), Position::new(4, 2), &Color::White));
    assert!(p.valid_move(&b, Position::new(4, 1), Position::new(4, 3), &Color::White));
    assert!(!p.valid_move(&b, Position::new(4, 1), Position::new(4, 4), &Color::White));
    // no sideways or backward moves
    assert!(!p.valid_move(&b, Position::new(4, 1), Position::new(5, 1), &Color::White));
    assert!(!p.valid_move(&b, Position::new(4, 1), Position::new(4, 0), &Color::White));
    // no diagonal onto an empty square
    assert!(!p.valid_move(&b, Position::new(4, 1), Position::new(5, 2), &Color::White));
    // black moves down
    assert!(p.valid_move(&b, Position::new(4, 6), Position::new(4, 4), &Color::Black));
    assert!(p.valid_move(&b, Position::new(4, 6), Position::new(4, 5), &Color::Black));
    assert!(!p.valid_move(&b, Position::new(4, 6), Position::new(4, 7), &Color::Black));
    // a diagonal capture
    let mut b2 = empty_board();
    b2.set_figure(Position::new(3, 3), Figure::Pawn, Color::White);
    b2.set_figure(Position::new(4, 4), Figure::Rook, Color::Black);
    assert!(p.valid_move(&b2, Position::new(3, 3), Position::new(4, 4), &Color::White));
    assert!(!p.valid_move(&b2, Position::new(3, 3), Position::new(2, 4), &Color::White));
}

#[test]
fn board_move_figure_roundtrip() {
    let reference = Board::new();
    let mut b = Board::new();
    let a = Position::new(1, 0);
    let c = Position::new(2, 2);
    b.move_figure(a, c);
    assert!(b.is_empty(a));
    assert_eq!(b.get_figure(c), Some(Figure::Knight));
    b.move_figure(c, a);
    for y in 0..8u8 {
        for x in 0..8u8 {
            let p = Position::new(x, y);
            assert_eq!(b.field_at(p), reference.field_at(p));
        }
    }
}
