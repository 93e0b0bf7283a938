//! Whole-engine behavior: turns, check, checkmate, promotion, the AI
//! and the state-preservation laws.

use chess::ai;
use chess::game::ChessGame;
use chess::logic::{Board, Color, Field, Figure, Position};
use chess::player::{Player, PlayerType};
use chess::system::System;

fn empty_board() -> Board {
    let mut fields = Vec::new();
    for y in 0..8u8 {
        for x in 0..8u8 {
            fields.push(Field {
                color: Field::get_field_color(Position::new(x, y)),
                figure: None,
            });
        }
    }
    Board { fields }
}

fn bare_player(ptype: PlayerType, color: Color) -> Player {
    Player { ptype, color, figures: vec![Vec::new(); 6] }
}

fn place(board: &mut Board, player: &mut Player, fig: Figure, x: u8, y: u8) {
    let pos = Position::new(x, y);
    board.set_figure(pos, fig, player.color());
    player.figures[fig.index()].push(pos);
}

fn boards_equal(a: &Board, b: &Board) -> bool {
    (0..8u8).all(|y| (0..8u8).all(|x| a.field_at(Position::new(x, y)) == b.field_at(Position::new(x, y))))
}

fn players_equal(a: &Player, b: &Player) -> bool {
    a.color() == b.color() && a.ptype() == b.ptype() && a.figures() == b.figures()
}

#[test]
fn initial_registries() {
    let g = ChessGame::new();
    assert_eq!(g.white_player.color(), Color::White);
    assert_eq!(g.black_player.color(), Color::Black);
    assert_eq!(g.white_player.king(), Position::new(4, 0));
    assert_eq!(g.black_player.king(), Position::new(4, 7));
    assert_eq!(g.white_player.figures()[Figure::Pawn.index()].len(), 8);
    assert_eq!(g.black_player.figures()[Figure::Rook.index()].len(), 2);
    assert_eq!(g.white_player.figures()[Figure::King.index()].len(), 1);
}

#[test]
fn pawn_double_step_accepted() {
    let mut g = ChessGame::new();
    assert_eq!(g.turn_color(), Color::White);
    let r = g.do_turn(Position::new(4, 1), Position::new(4, 3));
    assert_eq!(r, 0);
    assert!(g.board.is_empty(Position::new(4, 1)));
    assert_eq!(g.board.get_figure(Position::new(4, 3)), Some(Figure::Pawn));
    assert_eq!(g.turn_color(), Color::Black);
    assert!(!g.is_game_over());
}

#[test]
fn pawn_triple_step_rejected() {
    let mut g = ChessGame::new();
    let reference = ChessGame::new();
    let r = g.do_turn(Position::new(4, 1), Position::new(4, 4));
    assert_eq!(r, -1);
    assert!(boards_equal(&g.board, &reference.board));
    assert_eq!(g.turn_color(), Color::White);
}

#[test]
fn rejected_turn_is_idempotent() {
    let mut g = ChessGame::new();
    let r1 = g.do_turn(Position::new(0, 1), Position::new(3, 4));
    let board_snapshot = g.board.duplicate();
    let white_snapshot = g.white_player.duplicate();
    let black_snapshot = g.black_player.duplicate();
    let r2 = g.do_turn(Position::new(0, 1), Position::new(3, 4));
    assert_eq!(r1, -1);
    assert_eq!(r2, -1);
    assert!(boards_equal(&g.board, &board_snapshot));
    assert!(players_equal(&g.white_player, &white_snapshot));
    assert!(players_equal(&g.black_player, &black_snapshot));
    assert!(!g.gameover);
}

#[test]
fn knight_development_accepted_but_own_square_refused() {
    let mut g = ChessGame::new();
    // the (2,1) shape onto the own pawn is refused
    let r = g.do_turn(Position::new(1, 0), Position::new(3, 1));
    assert_eq!(r, -1);
    // the (1,2) shape onto a free square is accepted
    let r = g.do_turn(Position::new(1, 0), Position::new(2, 2));
    assert_eq!(r, 0);
    assert_eq!(g.board.get_figure(Position::new(2, 2)), Some(Figure::Knight));
}

#[test]
fn game_over_turns_are_no_ops() {
    let mut g = ChessGame::new();
    g.gameover = true;
    let reference = ChessGame::new();
    assert_eq!(g.do_turn(Position::new(4, 1), Position::new(4, 2)), -1);
    assert_eq!(g.do_ai_turn(), None);
    assert!(boards_equal(&g.board, &reference.board));
    assert!(g.is_game_over());
}

#[test]
fn simulate_check_preserves_state() {
    // a probing capture: the white rook takes the black pawn
    let mut board = empty_board();
    let mut white = bare_player(PlayerType::Human, Color::White);
    let mut black = bare_player(PlayerType::Human, Color::Black);
    place(&mut board, &mut white, Figure::King, 4, 0);
    place(&mut board, &mut white, Figure::Rook, 0, 0);
    place(&mut board, &mut black, Figure::King, 7, 7);
    place(&mut board, &mut black, Figure::Pawn, 0, 3);
    let board_snapshot = board.duplicate();
    let white_snapshot = white.duplicate();
    let black_snapshot = black.duplicate();
    let threatened = board.simulate_check(
        Position::new(0, 0),
        Position::new(0, 3),
        &mut white,
        &mut black,
        true,
    );
    assert!(!threatened);
    assert!(boards_equal(&board, &board_snapshot));
    assert!(players_equal(&white, &white_snapshot));
    assert!(players_equal(&black, &black_snapshot));
    // the same probe asking about the reached square instead
    let attacked_after = board.simulate_check(
        Position::new(0, 0),
        Position::new(0, 3),
        &mut white,
        &mut black,
        false,
    );
    assert!(!attacked_after);
    assert!(boards_equal(&board, &board_snapshot));
    assert!(players_equal(&white, &white_snapshot));
    assert!(players_equal(&black, &black_snapshot));
}

#[test]
fn move_into_check_is_rejected() {
    let mut board = empty_board();
    let mut white = bare_player(PlayerType::Human, Color::White);
    let mut black = bare_player(PlayerType::Human, Color::Black);
    place(&mut board, &mut white, Figure::King, 0, 0);
    place(&mut board, &mut black, Figure::King, 7, 7);
    place(&mut board, &mut black, Figure::Rook, 7, 1);
    // stepping onto the rook's rank is refused, stepping aside is fine
    assert!(!board.is_move_valid(Position::new(0, 0), Position::new(0, 1), &mut white, &mut black));
    assert!(board.is_move_valid(Position::new(0, 0), Position::new(1, 0), &mut white, &mut black));
}

#[test]
fn diagonal_queen_checkmate() {
    let mut board = empty_board();
    let mut white = bare_player(PlayerType::Human, Color::White);
    let mut black = bare_player(PlayerType::Human, Color::Black);
    place(&mut board, &mut white, Figure::King, 1, 1);
    place(&mut board, &mut black, Figure::King, 7, 7);
    place(&mut board, &mut black, Figure::Queen, 4, 4);
    place(&mut board, &mut black, Figure::Rook, 0, 7);
    place(&mut board, &mut black, Figure::Rook, 7, 0);
    place(&mut board, &mut black, Figure::Rook, 7, 2);
    place(&mut board, &mut black, Figure::Rook, 2, 7);
    // the queen reaches the king on a clear diagonal and every escape
    // square is covered; the king cannot intervene or take the queen
    assert!(board.in_check(white.king(), &black));
    assert!(board.checkmate(&mut white, &mut black));
}

#[test]
fn not_checkmate_when_escape_exists() {
    let mut board = empty_board();
    let mut white = bare_player(PlayerType::Human, Color::White);
    let mut black = bare_player(PlayerType::Human, Color::Black);
    place(&mut board, &mut white, Figure::King, 1, 1);
    place(&mut board, &mut black, Figure::King, 7, 7);
    place(&mut board, &mut black, Figure::Queen, 4, 4);
    assert!(board.in_check(white.king(), &black));
    assert!(!board.checkmate(&mut white, &mut black));
}

#[test]
fn pawn_promotion_to_queen() {
    let mut board = empty_board();
    let mut white = bare_player(PlayerType::Human, Color::White);
    let mut black = bare_player(PlayerType::Human, Color::Black);
    place(&mut board, &mut white, Figure::King, 4, 0);
    place(&mut board, &mut white, Figure::Pawn, 0, 6);
    place(&mut board, &mut black, Figure::King, 7, 7);
    let mut g = ChessGame { white_player: white, black_player: black, board, turn: true, gameover: false };
    let r = g.do_turn(Position::new(0, 6), Position::new(0, 7));
    assert_eq!(r, 1);
    assert_eq!(g.board.get_figure(Position::new(0, 7)), Some(Figure::Queen));
    assert!(!g.white_player.figures()[Figure::Pawn.index()].contains(&Position::new(0, 7)));
    assert!(g.white_player.figures()[Figure::Pawn.index()].is_empty());
    assert!(g.white_player.figures()[Figure::Queen.index()].contains(&Position::new(0, 7)));
}

#[test]
fn promotion_with_capture_reports_both() {
    let mut board = empty_board();
    let mut white = bare_player(PlayerType::Human, Color::White);
    let mut black = bare_player(PlayerType::Human, Color::Black);
    place(&mut board, &mut white, Figure::King, 4, 0);
    place(&mut board, &mut white, Figure::Pawn, 0, 6);
    place(&mut board, &mut black, Figure::King, 7, 7);
    place(&mut board, &mut black, Figure::Rook, 1, 7);
    let mut g = ChessGame { white_player: white, black_player: black, board, turn: true, gameover: false };
    let r = g.do_turn(Position::new(0, 6), Position::new(1, 7));
    assert_eq!(r, 3);
    assert_eq!(g.board.get_figure(Position::new(1, 7)), Some(Figure::Queen));
    assert!(g.black_player.figures()[Figure::Rook.index()].is_empty());
}

#[test]
fn kings_survive_a_capture_exchange() {
    let mut g = ChessGame::new();
    assert_eq!(g.do_turn(Position::new(4, 1), Position::new(4, 3)), 0);
    assert_eq!(g.do_turn(Position::new(3, 6), Position::new(3, 4)), 0);
    // the white pawn takes the black one
    assert_eq!(g.do_turn(Position::new(4, 3), Position::new(3, 4)), 2);
    assert_eq!(g.white_player.figures()[Figure::King.index()].len(), 1);
    assert_eq!(g.black_player.figures()[Figure::King.index()].len(), 1);
    assert_eq!(g.black_player.figures()[Figure::Pawn.index()].len(), 7);
}

#[test]
fn dumb_ai_takes_the_free_rook() {
    let mut board = empty_board();
    let mut white = bare_player(PlayerType::Dumb, Color::White);
    let mut black = bare_player(PlayerType::Human, Color::Black);
    place(&mut board, &mut white, Figure::King, 4, 0);
    place(&mut board, &mut white, Figure::Rook, 0, 0);
    place(&mut board, &mut black, Figure::King, 7, 7);
    place(&mut board, &mut black, Figure::Rook, 0, 5);
    // exactly one candidate captures, everything else scores zero or
    // worse, so no random tie-break may trigger
    for _ in 0..20 {
        let mv = ai::get_move(&board, &white, &black);
        assert_eq!(mv, (Position::new(0, 0), Position::new(0, 5)));
        let mv2 = white.get_ai_move(&board, &black);
        assert_eq!(mv2, (Position::new(0, 0), Position::new(0, 5)));
    }
}

#[test]
fn dumb_ai_opening_move_is_legal() {
    let g = ChessGame::new();
    let mut white = g.white_player.duplicate();
    white.set_ptype(PlayerType::Dumb);
    let (from, to) = ai::get_move(&g.board, &white, &g.black_player);
    // whatever the random tie-break chose, it is a legal white move
    assert_eq!(g.board.get_figure_color(from), Some(Color::White));
    let mut board = g.board.duplicate();
    let mut w = white.duplicate();
    let mut b = g.black_player.duplicate();
    assert!(board.is_move_valid(from, to, &mut w, &mut b));
}

#[test]
fn smart_ai_placeholder_move() {
    let board = Board::new();
    let white = Player::new(PlayerType::Smart, Color::White);
    let black = Player::new(PlayerType::Human, Color::Black);
    let mv = ai::get_move(&board, &white, &black);
    assert_eq!(mv, (Position::new(1, 1), Position::new(1, 2)));
}

#[test]
fn figure_value_table() {
    assert_eq!(ai::figure_value(&Figure::King), 500);
    assert_eq!(ai::figure_value(&Figure::Queen), 100);
    assert_eq!(ai::figure_value(&Figure::Rook), 50);
    assert_eq!(ai::figure_value(&Figure::Bishop), 25);
    assert_eq!(ai::figure_value(&Figure::Knight), 25);
    assert_eq!(ai::figure_value(&Figure::Pawn), 10);
}

#[test]
fn ai_turn_executes_for_the_computer_side() {
    let mut board = empty_board();
    let mut white = bare_player(PlayerType::Dumb, Color::White);
    let mut black = bare_player(PlayerType::Human, Color::Black);
    place(&mut board, &mut white, Figure::King, 4, 0);
    place(&mut board, &mut white, Figure::Rook, 0, 0);
    place(&mut board, &mut black, Figure::King, 7, 7);
    place(&mut board, &mut black, Figure::Rook, 0, 5);
    let mut g = ChessGame { white_player: white, black_player: black, board, turn: true, gameover: false };
    let r = g.do_ai_turn();
    let ((from, to), (captured, upgraded)) = r.expect("the computer side was to move");
    assert_eq!((from, to), (Position::new(0, 0), Position::new(0, 5)));
    assert!(captured);
    assert!(!upgraded);
    assert_eq!(g.turn_color(), Color::Black);
    // a human side yields nothing
    assert_eq!(g.do_ai_turn(), None);
}

#[test]
fn checkmate_latches_gameover() {
    let mut board = empty_board();
    let mut white = bare_player(PlayerType::Human, Color::White);
    let mut black = bare_player(PlayerType::Human, Color::Black);
    place(&mut board, &mut white, Figure::King, 1, 1);
    place(&mut board, &mut black, Figure::King, 7, 7);
    place(&mut board, &mut black, Figure::Queen, 4, 4);
    place(&mut board, &mut black, Figure::Rook, 0, 7);
    place(&mut board, &mut black, Figure::Rook, 7, 0);
    place(&mut board, &mut black, Figure::Rook, 7, 2);
    place(&mut board, &mut black, Figure::Rook, 2, 7);
    let mut g = ChessGame { white_player: white, black_player: black, board, turn: true, gameover: false };
    assert!(!g.is_game_over());
    let r = g.do_turn(Position::new(1, 1), Position::new(2, 1));
    assert_eq!(r, -1);
    assert!(g.is_game_over());
    // further turns stay rejected
    assert_eq!(g.do_turn(Position::new(1, 1), Position::new(2, 1)), -1);
    assert_eq!(g.do_ai_turn(), None);
}

#[test]
fn player_capture_and_reverse_capture() {
    let mut p = Player::new(PlayerType::Human, Color::White);
    let rook = Position::new(0, 0);
    p.capture("rook".to_owned(), rook);
    assert!(!p.figures()[Figure::Rook.index()].contains(&rook));
    assert_eq!(p.figures()[Figure::Rook.index()].len(), 1);
    p.reverse_capture("rook".to_owned(), rook);
    assert!(p.figures()[Figure::Rook.index()].contains(&rook));
    assert_eq!(p.figures()[Figure::Rook.index()].len(), 2);
}

#[test]
fn player_move_figure_and_back_restores_list() {
    let mut p = Player::new(PlayerType::Human, Color::White);
    let snapshot = p.duplicate();
    p.move_figure(Position::new(4, 1), Position::new(4, 3));
    assert!(p.figures()[Figure::Pawn.index()].contains(&Position::new(4, 3)));
    p.move_figure(Position::new(4, 3), Position::new(4, 1));
    assert!(players_equal(&p, &snapshot));
}

#[test]
fn upgrade_pawn_moves_entry_to_queens() {
    let mut p = Player::new(PlayerType::Human, Color::White);
    let pos = Position::new(2, 1);
    p.upgrade_pawn(pos);
    assert!(!p.figures()[Figure::Pawn.index()].contains(&pos));
    assert_eq!(p.figures()[Figure::Pawn.index()].len(), 7);
    assert!(p.figures()[Figure::Queen.index()].contains(&pos));
}

#[test]
fn system_selection_and_play() {
    let mut sys = System::new();
    assert_eq!(sys.mouse(), (0, 0));
    sys.set_mouse_coordinates(5, 9);
    assert_eq!(sys.mouse(), (5, 9));
    // selecting an empty square first does nothing
    sys.set_selected((4, 4));
    assert_eq!(sys.from, None);
    // a white pawn, then its double-step target
    sys.set_selected((4, 1));
    assert_eq!(sys.from, Some(Position::new(4, 1)));
    sys.set_selected((4, 3));
    assert_eq!(sys.to, Some(Position::new(4, 3)));
    let played = sys.check_ready_and_play();
    assert_eq!(played, Some(((Color::White, Position::new(4, 1), Position::new(4, 3)), false)));
    assert_eq!(sys.from, None);
    assert_eq!(sys.to, None);
    assert!(!sys.has_ai());
}

#[test]
fn system_toggle_player_ai() {
    let mut sys = System::new();
    sys.toggle_player_ai(false);
    assert!(sys.has_ai());
    assert_eq!(sys.game.black_player.ptype(), PlayerType::Dumb);
    sys.toggle_player_ai(false);
    assert!(!sys.has_ai());
    assert_eq!(sys.game.black_player.ptype(), PlayerType::Human);
}
