//! General laws of the engine, stated once so a reader sees them
//! rather than having to derive them from the individual contracts.

use vstd::prelude::*;

use crate::check::{checkmate_spec, lemma_pidx_inj, move_valid_spec};
use crate::game::ChessGame;
use crate::logic::{board_moved, board_wf, empty_field, fld, fld_at, Field, Figure, Position};
use crate::player::subst;

verus! {

/// Relocating the figure on `a` to a free square `b` and then moving
/// it back restores the board exactly as it was: the squares emptied
/// on the way get their checkerboard color back, which is just the
/// color they carried while empty before.
pub proof fn lemma_board_move_roundtrip(s: Seq<Field>, a: Position, b: Position)
    requires
        board_wf(s),
        a.wf(),
        b.wf(),
        a != b,
        fld_at(s, a).figure is Some,
        fld_at(s, b).figure is None,
    ensures
        board_moved(board_moved(s, a, b), b, a) == s,
{
    lemma_pidx_inj(a, b);
    assert(fld(s, b.x as int, b.y as int).color == crate::logic::parity_color(
        b.x as int,
        b.y as int,
    ));
    assert(fld_at(s, b) == empty_field(b));
    assert(board_moved(board_moved(s, a, b), b, a) =~= s);
}

/// Relocating a registry entry from `a` to an unheld square `b` and
/// then back restores the position list exactly as it was.
pub proof fn lemma_registry_move_roundtrip(s: Seq<Position>, a: Position, b: Position)
    requires
        a != b,
        !s.contains(b),
    ensures
        subst(subst(s, a, b), b, a) == s,
{
    assert forall|i: int| 0 <= i < s.len() implies subst(subst(s, a, b), b, a)[i] == s[i] by {
        if s[i] == b {
            assert(s.contains(b));
        }
    }
    assert(subst(subst(s, a, b), b, a) =~= s);
}

/// Whether a turn attempt is turned down: the game is over, checkmate
/// is pending, or the move itself is not legal.
pub open spec fn turn_rejected(g: ChessGame, from: Position, to: Position) -> bool {
    ||| g.gameover
    ||| checkmate_spec(g.board.model(), g.white_player, g.black_player)
    ||| !move_valid_spec(g.board.model(), g.active(), g.inactive(), from, to)
}

/// Rejection is idempotent: [`ChessGame::do_turn`] answers `-1`
/// exactly on rejected attempts and then leaves the game untouched,
/// so offering the same move again to the unchanged state is rejected
/// again, with the same answer and again without mutation.
pub proof fn lemma_rejected_turn_idempotent(
    g1: ChessGame,
    g2: ChessGame,
    from: Position,
    to: Position,
)
    requires
        turn_rejected(g1, from, to),
        g2 == g1,
    ensures
        turn_rejected(g2, from, to),
{
}

/// In every reachable game state each side holds exactly one king:
/// [`ChessGame::new`] establishes the invariant and every turn
/// preserves it.
pub proof fn lemma_one_king_each(g: ChessGame)
    requires
        g.inv(),
    ensures
        g.white_player.figs(Figure::King).len() == 1,
        g.black_player.figs(Figure::King).len() == 1,
{
}

} // verus!
