//! The capture/evade move selector for computer players.

use vstd::prelude::*;

use crate::check::{
    board_registered, check_after_move, covers, has_move, move_valid_spec,
};
use crate::logic::{fld_at, Board, Field, Figure, Position};
use crate::player::Player;
use crate::player::PlayerType;

verus! {

/// The heuristic worth of capturing a figure of each kind.
pub open spec fn figure_value_spec(f: Figure) -> int {
    match f {
        Figure::King => 500,
        Figure::Queen => 100,
        Figure::Rook => 50,
        Figure::Bishop => 25,
        Figure::Knight => 25,
        Figure::Pawn => 10,
    }
}

/// Returns the measure of a figure's value.
pub fn figure_value(fig: &Figure) -> (r: i32)
    ensures
        r == figure_value_spec(*fig),
{
    match *fig {
        Figure::King => 500,
        Figure::Queen => 100,
        Figure::Rook => 50,
        Figure::Bishop => 25,
        Figure::Knight => 25,
        Figure::Pawn => 10,
    }
}

/// The score of a candidate move: the value of the captured figure,
/// minus the moving figure's value less one when the destination
/// square can be attacked afterwards.
pub open spec fn move_score(
    s: Seq<Field>,
    active: Player,
    inactive: Player,
    from: Position,
    to: Position,
) -> int {
    (if fld_at(s, to).figure is Some && fld_at(s, to).color != fld_at(s, from).color {
        figure_value_spec(fld_at(s, to).figure->0)
    } else {
        0
    }) + (if check_after_move(s, active, inactive, from, to, false) {
        -figure_value_spec(fld_at(s, from).figure->0) + 1
    } else {
        0
    })
}

/// Relies on rand::random_range: a value drawn from the given range,
/// so below `n`; the draw itself is arbitrary.
#[verifier::external_body]
fn random_below(n: usize) -> (r: usize)
    requires
        n > 0,
    ensures
        r < n,
{
    rand::random_range(0..n)
}

/// Returns a randomly drawn move of `moves`.
fn random_move(moves: &Vec<(Position, Position)>) -> (r: (Position, Position))
    requires
        moves@.len() > 0,
    ensures
        moves@.contains(r),
{
    let index = random_below(moves.len());
    let r = moves[index];
    proof {
        assert(moves@[index as int] == r);
    }
    r
}

/// Return the capture-and-evade score of the candidate move `pos`.
/// Nothing is mutated.
fn capture_and_evade(
    board: &mut Board,
    pos: &(Position, Position),
    active: &mut Player,
    inactive: &mut Player,
) -> (r: i32)
    requires
        old(board).wf(),
        pos.0.wf(),
        pos.1.wf(),
        old(active).wf(),
        old(active).distinct(),
        old(inactive).wf(),
        old(inactive).distinct(),
        old(active).color != old(inactive).color,
        covers(old(board).model(), *old(active)),
        covers(old(board).model(), *old(inactive)),
        old(active).owns(pos.0),
        fld_at(old(board).model(), pos.1).figure is Some ==> old(inactive).figs(
            fld_at(old(board).model(), pos.1).figure->0,
        ).contains(pos.1),
        old(active).figs(Figure::King).len() >= 1,
    ensures
        *final(board) == *old(board),
        *final(active) == *old(active),
        *final(inactive) == *old(inactive),
        r == move_score(old(board).model(), *old(active), *old(inactive), pos.0, pos.1),
    {
        proof {
            let f0 = choose|f: Figure| active.figs(f).contains(pos.0);
            assert(active.figs(f0).contains(pos.0));
        }
        let capture: i32 = if board.is_capture_move(pos.0, pos.1) {
            figure_value(&board.get_figure(pos.1).unwrap())
        } else {
            0
        };
        let evade: i32 = if board.simulate_check(pos.0, pos.1, active, inactive, false) {
            figure_value(&board.get_figure(pos.0).unwrap()) * -1 + 1
        } else {
            0
        };
        capture + evade
    }

/// Returns the best-scoring possible move, or a random one when no
/// candidate scores better than zero. Nothing is mutated.
#[verifier::loop_isolation(false)]
#[verifier::rlimit(60)]
fn get_dumb_move(board: &mut Board, me: &mut Player, other: &mut Player) -> (r: (
    Position,
    Position,
))
    requires
        old(board).wf(),
        old(me).wf(),
        old(me).distinct(),
        old(other).wf(),
        old(other).distinct(),
        old(me).color != old(other).color,
        covers(old(board).model(), *old(me)),
        covers(old(board).model(), *old(other)),
        board_registered(old(board).model(), *old(me), *old(other)),
        old(me).figs(Figure::King).len() >= 1,
        has_move(old(board).model(), *old(me), *old(other)),
    ensures
        *final(board) == *old(board),
        *final(me) == *old(me),
        *final(other) == *old(other),
        old(me).owns(r.0),
        r.1.wf(),
        move_valid_spec(old(board).model(), *old(me), *old(other), r.0, r.1),
        (exists|a: Position, b: Position|
            old(me).owns(a) && b.wf() && #[trigger] move_valid_spec(
                old(board).model(),
                *old(me),
                *old(other),
                a,
                b,
            ) && move_score(old(board).model(), *old(me), *old(other), a, b) > 0) ==> (forall|
            a: Position,
            b: Position,
        |
            old(me).owns(a) && b.wf() && #[trigger] move_valid_spec(
                old(board).model(),
                *old(me),
                *old(other),
                a,
                b,
            ) ==> move_score(old(board).model(), *old(me), *old(other), a, b) <= move_score(
                old(board).model(),
                *old(me),
                *old(other),
                r.0,
                r.1,
            )),
{
    let my_moves = me.get_possible_moves(board, other);
    proof {
        let (a, b) = choose|a: Position, b: Position|
            #[trigger] me.owns(a) && #[trigger] b.wf() && move_valid_spec(
                board.model(),
                *me,
                *other,
                a,
                b,
            );
        assert(my_moves@.contains((a, b)));
    }
    let n = my_moves.len();
    let first = my_moves[0];
    proof {
        assert(my_moves@.contains(my_moves@[0]));
    }
    let mut best_idx: usize = 0;
    let mut best_score: i32 = capture_and_evade(board, &first, me, other);
    let mut i: usize = 1;
    while i < n
        invariant
            1 <= i <= n,
            n == my_moves@.len(),
            *board == *old(board),
            *me == *old(me),
            *other == *old(other),
            best_idx < n,
            best_score == move_score(
                board.model(),
                *me,
                *other,
                my_moves@[best_idx as int].0,
                my_moves@[best_idx as int].1,
            ),
            forall|j: int|
                0 <= j < i ==> move_score(
                    board.model(),
                    *me,
                    *other,
                    (#[trigger] my_moves@[j]).0,
                    my_moves@[j].1,
                ) <= best_score,
        decreases n - i,
    {
        let m = my_moves[i];
        proof {
            assert(my_moves@.contains(my_moves@[i as int]));
        }
        let sc = capture_and_evade(board, &m, me, other);
        if sc >= best_score {
            best_idx = i;
            best_score = sc;
        }
        i = i + 1;
    }
    if best_score == 0 {
        proof {
            if exists|a: Position, b: Position|
                me.owns(a) && b.wf() && #[trigger] move_valid_spec(
                    board.model(),
                    *me,
                    *other,
                    a,
                    b,
                ) && move_score(board.model(), *me, *other, a, b) > 0 {
                let (a, b) = choose|a: Position, b: Position|
                    me.owns(a) && b.wf() && #[trigger] move_valid_spec(
                        board.model(),
                        *me,
                        *other,
                        a,
                        b,
                    ) && move_score(board.model(), *me, *other, a, b) > 0;
                assert(my_moves@.contains((a, b)));
                let j = choose|j: int| 0 <= j < my_moves@.len() && my_moves@[j] == (a, b);
                assert(my_moves@[j].0 == a && my_moves@[j].1 == b);
                assert(false);
            }
        }
        let r = random_move(&my_moves);
        r
    } else {
        let r = my_moves[best_idx];
        proof {
            assert(my_moves@.contains(my_moves@[best_idx as int]));
            if exists|a: Position, b: Position|
                me.owns(a) && b.wf() && #[trigger] move_valid_spec(
                    board.model(),
                    *me,
                    *other,
                    a,
                    b,
                ) && move_score(board.model(), *me, *other, a, b) > 0 {
                assert forall|a: Position, b: Position|
                    me.owns(a) && b.wf() && #[trigger] move_valid_spec(
                        board.model(),
                        *me,
                        *other,
                        a,
                        b,
                    ) implies move_score(board.model(), *me, *other, a, b) <= move_score(
                    board.model(),
                    *me,
                    *other,
                    r.0,
                    r.1,
                ) by {
                    assert(my_moves@.contains((a, b)));
                    let j = choose|j: int| 0 <= j < my_moves@.len() && my_moves@[j] == (a, b);
                    assert(my_moves@[j].0 == a && my_moves@[j].1 == b);
                }
            }
        }
        r
    }
}

/// The placeholder for a proper look-ahead selector: a fixed move.
fn get_smart_move(_board: Board, _me: Player, _other: Player) -> (r: (Position, Position))
    ensures
        r == (Position { x: 1, y: 1 }, Position { x: 1, y: 2 }),
{
    (Position::new(1, 1), Position::new(1, 2))
}

/// Returns a move for the AI, depending on which one it is: the
/// capture/evade heuristic for every kind but `Smart`, whose deeper
/// search is not implemented and yields a fixed placeholder move.
pub fn get_move(board: &Board, me: &Player, other: &Player) -> (r: (Position, Position))
    requires
        me.ptype != PlayerType::Smart ==> {
            &&& board.wf()
            &&& me.wf() && me.distinct()
            &&& other.wf() && other.distinct()
            &&& me.color != other.color
            &&& covers(board.model(), *me)
            &&& covers(board.model(), *other)
            &&& board_registered(board.model(), *me, *other)
            &&& me.figs(Figure::King).len() >= 1
            &&& has_move(board.model(), *me, *other)
        },
    ensures
        me.ptype == PlayerType::Smart ==> r == (
            Position { x: 1, y: 1 },
            Position { x: 1, y: 2 },
        ),
        me.ptype != PlayerType::Smart ==> {
            &&& me.owns(r.0)
            &&& r.1.wf()
            &&& move_valid_spec(board.model(), *me, *other, r.0, r.1)
        },
        me.ptype != PlayerType::Smart && (exists|a: Position, b: Position|
            me.owns(a) && b.wf() && #[trigger] move_valid_spec(board.model(), *me, *other, a, b)
                && move_score(board.model(), *me, *other, a, b) > 0) ==> (forall|
            a: Position,
            b: Position,
        |
            me.owns(a) && b.wf() && #[trigger] move_valid_spec(board.model(), *me, *other, a, b)
                ==> move_score(board.model(), *me, *other, a, b) <= move_score(
                board.model(),
                *me,
                *other,
                r.0,
                r.1,
            )),
{
    if me.ptype() != PlayerType::Smart {
        let mut sim_board = board.duplicate();
        let mut sim_me = me.duplicate();
        let mut sim_other = other.duplicate();
        proof {
            lemma_same_players_same_moves(board.model(), *me, *other, sim_me, sim_other);
            assert(sim_me.wf() && sim_me.distinct()) by {
                assert(forall|f: Figure, i: int|
                    0 <= i < sim_me.figs(f).len() ==> #[trigger] sim_me.figs(f)[i] == me.figs(
                        f,
                    )[i]);
            }
            assert(sim_other.wf() && sim_other.distinct()) by {
                assert(forall|f: Figure, i: int|
                    0 <= i < sim_other.figs(f).len() ==> #[trigger] sim_other.figs(f)[i]
                        == other.figs(f)[i]);
            }
            assert(has_move(board.model(), sim_me, sim_other)) by {
                let (a, b) = choose|a: Position, b: Position|
                    #[trigger] me.owns(a) && #[trigger] b.wf() && move_valid_spec(
                        board.model(),
                        *me,
                        *other,
                        a,
                        b,
                    );
                let f0 = choose|f: Figure| me.figs(f).contains(a);
                assert(sim_me.figs(f0).contains(a));
                assert(sim_me.owns(a));
            }
        }
        let r = get_dumb_move(&mut sim_board, &mut sim_me, &mut sim_other);
        proof {
            let f0 = choose|f: Figure| sim_me.figs(f).contains(r.0);
            assert(me.figs(f0).contains(r.0));
            assert(me.owns(r.0));
            assert forall|a: Position| #[trigger] me.owns(a) implies sim_me.owns(a) by {
                let f1 = choose|f: Figure| me.figs(f).contains(a);
                assert(sim_me.figs(f1).contains(a));
            }
            assert forall|a: Position| #[trigger] sim_me.owns(a) implies me.owns(a) by {
                let f1 = choose|f: Figure| sim_me.figs(f).contains(a);
                assert(me.figs(f1).contains(a));
            }
            if exists|a: Position, b: Position|
                me.owns(a) && b.wf() && #[trigger] move_valid_spec(
                    board.model(),
                    *me,
                    *other,
                    a,
                    b,
                ) && move_score(board.model(), *me, *other, a, b) > 0 {
                let (a0, b0) = choose|a: Position, b: Position|
                    me.owns(a) && b.wf() && #[trigger] move_valid_spec(
                        board.model(),
                        *me,
                        *other,
                        a,
                        b,
                    ) && move_score(board.model(), *me, *other, a, b) > 0;
                assert(sim_me.owns(a0) && b0.wf() && move_valid_spec(
                    board.model(),
                    sim_me,
                    sim_other,
                    a0,
                    b0,
                ) && move_score(board.model(), sim_me, sim_other, a0, b0) > 0);
                assert forall|a: Position, b: Position|
                    me.owns(a) && b.wf() && #[trigger] move_valid_spec(
                        board.model(),
                        *me,
                        *other,
                        a,
                        b,
                    ) implies move_score(board.model(), *me, *other, a, b) <= move_score(
                    board.model(),
                    *me,
                    *other,
                    r.0,
                    r.1,
                ) by {
                    assert(move_score(board.model(), sim_me, sim_other, a, b) <= move_score(
                        board.model(),
                        sim_me,
                        sim_other,
                        r.0,
                        r.1,
                    ));
                }
            }
        }
        r
    } else {
        get_smart_move(board.duplicate(), me.duplicate(), other.duplicate())
    }
}

/// Players holding the same figures in the same colors admit the same
/// valid moves and the same move scores.
proof fn lemma_same_players_same_moves(
    s: Seq<Field>,
    a1: Player,
    i1: Player,
    a2: Player,
    i2: Player,
)
    requires
        forall|f: Figure| #[trigger] a1.figs(f) == a2.figs(f),
        forall|f: Figure| #[trigger] i1.figs(f) == i2.figs(f),
        a1.color == a2.color,
        i1.color == i2.color,
    ensures
        forall|from: Position, to: Position, king: bool|
            #[trigger] check_after_move(s, a1, i1, from, to, king) == check_after_move(
                s,
                a2,
                i2,
                from,
                to,
                king,
            ),
        forall|from: Position, to: Position|
            #[trigger] move_valid_spec(s, a1, i1, from, to) == move_valid_spec(
                s,
                a2,
                i2,
                from,
                to,
            ),
        forall|from: Position, to: Position|
            #[trigger] move_score(s, a1, i1, from, to) == move_score(s, a2, i2, from, to),
{
    assert forall|from: Position, to: Position, king: bool|
        #[trigger] check_after_move(s, a1, i1, from, to, king) == check_after_move(
            s,
            a2,
            i2,
            from,
            to,
            king,
        ) by {
        if check_after_move(s, a1, i1, from, to, king) {
            let (f, q) = choose|f: Figure, q: Position|
                #[trigger] i1.figs(f).contains(q) && q != to && crate::check::threat_from(
                    crate::logic::board_moved(s, from, to),
                    i1.color,
                    q,
                    crate::check::king_pos_after(a1, from, to, king),
                );
            assert(i2.figs(f).contains(q));
        }
        if check_after_move(s, a2, i2, from, to, king) {
            let (f, q) = choose|f: Figure, q: Position|
                #[trigger] i2.figs(f).contains(q) && q != to && crate::check::threat_from(
                    crate::logic::board_moved(s, from, to),
                    i2.color,
                    q,
                    crate::check::king_pos_after(a2, from, to, king),
                );
            assert(i1.figs(f).contains(q));
        }
    }
}

} // verus!
