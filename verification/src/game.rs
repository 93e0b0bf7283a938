//! The turn orchestrator: whose move it is, move execution with
//! capture and promotion bookkeeping, and the game-over latch.

use vstd::prelude::*;

use crate::check::{
    board_registered, check_after_move, checkmate_spec, covers, king_pos_after, lemma_pidx_inj,
    lemma_removed_contains, lemma_subst_contains, lemma_threat_same_occupancy, move_valid_spec,
    player_in_check, threat_from,
};
use crate::logic::{
    back_rank, board_moved, empty_field, fld, fld_at, init_field, move_ok, pidx, Board, Color,
    Field, Figure, Position,
};
use crate::player::{init_figs, subst, Player, PlayerType};

verus! {

/// The board model after executing a validated move of the side `c`,
/// including the queen left behind by a pawn promoted on
/// `promote_rank` before the relocation.
pub open spec fn board_after_turn(
    s: Seq<Field>,
    from: Position,
    to: Position,
    c: Color,
    promote_rank: int,
) -> Seq<Field> {
    if to.y == promote_rank && fld_at(s, from).figure == Some(Figure::Pawn) {
        board_moved(
            s.update(pidx(from), Field { color: c, figure: Some(Figure::Queen) }),
            from,
            to,
        )
    } else {
        board_moved(s, from, to)
    }
}

/// Which squares the moving player's kind-`f` list holds after the
/// move (with promotion accounted for).
pub open spec fn member_after_move(
    a0: Player,
    from: Position,
    to: Position,
    promo: bool,
    f: Figure,
    q: Position,
) -> bool {
    if promo {
        if f == Figure::Pawn {
            a0.figs(Figure::Pawn).contains(q) && q != from
        } else if f == Figure::Queen {
            q == to || (a0.figs(Figure::Queen).contains(q) && q != from)
        } else {
            a0.figs(f).contains(q) && q != from
        }
    } else {
        (q == to && a0.figs(f).contains(from)) || (a0.figs(f).contains(q) && q != from)
    }
}

/// Removing one entry of one list keeps the registry well-formed and
/// duplicate-free.
proof fn lemma_capture_shape(i0: Player, i1: Player, ck: Figure, j: int)
    requires
        i0.wf(),
        i0.distinct(),
        0 <= j < i0.figs(ck).len(),
        i1.figures@.len() == 6,
        i1.figs(ck) == i0.figs(ck).remove(j),
        forall|g: Figure| g != ck ==> #[trigger] i1.figs(g) == i0.figs(g),
    ensures
        i1.wf(),
        i1.distinct(),
{
    assert forall|fa: Figure, ia: int, fb: Figure, ib: int|
        0 <= ia < i1.figs(fa).len() && 0 <= ib < i1.figs(fb).len() && (fa != fb || ia
            != ib) implies #[trigger] i1.figs(fa)[ia] != #[trigger] i1.figs(fb)[ib] by {
        let sa: int = if fa == ck && ia >= j {
            ia + 1
        } else {
            ia
        };
        let sb: int = if fb == ck && ib >= j {
            ib + 1
        } else {
            ib
        };
        assert(i1.figs(fa)[ia] == i0.figs(fa)[sa]);
        assert(i1.figs(fb)[ib] == i0.figs(fb)[sb]);
    }
    assert forall|f: Figure, i: int|
        0 <= i < i1.figs(f).len() implies (#[trigger] i1.figs(f)[i]).wf() by {
        let si: int = if f == ck && i >= j {
            i + 1
        } else {
            i
        };
        assert(i1.figs(f)[i] == i0.figs(f)[si]);
    }
}

/// Promoting the pawn on `from` keeps the registry well-formed and
/// duplicate-free, and moves exactly that entry to the queen list.
proof fn lemma_upgrade_shape(a0: Player, a1: Player, from: Position, j: int)
    requires
        a0.wf(),
        a0.distinct(),
        0 <= j < a0.figs(Figure::Pawn).len(),
        a0.figs(Figure::Pawn)[j] == from,
        a1.figures@.len() == 6,
        a1.figs(Figure::Pawn) == a0.figs(Figure::Pawn).remove(j),
        a1.figs(Figure::Queen) == a0.figs(Figure::Queen).push(from),
        forall|g: Figure|
            g != Figure::Pawn && g != Figure::Queen ==> #[trigger] a1.figs(g) == a0.figs(g),
    ensures
        a1.wf(),
        a1.distinct(),
        a1.figs(Figure::Queen).contains(from),
        forall|f: Figure, q: Position|
            #[trigger] a1.figs(f).contains(q) <==> (if f == Figure::Pawn {
                a0.figs(Figure::Pawn).contains(q) && q != from
            } else if f == Figure::Queen {
                q == from || a0.figs(Figure::Queen).contains(q)
            } else {
                a0.figs(f).contains(q)
            }),
{
    let nq = a0.figs(Figure::Queen).len();
    assert(a1.figs(Figure::Queen)[nq as int] == from);
    assert forall|fa: Figure, ia: int, fb: Figure, ib: int|
        0 <= ia < a1.figs(fa).len() && 0 <= ib < a1.figs(fb).len() && (fa != fb || ia
            != ib) implies #[trigger] a1.figs(fa)[ia] != #[trigger] a1.figs(fb)[ib] by {
        if fa == Figure::Queen && ia == nq {
            // the promoted entry: every other post entry stems from a
            // source other than (Pawn, j), so it differs from `from`
            let sb: int = if fb == Figure::Pawn && ib >= j {
                ib + 1
            } else {
                ib
            };
            assert(a1.figs(fb)[ib] == a0.figs(fb)[sb]);
            assert(a0.figs(fb)[sb] != a0.figs(Figure::Pawn)[j]);
        } else if fb == Figure::Queen && ib == nq {
            let sa: int = if fa == Figure::Pawn && ia >= j {
                ia + 1
            } else {
                ia
            };
            assert(a1.figs(fa)[ia] == a0.figs(fa)[sa]);
            assert(a0.figs(fa)[sa] != a0.figs(Figure::Pawn)[j]);
        } else {
            let sa: int = if fa == Figure::Pawn && ia >= j {
                ia + 1
            } else {
                ia
            };
            let sb: int = if fb == Figure::Pawn && ib >= j {
                ib + 1
            } else {
                ib
            };
            assert(a1.figs(fa)[ia] == a0.figs(fa)[sa]);
            assert(a1.figs(fb)[ib] == a0.figs(fb)[sb]);
        }
    }
    assert forall|f: Figure, i: int|
        0 <= i < a1.figs(f).len() implies (#[trigger] a1.figs(f)[i]).wf() by {
        if f == Figure::Queen && i == nq {
            assert(a1.figs(f)[i] == a0.figs(Figure::Pawn)[j]);
        } else {
            let si: int = if f == Figure::Pawn && i >= j {
                i + 1
            } else {
                i
            };
            assert(a1.figs(f)[i] == a0.figs(f)[si]);
        }
    }
    lemma_removed_contains(a0.figs(Figure::Pawn), a1.figs(Figure::Pawn), from, j);
    assert forall|f: Figure, q: Position|
        #[trigger] a1.figs(f).contains(q) <==> (if f == Figure::Pawn {
            a0.figs(Figure::Pawn).contains(q) && q != from
        } else if f == Figure::Queen {
            q == from || a0.figs(Figure::Queen).contains(q)
        } else {
            a0.figs(f).contains(q)
        }) by {
        if f == Figure::Queen {
            if a1.figs(f).contains(q) {
                let i = choose|i: int| 0 <= i < a1.figs(f).len() && a1.figs(f)[i] == q;
                if i < nq {
                    assert(a0.figs(f)[i] == q);
                }
            }
            if a0.figs(Figure::Queen).contains(q) {
                let i = choose|i: int| 0 <= i < a0.figs(f).len() && a0.figs(f)[i] == q;
                assert(a1.figs(f)[i] == q);
            }
        }
    }
}

/// Relocating `from` to a previously unowned square `to` keeps the
/// registry well-formed and duplicate-free, and moves exactly the
/// entries equal to `from`.
proof fn lemma_move_shape(p0: Player, p1: Player, from: Position, to: Position)
    requires
        p0.wf(),
        p0.distinct(),
        !p0.owns(to),
        to.wf(),
        from != to,
        p1.figures@.len() == 6,
        forall|f: Figure| #[trigger] p1.figs(f) == subst(p0.figs(f), from, to),
    ensures
        p1.wf(),
        p1.distinct(),
        forall|f: Figure, q: Position|
            #[trigger] p1.figs(f).contains(q) <==> ((q == to && p0.figs(f).contains(from)) || (
            p0.figs(f).contains(q) && q != from)),
{
    assert forall|f: Figure, i: int|
        0 <= i < p0.figs(f).len() implies p0.figs(f)[i] != to by {
        if p0.figs(f)[i] == to {
            assert(p0.figs(f).contains(to));
            assert(p0.owns(to));
        }
    }
    assert forall|fa: Figure, ia: int, fb: Figure, ib: int|
        0 <= ia < p1.figs(fa).len() && 0 <= ib < p1.figs(fb).len() && (fa != fb || ia
            != ib) implies #[trigger] p1.figs(fa)[ia] != #[trigger] p1.figs(fb)[ib] by {
        assert(p1.figs(fa)[ia] == (if p0.figs(fa)[ia] == from {
            to
        } else {
            p0.figs(fa)[ia]
        }));
        assert(p1.figs(fb)[ib] == (if p0.figs(fb)[ib] == from {
            to
        } else {
            p0.figs(fb)[ib]
        }));
        assert(p0.figs(fa)[ia] != p0.figs(fb)[ib]);
    }
    assert forall|f: Figure, i: int|
        0 <= i < p1.figs(f).len() implies (#[trigger] p1.figs(f)[i]).wf() by {
        assert(p1.figs(f)[i] == (if p0.figs(f)[i] == from {
            to
        } else {
            p0.figs(f)[i]
        }));
    }
    assert forall|f: Figure, q: Position|
        #[trigger] p1.figs(f).contains(q) <==> ((q == to && p0.figs(f).contains(from)) || (
        p0.figs(f).contains(q) && q != from)) by {
        lemma_subst_contains(p0.figs(f), from, to);
    }
}

/// A whole game: both players, the board, whose turn it is (`true`
/// for White), and whether the game has ended.
#[derive(Debug)]
pub struct ChessGame {
    pub white_player: Player,
    pub black_player: Player,
    pub board: Board,
    pub turn: bool,
    pub gameover: bool,
}

impl ChessGame {
    /// The player whose turn it is.
    pub open spec fn active(self) -> Player {
        if self.turn {
            self.white_player
        } else {
            self.black_player
        }
    }

    /// The player whose turn it is not.
    pub open spec fn inactive(self) -> Player {
        if self.turn {
            self.black_player
        } else {
            self.white_player
        }
    }

    /// The game invariant: a well-formed board, well-formed disjoint
    /// registries agreeing with the board, exactly one king per side,
    /// and the side to move not already reaching the opposing king
    /// (that player moved last, or nobody has moved, and never leaves
    /// their king in check).
    pub open spec fn inv(self) -> bool {
        &&& self.board.wf()
        &&& self.white_player.wf() && self.white_player.distinct()
        &&& self.black_player.wf() && self.black_player.distinct()
        &&& self.white_player.color == Color::White
        &&& self.black_player.color == Color::Black
        &&& covers(self.board.model(), self.white_player)
        &&& covers(self.board.model(), self.black_player)
        &&& board_registered(self.board.model(), self.white_player, self.black_player)
        &&& self.white_player.figs(Figure::King).len() == 1
        &&& self.black_player.figs(Figure::King).len() == 1
        &&& !player_in_check(
            self.board.model(),
            self.active(),
            self.inactive().figs(Figure::King)[0],
        )
    }

    /// Start a fresh game: standard placement, two human players,
    /// White to move.
    pub fn new() -> (r: ChessGame)
        ensures
            r.inv(),
            r.turn,
            !r.gameover,
            r.white_player.ptype == PlayerType::Human,
            r.black_player.ptype == PlayerType::Human,
            forall|f: Figure| #[trigger] r.white_player.figs(f) == init_figs(Color::White, f),
            forall|f: Figure| #[trigger] r.black_player.figs(f) == init_figs(Color::Black, f),
            forall|x: int, y: int|
                0 <= x < 8 && 0 <= y < 8 ==> #[trigger] fld(r.board.model(), x, y) == init_field(
                    x,
                    y,
                ),
    {
        let white = Player::new(PlayerType::Human, Color::White);
        let black = Player::new(PlayerType::Human, Color::Black);
        let board = Board::new();
        let r = ChessGame { white_player: white, black_player: black, board, turn: true, gameover: false };
        proof {
            Self::lemma_initial_inv(r);
        }
        r
    }

    /// The initial position satisfies the game invariant.
    proof fn lemma_initial_inv(g: ChessGame)
        requires
            g.turn,
            g.board.wf(),
            g.white_player.wf() && g.white_player.distinct(),
            g.black_player.wf() && g.black_player.distinct(),
            g.white_player.color == Color::White,
            g.black_player.color == Color::Black,
            forall|f: Figure| #[trigger] g.white_player.figs(f) == init_figs(Color::White, f),
            forall|f: Figure| #[trigger] g.black_player.figs(f) == init_figs(Color::Black, f),
            forall|x: int, y: int|
                0 <= x < 8 && 0 <= y < 8 ==> #[trigger] fld(g.board.model(), x, y) == init_field(
                    x,
                    y,
                ),
        ensures
            g.inv(),
    {
        let s = g.board.model();
        let w = g.white_player;
        let b = g.black_player;
        assert forall|f: Figure, q: Position| #[trigger] w.figs(f).contains(q) implies q.wf()
            && fld_at(s, q).figure == Some(f) && fld_at(s, q).color == Color::White by {
            let j = choose|j: int| 0 <= j < w.figs(f).len() && w.figs(f)[j] == q;
            assert(w.figs(f) == init_figs(Color::White, f));
            assert(fld(s, q.x as int, q.y as int) == init_field(q.x as int, q.y as int));
        }
        assert forall|f: Figure, q: Position| #[trigger] b.figs(f).contains(q) implies q.wf()
            && fld_at(s, q).figure == Some(f) && fld_at(s, q).color == Color::Black by {
            let j = choose|j: int| 0 <= j < b.figs(f).len() && b.figs(f)[j] == q;
            assert(b.figs(f) == init_figs(Color::Black, f));
            assert(fld(s, q.x as int, q.y as int) == init_field(q.x as int, q.y as int));
        }
        assert forall|q: Position|
            q.wf() && (#[trigger] fld_at(s, q)).figure is Some implies {
            &&& (fld_at(s, q).color == Color::White ==> w.figs(fld_at(s, q).figure->0).contains(q))
            &&& (fld_at(s, q).color != Color::White ==> b.figs(fld_at(s, q).figure->0).contains(q))
        } by {
            let xi = q.x as int;
            let yi = q.y as int;
            assert(fld_at(s, q) == init_field(xi, yi));
            if yi == 0 || yi == 7 {
                let p = if yi == 0 {
                    w
                } else {
                    b
                };
                let c = if yi == 0 {
                    Color::White
                } else {
                    Color::Black
                };
                assert(p.figs(back_rank(xi)).contains(q)) by {
                    if xi == 0 {
                        assert(p.figs(Figure::Rook)[0] == q);
                    } else if xi == 7 {
                        assert(p.figs(Figure::Rook)[1] == q);
                    } else if xi == 1 {
                        assert(p.figs(Figure::Knight)[0] == q);
                    } else if xi == 6 {
                        assert(p.figs(Figure::Knight)[1] == q);
                    } else if xi == 2 {
                        assert(p.figs(Figure::Bishop)[0] == q);
                    } else if xi == 5 {
                        assert(p.figs(Figure::Bishop)[1] == q);
                    } else if xi == 4 {
                        assert(p.figs(Figure::King)[0] == q);
                    } else {
                        assert(p.figs(Figure::Queen)[0] == q);
                    }
                }
            } else if yi == 1 {
                assert(w.figs(Figure::Pawn)[xi] == q);
            } else if yi == 6 {
                assert(b.figs(Figure::Pawn)[xi] == q);
            }
        }
        let bk = b.figs(Figure::King)[0];
        assert(bk == (Position { x: 4, y: 7 }));
        assert(fld_at(s, bk) == init_field(4, 7));
        assert forall|f: Figure, q: Position| #[trigger] w.figs(f).contains(q) implies !threat_from(
            s,
            Color::White,
            q,
            bk,
        ) by {
            let j = choose|j: int| 0 <= j < w.figs(f).len() && w.figs(f)[j] == q;
            assert(w.figs(f) == init_figs(Color::White, f));
            assert(fld(s, q.x as int, q.y as int) == init_field(q.x as int, q.y as int));
        }
        if player_in_check(s, w, bk) {
            let (f, q) = choose|f: Figure, q: Position|
                #[trigger] w.figs(f).contains(q) && threat_from(s, Color::White, q, bk);
            assert(false);
        }
    }

    /// Execute an already-validated move for `active` against
    /// `inactive`: capture whatever stands on `to`, promote a pawn
    /// arriving on `promote_rank`, and relocate the figure on board
    /// and registry. Returns whether a capture and whether a
    /// promotion happened.
    fn exec_move(
        board: &mut Board,
        active: &mut Player,
        inactive: &mut Player,
        promote_rank: u8,
        from: Position,
        to: Position,
    ) -> (r: (bool, bool))
        requires
            old(board).wf(),
            from.wf(),
            to.wf(),
            from != to,
            old(active).wf(),
            old(active).distinct(),
            old(inactive).wf(),
            old(inactive).distinct(),
            old(active).color != old(inactive).color,
            covers(old(board).model(), *old(active)),
            covers(old(board).model(), *old(inactive)),
            old(active).owns(from),
            !old(active).owns(to),
            fld_at(old(board).model(), to).figure is Some ==> old(inactive).figs(
                fld_at(old(board).model(), to).figure->0,
            ).contains(to),
        ensures
            ({
                let s = old(board).model();
                let a0 = *old(active);
                let i0 = *old(inactive);
                let cap = fld_at(s, to).figure is Some;
                let ck = fld_at(s, to).figure->0;
                let promo = to.y == promote_rank && fld_at(s, from).figure == Some(Figure::Pawn);
                &&& r == (cap, promo)
                &&& final(board).wf()
                &&& final(board).model() == board_after_turn(
                    s,
                    from,
                    to,
                    a0.color,
                    promote_rank as int,
                )
                &&& final(active).color == a0.color
                &&& final(active).ptype == a0.ptype
                &&& final(active).figures@.len() == 6
                &&& final(active).wf()
                &&& final(active).distinct()
                &&& final(inactive).color == i0.color
                &&& final(inactive).ptype == i0.ptype
                &&& final(inactive).figures@.len() == 6
                &&& final(inactive).wf()
                &&& final(inactive).distinct()
                &&& final(active).figs(Figure::King) == subst(a0.figs(Figure::King), from, to)
                &&& (forall|f: Figure, q: Position|
                    #[trigger] final(active).figs(f).contains(q) <==> member_after_move(
                        a0,
                        from,
                        to,
                        promo,
                        f,
                        q,
                    ))
                &&& (!cap ==> *final(inactive) == i0)
                &&& (cap ==> (forall|g: Figure| g != ck ==> #[trigger] final(inactive).figs(g)
                    == i0.figs(g)))
                &&& (cap ==> exists|j: int|
                    0 <= j < i0.figs(ck).len() && i0.figs(ck)[j] == to && final(inactive).figs(ck)
                        == i0.figs(ck).remove(j))
                &&& (forall|g: Figure, q: Position|
                    #[trigger] final(inactive).figs(g).contains(q) <==> (i0.figs(g).contains(q)
                        && q != to))
            }),
    {
        let ghost s = board.model();
        let ghost a0 = *active;
        let ghost i0 = *inactive;
        let ghost ck = fld_at(s, to).figure->0;
        let mut captured = false;
        let mut upgrade = false;
        if !board.is_empty(to) {
            let name = board.get_figure(to).unwrap().name();
            proof {
                crate::logic::lemma_figure_named(ck);
            }
            inactive.capture(name, to);
            captured = true;
            proof {
                let j = choose|j: int|
                    0 <= j < i0.figs(ck).len() && i0.figs(ck)[j] == to && inactive.figs(ck)
                        == i0.figs(ck).remove(j);
                lemma_removed_contains(i0.figs(ck), inactive.figs(ck), to, j);
                lemma_capture_shape(i0, *inactive, ck, j);
                assert forall|g: Figure, q: Position|
                    #[trigger] inactive.figs(g).contains(q) <==> (i0.figs(g).contains(q) && q
                        != to) by {
                    if g != ck && i0.figs(g).contains(to) {
                        assert(fld_at(s, to).figure == Some(g));
                    }
                }
            }
        } else {
            proof {
                assert forall|g: Figure, q: Position|
                    #[trigger] inactive.figs(g).contains(q) <==> (i0.figs(g).contains(q) && q
                        != to) by {
                    if i0.figs(g).contains(to) {
                        assert(fld_at(s, to).figure is Some);
                    }
                }
            }
        }
        proof {
            let f0 = choose|f: Figure| a0.figs(f).contains(from);
            assert(a0.figs(f0).contains(from));
            assert(fld_at(s, from).figure == Some(f0));
        }
        if to.y == promote_rank {
            if let Some(figf) = board.get_figure(from) {
                if figf == Figure::Pawn {
                    proof {
                        assert(a0.figs(Figure::Pawn).contains(from));
                    }
                    let col = active.color();
                    board.set_figure(from, Figure::Queen, col);
                    active.upgrade_pawn(from);
                    upgrade = true;
                }
            }
        }
        let ghost a_mid = *active;
        proof {
            if upgrade {
                let jp = choose|j: int|
                    0 <= j < a0.figs(Figure::Pawn).len() && a0.figs(Figure::Pawn)[j] == from
                        && a_mid.figs(Figure::Pawn) == a0.figs(Figure::Pawn).remove(j);
                lemma_upgrade_shape(a0, a_mid, from, jp);
                assert(a_mid.figs(Figure::Queen).contains(from));
                assert(a_mid.owns(from));
            }
            assert(a_mid.wf() && a_mid.distinct() && a_mid.owns(from));
            assert(!a_mid.owns(to)) by {
                if a_mid.owns(to) {
                    let g = choose|g: Figure| a_mid.figs(g).contains(to);
                    assert(a_mid.figs(g).contains(to));
                    if upgrade {
                        assert(a0.figs(g).contains(to) || to == from);
                        let g2 = choose|g2: Figure| a0.figs(g2).contains(to);
                        assert(a0.owns(to));
                    } else {
                        assert(a0.owns(to));
                    }
                }
            }
            assert(fld_at(board.model(), from).figure is Some) by {
                if upgrade {
                    assert(fld_at(board.model(), from) == (Field {
                        color: a0.color,
                        figure: Some(Figure::Queen),
                    }));
                }
            }
        }
        board.move_figure(from, to);
        active.move_figure(from, to);
        proof {
            lemma_move_shape(a_mid, *active, from, to);
            let promo = to.y == promote_rank && fld_at(s, from).figure == Some(Figure::Pawn);
            assert(promo == upgrade);
            assert(board.model() == board_after_turn(s, from, to, a0.color, promote_rank as int))
                by {
                if upgrade {
                    assert(board.model() =~= board_after_turn(
                        s,
                        from,
                        to,
                        a0.color,
                        promote_rank as int,
                    ));
                }
            }
            assert(active.figs(Figure::King) == subst(a0.figs(Figure::King), from, to)) by {
                if upgrade {
                    assert(a_mid.figs(Figure::King) == a0.figs(Figure::King));
                }
            }
            assert forall|f: Figure, q: Position|
                #[trigger] active.figs(f).contains(q) <==> member_after_move(
                    a0,
                    from,
                    to,
                    promo,
                    f,
                    q,
                ) by {
                if upgrade {
                    if f == Figure::Queen {
                        assert(a_mid.figs(f).contains(from));
                    }
                    if f == Figure::Pawn {
                        assert(!a_mid.figs(Figure::Pawn).contains(from));
                    }
                }
            }
        }
        (captured, upgrade)
    }

    /// An accepted move carries the game invariant to the next state.
    proof fn lemma_turn_inv(g0: ChessGame, g1: ChessGame, from: Position, to: Position)
        requires
            g0.inv(),
            from.wf(),
            to.wf(),
            from != to,
            g0.active().owns(from),
            move_valid_spec(g0.board.model(), g0.active(), g0.inactive(), from, to),
            g1.turn == !g0.turn,
            g1.board.wf(),
            g1.board.model() == board_after_turn(
                g0.board.model(),
                from,
                to,
                g0.active().color,
                if g0.turn {
                    7
                } else {
                    0
                },
            ),
            g1.inactive().color == g0.active().color,
            g1.inactive().wf(),
            g1.inactive().distinct(),
            g1.active().color == g0.inactive().color,
            g1.active().wf(),
            g1.active().distinct(),
            g1.inactive().figs(Figure::King) == subst(g0.active().figs(Figure::King), from, to),
            forall|f: Figure, q: Position|
                #[trigger] g1.inactive().figs(f).contains(q) <==> member_after_move(
                    g0.active(),
                    from,
                    to,
                    to.y == (if g0.turn {
                        7int
                    } else {
                        0int
                    }) && fld_at(g0.board.model(), from).figure == Some(Figure::Pawn),
                    f,
                    q,
                ),
            forall|g: Figure, q: Position|
                #[trigger] g1.active().figs(g).contains(q) <==> (g0.inactive().figs(g).contains(q)
                    && q != to),
        ensures
            g1.inv(),
    {
        let s = g0.board.model();
        let s1 = g1.board.model();
        let s2 = board_moved(s, from, to);
        let mover0 = g0.active();
        let other0 = g0.inactive();
        let mover1 = g1.inactive();
        let other1 = g1.active();
        let rank: int = if g0.turn {
            7
        } else {
            0
        };
        let promo = to.y == rank && fld_at(s, from).figure == Some(Figure::Pawn);
        let kf = choose|f: Figure| mover0.figs(f).contains(from);
        assert(mover0.figs(kf).contains(from));
        assert(fld_at(s, from).figure == Some(kf) && fld_at(s, from).color == mover0.color);
        assert(fld_at(s, to).figure is Some ==> fld_at(s, to).color != mover0.color);
        assert(!mover0.owns(to)) by {
            if mover0.owns(to) {
                let g = choose|g: Figure| mover0.figs(g).contains(to);
                assert(mover0.figs(g).contains(to));
            }
        }
        // the relocated occupant
        let moved_kind: Figure = if promo {
            Figure::Queen
        } else {
            kf
        };
        assert(fld_at(s1, to) == (Field { color: mover0.color, figure: Some(moved_kind) })) by {
            if promo {
                assert(s1 == board_moved(
                    s.update(pidx(from), Field { color: mover0.color, figure: Some(Figure::Queen) }),
                    from,
                    to,
                ));
            }
        }
        assert(fld_at(s1, from) == crate::logic::empty_field(from)) by {
            lemma_pidx_inj(from, to);
        }
        assert forall|q: Position| q.wf() && q != from && q != to implies fld_at(s1, q) == fld_at(
            s,
            q,
        ) by {
            lemma_pidx_inj(q, from);
            lemma_pidx_inj(q, to);
        }
        // one king each
        assert(mover1.figs(Figure::King).len() == 1);
        assert(other1.figs(Figure::King).len() == 1) by {
            if fld_at(s, to).figure is Some && fld_at(s, to).color == other0.color {
                if other0.figs(Figure::King)[0] == to {
                    assert(player_in_check(s, mover0, other0.figs(Figure::King)[0])) by {
                        assert(threat_from(s, mover0.color, from, to));
                        assert(mover0.figs(kf).contains(from) && threat_from(
                            s,
                            mover0.color,
                            from,
                            to,
                        ));
                    }
                    assert(false);
                }
            }
            assert forall|i: int|
                0 <= i < other0.figs(Figure::King).len() implies (other1.figs(
                Figure::King,
            ).contains(other0.figs(Figure::King)[i]) <==> other0.figs(Figure::King)[i] != to) by {
                assert(other0.figs(Figure::King).contains(other0.figs(Figure::King)[i]));
            }
            assert(other1.figs(Figure::King).contains(other0.figs(Figure::King)[0]));
            if other1.figs(Figure::King).len() > 1 {
                assert(other1.figs(Figure::King)[0] != other1.figs(Figure::King)[1]);
                assert(other1.figs(Figure::King).contains(other1.figs(Figure::King)[0]));
                assert(other1.figs(Figure::King).contains(other1.figs(Figure::King)[1]));
                assert(other0.figs(Figure::King).contains(other1.figs(Figure::King)[0]));
                assert(other0.figs(Figure::King).contains(other1.figs(Figure::King)[1]));
                assert(false);
            }
            if other1.figs(Figure::King).len() == 0 {
                assert(false);
            }
        }
        // the moving side still covers the board
        assert forall|f: Figure, q: Position| #[trigger] mover1.figs(f).contains(q) implies q.wf()
            && fld_at(s1, q).figure == Some(f) && fld_at(s1, q).color == mover1.color by {
            assert(member_after_move(mover0, from, to, promo, f, q));
            if q == to {
                assert(f == moved_kind) by {
                    if !promo {
                        if f != kf {
                            assert(mover0.figs(f).contains(from));
                            assert(fld_at(s, from).figure == Some(f));
                        }
                    }
                }
            } else {
                assert(mover0.figs(f).contains(q));
                assert(q != from);
                assert(fld_at(s1, q) == fld_at(s, q));
            }
        }
        // the resting side still covers the board
        assert forall|f: Figure, q: Position| #[trigger] other1.figs(f).contains(q) implies q.wf()
            && fld_at(s1, q).figure == Some(f) && fld_at(s1, q).color == other1.color by {
            assert(other0.figs(f).contains(q) && q != to);
            assert(q != from) by {
                if q == from {
                    assert(fld_at(s, from).color == other0.color);
                }
            }
            assert(fld_at(s1, q) == fld_at(s, q));
        }
        // every occupied square is still registered
        assert forall|q: Position|
            q.wf() && (#[trigger] fld_at(s1, q)).figure is Some implies {
            &&& (fld_at(s1, q).color == g1.white_player.color ==> g1.white_player.figs(
                fld_at(s1, q).figure->0,
            ).contains(q))
            &&& (fld_at(s1, q).color != g1.white_player.color ==> g1.black_player.figs(
                fld_at(s1, q).figure->0,
            ).contains(q))
        } by {
            if q == to {
                assert(mover1.figs(moved_kind).contains(to)) by {
                    if promo {
                        assert(member_after_move(mover0, from, to, promo, Figure::Queen, to));
                    } else {
                        assert(member_after_move(mover0, from, to, promo, kf, to));
                    }
                }
            } else if q == from {
                assert(fld_at(s1, from).figure is None);
            } else {
                assert(fld_at(s1, q) == fld_at(s, q));
                let fq = fld_at(s, q).figure->0;
                if fld_at(s, q).color == mover0.color {
                    assert(mover0.figs(fq).contains(q));
                    assert(mover0.figs(fq).contains(q) && q != from ==> member_after_move(
                        mover0,
                        from,
                        to,
                        promo,
                        fq,
                        q,
                    )) by {
                        if promo && fq == Figure::Queen {
                        }
                    }
                    assert(q != from);
                    assert(mover1.figs(fq).contains(q));
                } else {
                    assert(other0.figs(fq).contains(q));
                    assert(other1.figs(fq).contains(q));
                }
            }
        }
        // the side now to move does not already reach the moved king
        let kp = mover1.figs(Figure::King)[0];
        assert(kp == king_pos_after(mover0, from, to, true)) by {
            assert(mover1.figs(Figure::King) == subst(mover0.figs(Figure::King), from, to));
            assert(mover0.figs(Figure::King).contains(mover0.figs(Figure::King)[0]));
        }
        assert(kp.wf()) by {
            if mover0.figs(Figure::King)[0] != from {
                assert(mover0.figs(Figure::King).contains(mover0.figs(Figure::King)[0]));
            }
        }
        if player_in_check(s1, other1, kp) {
            let (g, q) = choose|g: Figure, q: Position|
                #[trigger] other1.figs(g).contains(q) && threat_from(s1, other1.color, q, kp);
            assert(other0.figs(g).contains(q) && q != to);
            assert(q.wf() && q != from) by {
                if q == from {
                    assert(fld_at(s, from).color == other0.color);
                }
            }
            assert(threat_from(s2, other0.color, q, kp)) by {
                if promo {
                    let sq = s.update(
                        pidx(from),
                        Field { color: mover0.color, figure: Some(Figure::Queen) },
                    );
                    assert(s1 == board_moved(sq, from, to));
                    assert forall|x: int, y: int|
                        #![trigger fld(s1, x, y)]
                        #![trigger fld(s2, x, y)]
                        0 <= x < 8 && 0 <= y < 8 implies ((fld(s1, x, y).figure is None) == (fld(
                        s2,
                        x,
                        y,
                    ).figure is None) && fld(s1, x, y).color == fld(s2, x, y).color) by {
                        let i = y * 8 + x;
                        assert(fld(s1, x, y) == s1[i] && fld(s2, x, y) == s2[i]);
                        if i == pidx(to) {
                            assert(s1[i] == fld_at(sq, from) && s2[i] == fld_at(s, from));
                        } else if i == pidx(from) {
                        } else {
                            assert(s1[i] == sq[i] && s2[i] == s[i]);
                            assert(sq[i] == s[i]);
                        }
                    }
                    assert(fld_at(s1, q) == fld_at(s2, q)) by {
                        lemma_pidx_inj(q, from);
                        lemma_pidx_inj(q, to);
                        assert(fld_at(s2, q) == fld_at(s, q));
                    }
                    lemma_threat_same_occupancy(s1, s2, other0.color, q, kp);
                }
            }
            assert(check_after_move(s, mover0, other0, from, to, true));
            assert(false);
        }
        assert(g1.inv());
    }

    /// Execute the validated move `from` to `to` for the side to move
    /// and flip the turn. Returns whether a figure was captured and
    /// whether a pawn was promoted.
    fn make_move(&mut self, from: Position, to: Position) -> (r: (bool, bool))
        requires
            old(self).inv(),
            from.wf(),
            to.wf(),
            old(self).active().owns(from),
            move_valid_spec(
                old(self).board.model(),
                old(self).active(),
                old(self).inactive(),
                from,
                to,
            ),
        ensures
            ({
                let s = old(self).board.model();
                let mover0 = old(self).active();
                let other0 = old(self).inactive();
                let rank: int = if old(self).turn {
                    7
                } else {
                    0
                };
                let cap = fld_at(s, to).figure is Some;
                let ck = fld_at(s, to).figure->0;
                let promo = to.y == rank && fld_at(s, from).figure == Some(Figure::Pawn);
                &&& final(self).inv()
                &&& final(self).turn == !old(self).turn
                &&& final(self).gameover == old(self).gameover
                &&& r == (cap, promo)
                &&& final(self).board.model() == board_after_turn(s, from, to, mover0.color, rank)
                &&& final(self).inactive().ptype == mover0.ptype
                &&& final(self).active().ptype == other0.ptype
                &&& final(self).inactive().color == mover0.color
                &&& final(self).active().color == other0.color
                &&& final(self).inactive().figs(Figure::King) == subst(
                    mover0.figs(Figure::King),
                    from,
                    to,
                )
                &&& (forall|f: Figure, q: Position|
                    #[trigger] final(self).inactive().figs(f).contains(q) <==> member_after_move(
                        mover0,
                        from,
                        to,
                        promo,
                        f,
                        q,
                    ))
                &&& (forall|g: Figure, q: Position|
                    #[trigger] final(self).active().figs(g).contains(q) <==> (other0.figs(g).contains(q) && q != to))
                &&& (!cap ==> final(self).active() == other0)
                &&& (cap ==> (forall|g: Figure| g != ck ==> #[trigger] final(self).active().figs(g)
                    == other0.figs(g)))
                &&& (cap ==> exists|j: int|
                    0 <= j < other0.figs(ck).len() && other0.figs(ck)[j] == to && final(self).active().figs(ck) == other0.figs(ck).remove(j))
            }),
    {
        let ghost g0 = *self;
        let ghost s = self.board.model();
        let ghost mover0 = g0.active();
        let ghost other0 = g0.inactive();
        proof {
            let kf = choose|f: Figure| mover0.figs(f).contains(from);
            assert(mover0.figs(kf).contains(from));
            assert(fld_at(s, from).figure == Some(kf) && fld_at(s, from).color == mover0.color);
            assert(from != to);
            assert(fld_at(s, to).figure is Some ==> fld_at(s, to).color != mover0.color);
            assert(!mover0.owns(to)) by {
                if mover0.owns(to) {
                    let g = choose|g: Figure| mover0.figs(g).contains(to);
                    assert(mover0.figs(g).contains(to));
                }
            }
            assert(fld_at(s, to).figure is Some ==> other0.figs(
                fld_at(s, to).figure->0,
            ).contains(to));
        }
        let r = if self.turn {
            Self::exec_move(
                &mut self.board,
                &mut self.white_player,
                &mut self.black_player,
                7,
                from,
                to,
            )
        } else {
            Self::exec_move(
                &mut self.board,
                &mut self.black_player,
                &mut self.white_player,
                0,
                from,
                to,
            )
        };
        self.turn = !self.turn;
        proof {
            Self::lemma_turn_inv(g0, *self, from, to);
        }
        r
    }

    /// Makes a turn based on player input: `-1` for a rejected move or
    /// a finished game, else a code carrying the capture and promotion
    /// flags. A rejected turn leaves the game exactly as it was.
    pub fn do_turn(&mut self, from: Position, to: Position) -> (r: i8)
        requires
            old(self).inv(),
            from.wf(),
            to.wf(),
            !old(self).gameover && !checkmate_spec(
                old(self).board.model(),
                old(self).white_player,
                old(self).black_player,
            ) ==> old(self).active().owns(from),
        ensures
            final(self).inv(),
            ({
                let s = old(self).board.model();
                let mate = checkmate_spec(s, old(self).white_player, old(self).black_player);
                let valid = move_valid_spec(s, old(self).active(), old(self).inactive(), from, to);
                &&& (old(self).gameover ==> r == -1 && *final(self) == *old(self))
                &&& (!old(self).gameover && mate ==> r == -1 && *final(self) == (ChessGame {
                    gameover: true,
                    ..*old(self)
                }))
                &&& (!old(self).gameover && !mate && !valid ==> r == -1 && *final(self) == *old(
                    self,
                ))
                &&& (!old(self).gameover && !mate && valid ==> {
                    let cap = fld_at(s, to).figure is Some;
                    let promo = to.y == (if old(self).turn {
                        7int
                    } else {
                        0int
                    }) && fld_at(s, from).figure == Some(Figure::Pawn);
                    &&& r == (if cap && promo {
                        3i8
                    } else if cap {
                        2i8
                    } else if promo {
                        1i8
                    } else {
                        0i8
                    })
                    &&& final(self).turn == !old(self).turn
                    &&& final(self).gameover == old(self).gameover
                    &&& final(self).board.model() == board_after_turn(
                        s,
                        from,
                        to,
                        old(self).active().color,
                        if old(self).turn {
                            7
                        } else {
                            0
                        },
                    )
                    &&& (forall|f: Figure, q: Position|
                        #[trigger] final(self).inactive().figs(f).contains(q)
                            <==> member_after_move(old(self).active(), from, to, promo, f, q))
                    &&& (forall|g: Figure, q: Position|
                        #[trigger] final(self).active().figs(g).contains(q) <==> (old(self).inactive().figs(g).contains(q) && q != to))
                })
                &&& ((r == -1) <==> (old(self).gameover || mate || !valid))
            }),
    {
        if !self.gameover {
            let mate = self.board.checkmate(&mut self.white_player, &mut self.black_player);
            if mate {
                self.gameover = true;
                return -1;
            }
            proof {
                if !self.turn {
                    crate::check::lemma_registered_sym(
                        self.board.model(),
                        self.white_player,
                        self.black_player,
                    );
                }
            }
            let result = if self.turn {
                self.board.is_move_valid(from, to, &mut self.white_player, &mut self.black_player)
            } else {
                self.board.is_move_valid(from, to, &mut self.black_player, &mut self.white_player)
            };
            if result {
                let (c, u) = self.make_move(from, to);
                if c && u {
                    return 3;
                } else if c {
                    return 2;
                } else if u {
                    return 1;
                } else {
                    return 0;
                }
            } else {
                return -1;
            }
        }
        -1
    }

    /// Makes a turn using the AI of the side to move: `None` when the
    /// game is over, checkmate is detected, or a human is to move;
    /// else the executed move together with its capture and promotion
    /// flags.
    pub fn do_ai_turn(&mut self) -> (r: Option<((Position, Position), (bool, bool))>)
        requires
            old(self).inv(),
            ({
                let s = old(self).board.model();
                let mate = checkmate_spec(s, old(self).white_player, old(self).black_player);
                !old(self).gameover && !mate && old(self).active().ptype != PlayerType::Human
                    ==> {
                    &&& (old(self).active().ptype != PlayerType::Smart ==> crate::check::has_move(
                        s,
                        old(self).active(),
                        old(self).inactive(),
                    ))
                    &&& (old(self).active().ptype == PlayerType::Smart ==> old(
                        self,
                    ).active().owns(Position { x: 1, y: 1 }) && move_valid_spec(
                        s,
                        old(self).active(),
                        old(self).inactive(),
                        Position { x: 1, y: 1 },
                        Position { x: 1, y: 2 },
                    ))
                }
            }),
        ensures
            final(self).inv(),
            ({
                let s = old(self).board.model();
                let mate = checkmate_spec(s, old(self).white_player, old(self).black_player);
                &&& (old(self).gameover ==> r is None && *final(self) == *old(self))
                &&& (!old(self).gameover && mate ==> r is None && *final(self) == (ChessGame {
                    gameover: true,
                    ..*old(self)
                }))
                &&& (!old(self).gameover && !mate && old(self).active().ptype == PlayerType::Human
                    ==> r is None && *final(self) == *old(self))
                &&& (!old(self).gameover && !mate && old(self).active().ptype != PlayerType::Human
                    ==> {
                    let m = (r->0).0;
                    &&& r is Some
                    &&& old(self).active().owns(m.0)
                    &&& m.0.wf() && m.1.wf()
                    &&& move_valid_spec(s, old(self).active(), old(self).inactive(), m.0, m.1)
                    &&& (r->0).1 == (
                        fld_at(s, m.1).figure is Some,
                        m.1.y == (if old(self).turn {
                            7int
                        } else {
                            0int
                        }) && fld_at(s, m.0).figure == Some(Figure::Pawn),
                    )
                    &&& final(self).turn == !old(self).turn
                    &&& final(self).gameover == old(self).gameover
                    &&& final(self).board.model() == board_after_turn(
                        s,
                        m.0,
                        m.1,
                        old(self).active().color,
                        if old(self).turn {
                            7
                        } else {
                            0
                        },
                    )
                })
            }),
    {
        if !self.gameover {
            let mate = self.board.checkmate(&mut self.white_player, &mut self.black_player);
            if mate {
                self.gameover = true;
                return None;
            }
            proof {
                if !self.turn {
                    crate::check::lemma_registered_sym(
                        self.board.model(),
                        self.white_player,
                        self.black_player,
                    );
                }
            }
            let mv: (Position, Position) = if self.turn {
                if self.white_player.ptype() != PlayerType::Human {
                    self.white_player.get_ai_move(&self.board, &self.black_player)
                } else {
                    return None;
                }
            } else {
                if self.black_player.ptype() != PlayerType::Human {
                    self.black_player.get_ai_move(&self.board, &self.white_player)
                } else {
                    return None;
                }
            };
            let (from, to) = mv;
            proof {
                assert(self.active().owns(from));
                let f0 = choose|f: Figure| self.active().figs(f).contains(from);
                assert(self.active().figs(f0).contains(from));
                assert(from.wf() && to.wf());
            }
            let flags = self.make_move(from, to);
            return Some(((from, to), flags));
        }
        None
    }

    /// Returns the color of the player whose turn it is.
    pub fn turn_color(&self) -> (r: Color)
        ensures
            r == (if self.turn {
                Color::White
            } else {
                Color::Black
            }),
    {
        if self.turn {
            Color::White
        } else {
            Color::Black
        }
    }

    /// Returns whether the game has ended.
    pub fn is_game_over(&self) -> (r: bool)
        ensures
            r == self.gameover,
    {
        self.gameover
    }
}

} // verus!
