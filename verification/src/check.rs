//! Check detection and the simulate-move legality gate.
//!
//! A hypothetical move is evaluated on structural copies of the board
//! and the players, so the real state is left untouched on every path
//! (the clone-and-discard form of the make/test/unmake protocol).

use vstd::prelude::*;

use crate::logic::{
    board_moved, fld, fld_at, kind_of, move_ok, pidx, Board, Color, Field, Figure, Position,
};
use crate::player::Player;

verus! {

/// The figure standing on `from` (if any) may legally reach `king`
/// under its own rule, played by the side `c`.
pub open spec fn threat_from(s: Seq<Field>, c: Color, from: Position, king: Position) -> bool {
    &&& fld_at(s, from).figure is Some
    &&& move_ok(s, fld_at(s, from).figure->0, from, king, c)
}

/// Some figure of `p` may legally reach `king` on the board `s`.
pub open spec fn player_in_check(s: Seq<Field>, p: Player, king: Position) -> bool {
    exists|f: Figure, q: Position|
        #[trigger] p.figs(f).contains(q) && threat_from(s, p.color, q, king)
}

/// Where the active player's king stands after moving from `from` to
/// `to`, or the square to test when the probe is not about the king.
pub open spec fn king_pos_after(active: Player, from: Position, to: Position, king: bool)
    -> Position {
    if !king {
        to
    } else if active.figs(Figure::King)[0] == from {
        to
    } else {
        active.figs(Figure::King)[0]
    }
}

/// Whether, after hypothetically playing `from` to `to` (capturing
/// whatever stands on `to`), some remaining figure of `inactive` may
/// reach the probed square: the active king's square if `king` is set,
/// else `to` itself.
pub open spec fn check_after_move(
    s: Seq<Field>,
    active: Player,
    inactive: Player,
    from: Position,
    to: Position,
    king: bool,
) -> bool {
    exists|f: Figure, q: Position|
        #[trigger] inactive.figs(f).contains(q) && q != to && threat_from(
            board_moved(s, from, to),
            inactive.color,
            q,
            king_pos_after(active, from, to, king),
        )
}

/// The single legality gate: the figure on `from` accepts the
/// geometric move, and making it would not leave the active player's
/// own king in check.
pub open spec fn move_valid_spec(
    s: Seq<Field>,
    active: Player,
    inactive: Player,
    from: Position,
    to: Position,
) -> bool {
    &&& move_ok(s, fld_at(s, from).figure->0, from, to, fld_at(s, from).color)
    &&& !check_after_move(s, active, inactive, from, to, true)
}

/// Every figure `p` registers stands on the board, with `p`'s color
/// and the registered kind.
pub open spec fn covers(s: Seq<Field>, p: Player) -> bool {
    forall|f: Figure, q: Position|
        #[trigger] p.figs(f).contains(q) ==> q.wf() && fld_at(s, q).figure == Some(f) && fld_at(
            s,
            q,
        ).color == p.color
}

/// Every occupied square of the board is registered by the player of
/// its color, under the kind it shows.
pub open spec fn board_registered(s: Seq<Field>, a: Player, b: Player) -> bool {
    forall|q: Position|
        q.wf() && (#[trigger] fld_at(s, q)).figure is Some ==> {
            &&& (fld_at(s, q).color == a.color ==> a.figs(fld_at(s, q).figure->0).contains(q))
            &&& (fld_at(s, q).color != a.color ==> b.figs(fld_at(s, q).figure->0).contains(q))
        }
}

/// The active player has some legal move against `inactive`.
pub open spec fn has_move(s: Seq<Field>, active: Player, inactive: Player) -> bool {
    exists|from: Position, to: Position|
        #[trigger] active.owns(from) && #[trigger] to.wf() && move_valid_spec(
            s,
            active,
            inactive,
            from,
            to,
        )
}

/// Which side registers a square does not depend on the order the two
/// players are given in.
pub proof fn lemma_registered_sym(s: Seq<Field>, a: Player, b: Player)
    requires
        a.color != b.color,
        board_registered(s, a, b),
    ensures
        board_registered(s, b, a),
{
}

/// Whether either side's king is attacked with no legal move left to
/// its owner, testing `one` before `two`.
pub open spec fn checkmate_spec(s: Seq<Field>, one: Player, two: Player) -> bool {
    if player_in_check(s, two, one.figs(Figure::King)[0]) {
        !has_move(s, one, two)
    } else if player_in_check(s, one, two.figs(Figure::King)[0]) {
        !has_move(s, two, one)
    } else {
        false
    }
}

/// Removing the unique occurrence of `v` keeps exactly the other
/// members.
pub proof fn lemma_removed_contains(pre: Seq<Position>, post: Seq<Position>, v: Position, j: int)
    requires
        0 <= j < pre.len(),
        pre[j] == v,
        post == pre.remove(j),
        forall|i1: int, i2: int|
            #![trigger pre[i1], pre[i2]]
            0 <= i1 < pre.len() && 0 <= i2 < pre.len() && i1 != i2 ==> pre[i1] != pre[i2],
    ensures
        forall|q: Position| #[trigger] post.contains(q) <==> (pre.contains(q) && q != v),
{
    assert forall|q: Position| #[trigger] post.contains(q) <==> (pre.contains(q) && q != v) by {
        if post.contains(q) {
            let i = choose|i: int| 0 <= i < post.len() && post[i] == q;
            if i < j {
                assert(pre[i] == q);
            } else {
                assert(pre[i + 1] == q);
            }
        }
        if pre.contains(q) && q != v {
            let i = choose|i: int| 0 <= i < pre.len() && pre[i] == q;
            assert(i != j);
            if i < j {
                assert(post[i] == q);
            } else {
                assert(post[i - 1] == q);
            }
        }
    }
}

/// The members of a substituted list.
pub proof fn lemma_subst_contains(s: Seq<Position>, a: Position, b: Position)
    requires
        a != b,
    ensures
        forall|q: Position|
            #[trigger] crate::player::subst(s, a, b).contains(q) <==> ((q == b && s.contains(a))
                || (s.contains(q) && q != a)),
{
    let post = crate::player::subst(s, a, b);
    assert forall|q: Position|
        #[trigger] post.contains(q) <==> ((q == b && s.contains(a)) || (s.contains(q) && q != a))
        by {
        if post.contains(q) {
            let i = choose|i: int| 0 <= i < post.len() && post[i] == q;
            assert(post[i] == (if s[i] == a {
                b
            } else {
                s[i]
            }));
            assert(s.contains(s[i]));
        }
        if q == b && s.contains(a) {
            let i = choose|i: int| 0 <= i < s.len() && s[i] == a;
            assert(post[i] == b);
        }
        if s.contains(q) && q != a {
            let i = choose|i: int| 0 <= i < s.len() && s[i] == q;
            assert(post[i] == q);
        }
    }
}

/// Whether a figure on `q` threatens `kp` depends only on which
/// squares are occupied and by which side, and on the attacker's own
/// field, never on the kind shown by any other square.
pub proof fn lemma_threat_same_occupancy(
    s1: Seq<Field>,
    s2: Seq<Field>,
    c: Color,
    q: Position,
    kp: Position,
)
    requires
        s1.len() == 64,
        s2.len() == 64,
        q.wf(),
        kp.wf(),
        forall|x: int, y: int|
            #![trigger fld(s1, x, y)]
            #![trigger fld(s2, x, y)]
            0 <= x < 8 && 0 <= y < 8 ==> ((fld(s1, x, y).figure is None) == (fld(
                s2,
                x,
                y,
            ).figure is None) && fld(s1, x, y).color == fld(s2, x, y).color),
        fld_at(s1, q) == fld_at(s2, q),
    ensures
        threat_from(s1, c, q, kp) == threat_from(s2, c, q, kp),
{
    assert(crate::logic::straight_clear(s1, q, kp) == crate::logic::straight_clear(s2, q, kp)) by {
        if crate::logic::straight_clear(s1, q, kp) {
            assert forall|i: int|
                crate::logic::lo(q.y as int, kp.y as int) < i < crate::logic::hi(
                    q.y as int,
                    kp.y as int,
                ) implies (#[trigger] fld(s2, q.x as int, i)).figure is None by {
                assert(fld(s1, q.x as int, i).figure is None);
            }
        }
        if crate::logic::straight_clear(s2, q, kp) {
            assert forall|i: int|
                crate::logic::lo(q.y as int, kp.y as int) < i < crate::logic::hi(
                    q.y as int,
                    kp.y as int,
                ) implies (#[trigger] fld(s1, q.x as int, i)).figure is None by {
                assert(fld(s2, q.x as int, i).figure is None);
            }
        }
    }
    assert(crate::logic::sideways_clear(s1, q, kp) == crate::logic::sideways_clear(s2, q, kp)) by {
        if crate::logic::sideways_clear(s1, q, kp) {
            assert forall|i: int|
                crate::logic::lo(q.x as int, kp.x as int) < i < crate::logic::hi(
                    q.x as int,
                    kp.x as int,
                ) implies (#[trigger] fld(s2, i, q.y as int)).figure is None by {
                assert(fld(s1, i, q.y as int).figure is None);
            }
        }
        if crate::logic::sideways_clear(s2, q, kp) {
            assert forall|i: int|
                crate::logic::lo(q.x as int, kp.x as int) < i < crate::logic::hi(
                    q.x as int,
                    kp.x as int,
                ) implies (#[trigger] fld(s1, i, q.y as int)).figure is None by {
                assert(fld(s2, i, q.y as int).figure is None);
            }
        }
    }
    assert(crate::logic::diag_move(s1, q, kp) == crate::logic::diag_move(s2, q, kp)) by {
        if crate::logic::diag_shape(q, kp) {
            if crate::logic::diag_clear(s1, q, kp) {
                assert forall|i: int|
                    1 <= i < crate::logic::dist(q.x as int, kp.x as int) implies (#[trigger] fld(
                    s2,
                    crate::logic::step(q.x as int, kp.x as int, i),
                    crate::logic::step(q.y as int, kp.y as int, i),
                )).figure is None by {
                    assert(fld(
                        s1,
                        crate::logic::step(q.x as int, kp.x as int, i),
                        crate::logic::step(q.y as int, kp.y as int, i),
                    ).figure is None);
                }
            }
            if crate::logic::diag_clear(s2, q, kp) {
                assert forall|i: int|
                    1 <= i < crate::logic::dist(q.x as int, kp.x as int) implies (#[trigger] fld(
                    s1,
                    crate::logic::step(q.x as int, kp.x as int, i),
                    crate::logic::step(q.y as int, kp.y as int, i),
                )).figure is None by {
                    assert(fld(
                        s2,
                        crate::logic::step(q.x as int, kp.x as int, i),
                        crate::logic::step(q.y as int, kp.y as int, i),
                    ).figure is None);
                }
            }
        }
    }
    assert(fld_at(s1, kp).figure is None <==> fld_at(s2, kp).figure is None);
    assert(fld_at(s1, kp).color == fld_at(s2, kp).color);
}

/// Distinct squares have distinct flat indices.
pub proof fn lemma_pidx_inj(p: Position, q: Position)
    requires
        p.wf(),
        q.wf(),
    ensures
        (pidx(p) == pidx(q)) <==> (p == q),
{
}

impl Board {
    /// Return whether the king standing on `king` is in check: some
    /// figure of `opponent` may legally reach that square.
    #[verifier::loop_isolation(false)]
    pub fn in_check(&self, king: Position, opponent: &Player) -> (r: bool)
        requires
            self.wf(),
            king.wf(),
            opponent.figures@.len() == 6,
            forall|f: Figure, q: Position|
                #[trigger] opponent.figs(f).contains(q) ==> q.wf() && fld_at(
                    self.model(),
                    q,
                ).figure is Some,
        ensures
            r == player_in_check(self.model(), *opponent, king),
    {
        let opp_color = opponent.color();
        let mut k: usize = 0;
        while k < 6
            invariant
                k <= 6,
                forall|f: Figure, q: Position|
                    f.spec_index() < k && #[trigger] opponent.figs(f).contains(q) ==> !threat_from(
                        self.model(),
                        opponent.color,
                        q,
                        king,
                    ),
            decreases 6 - k,
        {
            let ghost fk = kind_of(k as int);
            let n = opponent.figures[k].len();
            let mut i: usize = 0;
            while i < n
                invariant
                    k < 6,
                    i <= n,
                    fk == kind_of(k as int),
                    n == opponent.figs(fk).len(),
                    forall|j: int|
                        0 <= j < i ==> !threat_from(
                            self.model(),
                            opponent.color,
                            #[trigger] opponent.figs(fk)[j],
                            king,
                        ),
                decreases n - i,
            {
                let pos = opponent.figures[k][i];
                proof {
                    assert(opponent.figs(fk).contains(pos));
                }
                if let Some(tmp) = self.get_figure(pos) {
                    if tmp.valid_move(self, pos, king, &opp_color) {
                        return true;
                    }
                } else {
                    proof {
                        assert(false);
                    }
                }
                i = i + 1;
            }
            proof {
                assert forall|f: Figure, q: Position|
                    f.spec_index() < k + 1 && #[trigger] opponent.figs(f).contains(q) implies !threat_from(
                    self.model(),
                    opponent.color,
                    q,
                    king,
                ) by {
                    if f.spec_index() == k {
                        assert(f == fk);
                        let j = choose|j: int|
                            0 <= j < opponent.figs(fk).len() && opponent.figs(fk)[j] == q;
                        assert(!threat_from(self.model(), opponent.color, opponent.figs(fk)[j], king));
                    }
                }
            }
            k = k + 1;
        }
        proof {
            if player_in_check(self.model(), *opponent, king) {
                let (f, q) = choose|f: Figure, q: Position|
                    #[trigger] opponent.figs(f).contains(q) && threat_from(
                        self.model(),
                        opponent.color,
                        q,
                        king,
                    );
                assert(f.spec_index() < 6);
                assert(false);
            }
        }
        false
    }
}

impl Board {
    /// Check if the move from `from` to `to` is valid: the figure at
    /// `from` accepts the geometric move and the active player's own
    /// king stays out of check. Nothing is mutated.
    pub fn is_move_valid(
        &mut self,
        from: Position,
        to: Position,
        active: &mut Player,
        inactive: &mut Player,
    ) -> (r: bool)
        requires
            old(self).wf(),
            from.wf(),
            to.wf(),
            old(active).wf(),
            old(active).distinct(),
            old(inactive).wf(),
            old(inactive).distinct(),
            old(active).color != old(inactive).color,
            covers(old(self).model(), *old(active)),
            covers(old(self).model(), *old(inactive)),
            board_registered(old(self).model(), *old(active), *old(inactive)),
            old(active).owns(from),
            old(active).figs(Figure::King).len() >= 1,
        ensures
            *final(self) == *old(self),
            *final(active) == *old(active),
            *final(inactive) == *old(inactive),
            r == move_valid_spec(old(self).model(), *old(active), *old(inactive), from, to),
    {
        proof {
            let fa = choose|f: Figure| old(active).figs(f).contains(from);
            assert(old(active).figs(fa).contains(from));
        }
        let fig_opt = self.get_figure(from);
        if let Some(fig) = fig_opt {
            let fc = self.field_at(from).color;
            if fig.valid_move(self, from, to, &fc) {
                proof {
                    if fld_at(self.model(), to).figure is Some {
                        assert(fld_at(self.model(), to).color != old(active).color);
                        assert(fld_at(self.model(), to).color == old(inactive).color);
                    }
                }
                let chk = self.simulate_check(from, to, active, inactive, true);
                !chk
            } else {
                false
            }
        } else {
            proof {
                assert(false);
            }
            false
        }
    }

    /// Return whether either player is checkmated: their king is in
    /// check and no own move escapes it. Nothing is mutated.
    pub fn checkmate(&mut self, one: &mut Player, two: &mut Player) -> (r: bool)
        requires
            old(self).wf(),
            old(one).wf(),
            old(one).distinct(),
            old(two).wf(),
            old(two).distinct(),
            old(one).color != old(two).color,
            covers(old(self).model(), *old(one)),
            covers(old(self).model(), *old(two)),
            board_registered(old(self).model(), *old(one), *old(two)),
            old(one).figs(Figure::King).len() >= 1,
            old(two).figs(Figure::King).len() >= 1,
        ensures
            *final(self) == *old(self),
            *final(one) == *old(one),
            *final(two) == *old(two),
            r == checkmate_spec(old(self).model(), *old(one), *old(two)),
    {
        proof {
            assert(old(one).figs(Figure::King).contains(old(one).figs(Figure::King)[0]));
            assert(old(two).figs(Figure::King).contains(old(two).figs(Figure::King)[0]));
            lemma_registered_sym(old(self).model(), *old(one), *old(two));
        }
        let k1 = one.king();
        if self.in_check(k1, two) {
            let saved = one.can_king_be_saved(self, two);
            return !saved;
        }
        let k2 = two.king();
        if self.in_check(k2, one) {
            let saved = two.can_king_be_saved(self, one);
            return !saved;
        }
        false
    }

    /// Probe whether, after hypothetically playing `from` to `to`, the
    /// active player's king (or, with `king` false, the square `to`)
    /// can be reached by the remaining inactive figures. The move is
    /// played on structural copies, so board and players are left
    /// exactly as found.
    pub fn simulate_check(
        &mut self,
        from: Position,
        to: Position,
        active: &mut Player,
        inactive: &mut Player,
        king: bool,
    ) -> (r: bool)
        requires
            old(self).wf(),
            from.wf(),
            to.wf(),
            old(active).wf(),
            old(active).distinct(),
            old(inactive).wf(),
            old(inactive).distinct(),
            old(active).color != old(inactive).color,
            covers(old(self).model(), *old(active)),
            covers(old(self).model(), *old(inactive)),
            old(active).owns(from),
            fld_at(old(self).model(), to).figure is Some ==> old(inactive).figs(
                fld_at(old(self).model(), to).figure->0,
            ).contains(to),
            old(active).figs(Figure::King).len() >= 1,
        ensures
            *final(self) == *old(self),
            *final(active) == *old(active),
            *final(inactive) == *old(inactive),
            r == check_after_move(old(self).model(), *old(active), *old(inactive), from, to, king),
    {
        let ghost s0 = self.model();
        let ghost a0 = *active;
        let ghost i0 = *inactive;
        let mut sim_board = self.duplicate();
        let mut sim_active = active.duplicate();
        let mut sim_inactive = inactive.duplicate();
        proof {
            assert(sim_active.wf() && sim_active.distinct()) by {
                assert(forall|f: Figure, i: int|
                    0 <= i < sim_active.figs(f).len() ==> #[trigger] sim_active.figs(f)[i]
                        == a0.figs(f)[i]);
            }
            assert(sim_inactive.wf() && sim_inactive.distinct()) by {
                assert(forall|f: Figure, i: int|
                    0 <= i < sim_inactive.figs(f).len() ==> #[trigger] sim_inactive.figs(f)[i]
                        == i0.figs(f)[i]);
            }
        }
        if !sim_board.is_empty(to) {
            let name = sim_board.get_figure(to).unwrap().name();
            proof {
                let ck = fld_at(s0, to).figure->0;
                crate::logic::lemma_figure_named(ck);
            }
            sim_inactive.capture(name, to);
        }
        proof {
            let fa = choose|f: Figure| a0.figs(f).contains(from);
            assert(a0.figs(fa).contains(from));
            assert(fld_at(s0, from).figure is Some);
            assert(sim_active.figs(fa).contains(from));
            assert(sim_active.owns(from));
        }
        sim_board.move_figure(from, to);
        sim_active.move_figure(from, to);
        let probe = if king {
            proof {
                assert(sim_active.figs(Figure::King).len() == a0.figs(Figure::King).len());
            }
            sim_active.king()
        } else {
            to
        };
        proof {
            // The probed square is the modelled king square.
            assert(probe == king_pos_after(a0, from, to, king)) by {
                if king {
                    assert(sim_active.figs(Figure::King) == crate::player::subst(
                        a0.figs(Figure::King),
                        from,
                        to,
                    ));
                }
            }
            assert(probe.wf()) by {
                if king && a0.figs(Figure::King)[0] != from {
                    assert(a0.figs(Figure::King).contains(a0.figs(Figure::King)[0]));
                }
            }
            // The copied, mutated registry holds exactly the original
            // inactive figures away from `to`.
            assert forall|f: Figure, q: Position| #[trigger] sim_inactive.figs(f).contains(q)
                <==> (i0.figs(f).contains(q) && q != to) by {
                if fld_at(s0, to).figure is Some {
                    let ck = fld_at(s0, to).figure->0;
                    let j = choose|j: int|
                        0 <= j < i0.figs(ck).len() && i0.figs(ck)[j] == to && sim_inactive.figs(
                            ck,
                        ) == i0.figs(ck).remove(j);
                    if f != ck {
                        assert(sim_inactive.figs(f) == i0.figs(f));
                        if i0.figs(f).contains(to) {
                            assert(fld_at(s0, to).figure == Some(f));
                        }
                        if sim_inactive.figs(f).contains(q) {
                            assert(i0.figs(f).contains(q) && q != to);
                        }
                        if i0.figs(f).contains(q) && q != to {
                            assert(sim_inactive.figs(f).contains(q));
                        }
                    } else {
                        if sim_inactive.figs(ck).contains(q) {
                            let i = choose|i: int|
                                0 <= i < sim_inactive.figs(ck).len() && sim_inactive.figs(ck)[i]
                                    == q;
                            if i < j {
                                assert(q == i0.figs(ck)[i]);
                                assert(i0.figs(ck)[i] != i0.figs(ck)[j]);
                            } else {
                                assert(q == i0.figs(ck)[i + 1]);
                                assert(i0.figs(ck)[i + 1] != i0.figs(ck)[j]);
                            }
                            assert(i0.figs(ck).contains(q) && q != to);
                        }
                        if i0.figs(ck).contains(q) && q != to {
                            let i = choose|i: int|
                                0 <= i < i0.figs(ck).len() && i0.figs(ck)[i] == q;
                            assert(i != j);
                            if i < j {
                                assert(sim_inactive.figs(ck)[i] == q);
                            } else {
                                assert(sim_inactive.figs(ck)[i - 1] == q);
                            }
                            assert(sim_inactive.figs(ck).contains(q));
                        }
                    }
                } else {
                    assert(sim_inactive.figs(f) == i0.figs(f));
                    if i0.figs(f).contains(q) {
                        assert(fld_at(s0, q).figure is Some);
                    }
                }
            }
            // Away from `from` and `to` the moved board agrees with the
            // original, so the remaining inactive figures still stand
            // on occupied squares.
            assert forall|f: Figure, q: Position|
                #[trigger] sim_inactive.figs(f).contains(q) implies q.wf() && fld_at(
                sim_board.model(),
                q,
            ).figure is Some by {
                assert(i0.figs(f).contains(q) && q != to);
                assert(fld_at(s0, q).color == i0.color);
                assert(q != from) by {
                    if q == from {
                        let fa = choose|g: Figure| a0.figs(g).contains(from);
                        assert(a0.figs(fa).contains(from));
                        assert(fld_at(s0, from).color == a0.color);
                    }
                }
                lemma_pidx_inj(q, from);
                lemma_pidx_inj(q, to);
                assert(fld_at(sim_board.model(), q) == fld_at(s0, q));
            }
        }
        let result = sim_board.in_check(probe, &sim_inactive);
        proof {
            let s2 = board_moved(s0, from, to);
            assert(sim_board.model() == s2);
            if result {
                let (f, q) = choose|f: Figure, q: Position|
                    #[trigger] sim_inactive.figs(f).contains(q) && threat_from(
                        s2,
                        sim_inactive.color,
                        q,
                        probe,
                    );
                assert(i0.figs(f).contains(q) && q != to);
                assert(check_after_move(s0, a0, i0, from, to, king));
            } else {
                if check_after_move(s0, a0, i0, from, to, king) {
                    let (f, q) = choose|f: Figure, q: Position|
                        #[trigger] i0.figs(f).contains(q) && q != to && threat_from(
                            s2,
                            i0.color,
                            q,
                            king_pos_after(a0, from, to, king),
                        );
                    assert(sim_inactive.figs(f).contains(q));
                    assert(player_in_check(sim_board.model(), sim_inactive, probe));
                    assert(false);
                }
            }
        }
        result
    }
}

} // verus!
