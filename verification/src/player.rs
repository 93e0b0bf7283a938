//! The per-side figure registry.
//!
//! A player keeps, for every figure kind, the ordered list of board
//! positions its figures of that kind stand on. The lists are stored in
//! a vector indexed by [`Figure::spec_index`]; an empty list plays the
//! role of an absent kind.

use vstd::prelude::*;

use crate::check::{board_registered, covers, has_move, move_valid_spec};
use crate::logic::{figure_named, lemma_figure_named, Board, Color, Figure, Position};

verus! {

/// Types the player can have.
#[derive(Debug, Copy, Clone, PartialEq, Eq, Structural)]
pub enum PlayerType {
    Human,
    Dumb,
    Smart,
}

/// One side of the game: its kind of control, its color, and the
/// positions of its figures, grouped by figure kind.
#[derive(Debug)]
pub struct Player {
    pub ptype: PlayerType,
    pub color: Color,
    pub figures: Vec<Vec<Position>>,
}

/// `s` with every entry equal to `a` replaced by `b`.
pub open spec fn subst(s: Seq<Position>, a: Position, b: Position) -> Seq<Position> {
    s.map_values(|q: Position| if q == a { b } else { q })
}

/// The initial positions of the figures of kind `f` for the side `c`.
pub open spec fn init_figs(c: Color, f: Figure) -> Seq<Position> {
    let back: u8 = if c is White {
        0
    } else {
        7
    };
    let pawn_rank: u8 = if c is White {
        1
    } else {
        6
    };
    match f {
        Figure::King => seq![Position { x: 4, y: back }],
        Figure::Queen => seq![Position { x: 3, y: back }],
        Figure::Bishop => seq![Position { x: 2, y: back }, Position { x: 5, y: back }],
        Figure::Knight => seq![Position { x: 1, y: back }, Position { x: 6, y: back }],
        Figure::Rook => seq![Position { x: 0, y: back }, Position { x: 7, y: back }],
        Figure::Pawn => Seq::new(8, |i: int| Position { x: i as u8, y: pawn_rank }),
    }
}

/// Substituting at the unique occurrence of `a` is an update.
proof fn lemma_subst_update(s: Seq<Position>, a: Position, b: Position, i: int)
    requires
        0 <= i < s.len(),
        s[i] == a,
        forall|j: int| 0 <= j < s.len() && j != i ==> s[j] != a,
    ensures
        subst(s, a, b) == s.update(i, b),
{
    assert(subst(s, a, b) =~= s.update(i, b));
}

/// Substitution without an occurrence of `a` changes nothing.
proof fn lemma_subst_id(s: Seq<Position>, a: Position, b: Position)
    requires
        forall|j: int| 0 <= j < s.len() ==> s[j] != a,
    ensures
        subst(s, a, b) == s,
{
    assert(subst(s, a, b) =~= s);
}

impl Player {
    /// The positions of this player's figures of kind `f`.
    pub open spec fn figs(self, f: Figure) -> Seq<Position> {
        self.figures@[f.spec_index()]@
    }

    /// Structurally well-formed: one list per kind, every entry on the
    /// board.
    pub open spec fn wf(self) -> bool {
        &&& self.figures@.len() == 6
        &&& forall|f: Figure, i: int|
            0 <= i < self.figs(f).len() ==> (#[trigger] self.figs(f)[i]).wf()
    }

    /// Some figure of this player stands on `p`.
    pub open spec fn owns(self, p: Position) -> bool {
        exists|f: Figure| self.figs(f).contains(p)
    }

    /// No position occurs twice across this player's lists.
    pub open spec fn distinct(self) -> bool {
        forall|fa: Figure, ia: int, fb: Figure, ib: int|
            0 <= ia < self.figs(fa).len() && 0 <= ib < self.figs(fb).len() && (fa != fb || ia
                != ib) ==> #[trigger] self.figs(fa)[ia] != #[trigger] self.figs(fb)[ib]
    }

    /// The kind of the unique figure standing on `p`, if any.
    pub open spec fn kind_at(self, p: Position) -> Figure {
        choose|f: Figure| self.figs(f).contains(p)
    }

    /// Returns an instance of a Player with the given type and color,
    /// holding the 16 initial figures of that color.
    pub fn new(p: PlayerType, c: Color) -> (r: Player)
        ensures
            r.wf(),
            r.distinct(),
            r.ptype == p,
            r.color == c,
            forall|f: Figure| #[trigger] r.figs(f) == init_figs(c, f),
    {
        match c {
            Color::Black => Player::create_black_player(p, c),
            Color::White => Player::create_white_player(p, c),
        }
    }

    /// Create a new black player.
    fn create_black_player(p: PlayerType, c: Color) -> (r: Player)
        requires
            c == Color::Black,
        ensures
            r.wf(),
            r.distinct(),
            r.ptype == p,
            r.color == c,
            forall|f: Figure| #[trigger] r.figs(f) == init_figs(c, f),
    {
        Player { ptype: p, color: c, figures: Player::initial_lists(7, 6) }
    }

    /// Create a new white player.
    fn create_white_player(p: PlayerType, c: Color) -> (r: Player)
        requires
            c == Color::White,
        ensures
            r.wf(),
            r.distinct(),
            r.ptype == p,
            r.color == c,
            forall|f: Figure| #[trigger] r.figs(f) == init_figs(c, f),
    {
        Player { ptype: p, color: c, figures: Player::initial_lists(0, 1) }
    }

    /// The initial per-kind lists for a side whose back rank is `back`
    /// and whose pawns start on `pawn_rank`.
    #[verifier::loop_isolation(false)]
    fn initial_lists(back: u8, pawn_rank: u8) -> (r: Vec<Vec<Position>>)
        requires
            back < 8,
            pawn_rank < 8,
        ensures
            r@.len() == 6,
            r@[0]@ =~= seq![Position { x: 4, y: back }],
            r@[1]@ =~= seq![Position { x: 3, y: back }],
            r@[2]@ =~= seq![Position { x: 2, y: back }, Position { x: 5, y: back }],
            r@[3]@ =~= seq![Position { x: 1, y: back }, Position { x: 6, y: back }],
            r@[4]@ =~= seq![Position { x: 0, y: back }, Position { x: 7, y: back }],
            r@[5]@ =~= Seq::new(8, |i: int| Position { x: i as u8, y: pawn_rank }),
    {
        let mut kings: Vec<Position> = Vec::new();
        kings.push(Position::new(4, back));
        let mut queens: Vec<Position> = Vec::new();
        queens.push(Position::new(3, back));
        let mut bishops: Vec<Position> = Vec::new();
        bishops.push(Position::new(2, back));
        bishops.push(Position::new(5, back));
        let mut knights: Vec<Position> = Vec::new();
        knights.push(Position::new(1, back));
        knights.push(Position::new(6, back));
        let mut rooks: Vec<Position> = Vec::new();
        rooks.push(Position::new(0, back));
        rooks.push(Position::new(7, back));
        let mut pawns: Vec<Position> = Vec::new();
        let mut x: u8 = 0;
        while x < 8
            invariant
                x <= 8,
                pawns@.len() == x,
                forall|i: int| 0 <= i < x ==> pawns@[i] == (Position { x: i as u8, y: pawn_rank }),
            decreases 8 - x,
        {
            pawns.push(Position::new(x, pawn_rank));
            x = x + 1;
        }
        let mut figures: Vec<Vec<Position>> = Vec::new();
        figures.push(kings);
        figures.push(queens);
        figures.push(bishops);
        figures.push(knights);
        figures.push(rooks);
        figures.push(pawns);
        figures
    }

    /// A structural copy of this player.
    #[verifier::loop_isolation(false)]
    pub fn duplicate(&self) -> (r: Player)
        ensures
            r.ptype == self.ptype,
            r.color == self.color,
            r.figures@.len() == self.figures@.len(),
            self.figures@.len() == 6 ==> forall|f: Figure| #[trigger] r.figs(f) == self.figs(f),
            forall|k: int| 0 <= k < self.figures@.len() ==> #[trigger] r.figures@[k]@
                == self.figures@[k]@,
    {
        let mut figures: Vec<Vec<Position>> = Vec::new();
        let n = self.figures.len();
        let mut k: usize = 0;
        while k < n
            invariant
                k <= n,
                n == self.figures@.len(),
                figures@.len() == k,
                forall|kk: int| 0 <= kk < k ==> #[trigger] figures@[kk]@ == self.figures@[kk]@,
            decreases n - k,
        {
            let row = &self.figures[k];
            let m = row.len();
            let mut list: Vec<Position> = Vec::new();
            let mut i: usize = 0;
            while i < m
                invariant
                    i <= m,
                    m == row@.len(),
                    list@ == row@.subrange(0, i as int),
                decreases m - i,
            {
                list.push(row[i]);
                proof {
                    assert(list@ =~= row@.subrange(0, i + 1));
                }
                i = i + 1;
            }
            proof {
                assert(list@ =~= row@);
            }
            figures.push(list);
            k = k + 1;
        }
        Player { ptype: self.ptype, color: self.color, figures }
    }

    /// Return player color.
    pub fn color(&self) -> (r: Color)
        ensures
            r == self.color,
    {
        self.color
    }

    /// Return player type.
    pub fn ptype(&self) -> (r: PlayerType)
        ensures
            r == self.ptype,
    {
        self.ptype
    }

    /// Set player type.
    pub fn set_ptype(&mut self, p: PlayerType)
        ensures
            *final(self) == (Player { ptype: p, ..*old(self) }),
    {
        self.ptype = p;
    }

    /// The per-kind position lists.
    pub fn figures(&self) -> (r: &Vec<Vec<Position>>)
        ensures
            r == &self.figures,
    {
        &self.figures
    }

    /// Move this player's figure from `before` to `after` in the
    /// registry.
    #[verifier::loop_isolation(false)]
    pub fn move_figure(&mut self, before: Position, after: Position)
        requires
            old(self).wf(),
            old(self).distinct(),
            old(self).owns(before),
            after.wf(),
        ensures
            final(self).wf(),
            final(self).ptype == old(self).ptype,
            final(self).color == old(self).color,
            forall|f: Figure| #[trigger] final(self).figs(f) == subst(old(self).figs(f), before, after),
    {
        let mut k: usize = 0;
        while k < 6
            invariant
                k <= 6,
                *self == *old(self),
                forall|kk: int, i: int|
                    0 <= kk < k && 0 <= i < self.figures@[kk]@.len() ==> self.figures@[kk]@[i]
                        != before,
            decreases 6 - k,
        {
            let n = self.figures[k].len();
            let mut i: usize = 0;
            while i < n
                invariant
                    k < 6,
                    i <= n,
                    *self == *old(self),
                    n == self.figures@[k as int]@.len(),
                    forall|kk: int, j: int|
                        0 <= kk < k && 0 <= j < self.figures@[kk]@.len() ==> self.figures@[kk]@[j]
                            != before,
                    forall|j: int| 0 <= j < i ==> self.figures@[k as int]@[j] != before,
                decreases n - i,
            {
                if self.figures[k][i] == before {
                    let row = Player::row_mut(&mut self.figures, k);
                    row.set(i, after);
                    proof {
                        let fk = crate::logic::kind_of(k as int);
                        assert(fk.spec_index() == k);
                        assert(old(self).figs(fk)[i as int] == before);
                        assert forall|f: Figure| #[trigger] self.figs(f) == subst(
                            old(self).figs(f),
                            before,
                            after,
                        ) by {
                            if f == fk {
                                assert forall|j: int|
                                    0 <= j < old(self).figs(f).len() && j != i implies old(
                                    self,
                                ).figs(f)[j] != before by {
                                    assert(old(self).figs(f)[j] != old(self).figs(fk)[i as int]);
                                }
                                lemma_subst_update(old(self).figs(f), before, after, i as int);
                            } else {
                                assert(f.spec_index() != k);
                                assert forall|j: int|
                                    0 <= j < old(self).figs(f).len() implies old(self).figs(f)[j]
                                    != before by {
                                    assert(old(self).figs(f)[j] != old(self).figs(fk)[i as int]);
                                }
                                lemma_subst_id(old(self).figs(f), before, after);
                            }
                        }
                    }
                    return;
                }
                i = i + 1;
            }
            k = k + 1;
        }
        proof {
            let f0 = choose|f: Figure| old(self).figs(f).contains(before);
            let i0 = choose|i: int|
                0 <= i < old(self).figs(f0).len() && old(self).figs(f0)[i] == before;
            assert(old(self).figures@[f0.spec_index()]@[i0] == before);
            assert(false);
        }
    }

    /// Remove this player's figure of kind `f` standing on `pos`.
    #[verifier::loop_isolation(false)]
    fn capture_kind(&mut self, f: Figure, pos: Position)
        requires
            old(self).wf(),
            old(self).distinct(),
            old(self).figs(f).contains(pos),
        ensures
            final(self).wf(),
            final(self).ptype == old(self).ptype,
            final(self).color == old(self).color,
            exists|j: int|
                0 <= j < old(self).figs(f).len() && old(self).figs(f)[j] == pos && final(self).figs(f) == old(self).figs(f).remove(j),
            forall|g: Figure| g != f ==> #[trigger] final(self).figs(g) == old(self).figs(g),
    {
        let k = f.index();
        let n = self.figures[k].len();
        let mut i: usize = 0;
        while i < n
            invariant
                i <= n,
                k == f.spec_index(),
                *self == *old(self),
                n == self.figures@[k as int]@.len(),
                forall|j: int| 0 <= j < i ==> self.figures@[k as int]@[j] != pos,
            decreases n - i,
        {
            if self.figures[k][i] == pos {
                let row = Player::row_mut(&mut self.figures, k);
                let _taken = row.remove(i);
                proof {
                    assert(self.figs(f) == old(self).figs(f).remove(i as int));
                    assert forall|g: Figure| g != f implies #[trigger] self.figs(g) == old(
                        self,
                    ).figs(g) by {
                        assert(g.spec_index() != f.spec_index());
                    }
                    assert forall|g: Figure, idx: int|
                        0 <= idx < self.figs(g).len() implies (#[trigger] self.figs(g)[idx]).wf()
                        by {
                        if g == f {
                            if idx < i {
                                assert(self.figs(g)[idx] == old(self).figs(g)[idx]);
                            } else {
                                assert(self.figs(g)[idx] == old(self).figs(g)[idx + 1]);
                            }
                        } else {
                            assert(self.figs(g)[idx] == old(self).figs(g)[idx]);
                        }
                    }
                }
                return;
            }
            i = i + 1;
        }
        proof {
            let i0 = choose|j: int|
                0 <= j < old(self).figs(f).len() && old(self).figs(f)[j] == pos;
            assert(old(self).figures@[f.spec_index()]@[i0] == pos);
            assert(false);
        }
        vstd::pervasive::unreached()
    }

    /// Capture a figure: remove the entry equal to `pos` from the list
    /// of the kind called `name`.
    pub fn capture(&mut self, name: String, pos: Position)
        requires
            old(self).wf(),
            old(self).distinct(),
            exists|f: Figure| name@ == f.name_of(),
            old(self).figs(figure_named(name@)).contains(pos),
        ensures
            final(self).wf(),
            final(self).ptype == old(self).ptype,
            final(self).color == old(self).color,
            exists|j: int|
                0 <= j < old(self).figs(figure_named(name@)).len() && old(self).figs(
                    figure_named(name@),
                )[j] == pos && final(self).figs(figure_named(name@)) == old(self).figs(
                    figure_named(name@),
                ).remove(j),
            forall|g: Figure|
                g != figure_named(name@) ==> #[trigger] final(self).figs(g) == old(self).figs(g),
    {
        let f = Figure::from_name(name.as_str());
        proof {
            lemma_figure_named(f);
        }
        self.capture_kind(f, pos);
    }

    /// Reverse a capture: re-insert `pos` into the list of the kind
    /// called `name`.
    pub fn reverse_capture(&mut self, name: String, pos: Position)
        requires
            old(self).wf(),
            pos.wf(),
            exists|f: Figure| name@ == f.name_of(),
        ensures
            final(self).wf(),
            final(self).ptype == old(self).ptype,
            final(self).color == old(self).color,
            final(self).figs(figure_named(name@)) == old(self).figs(figure_named(name@)).push(
                pos,
            ),
            forall|g: Figure|
                g != figure_named(name@) ==> #[trigger] final(self).figs(g) == old(self).figs(g),
    {
        let f = Figure::from_name(name.as_str());
        proof {
            lemma_figure_named(f);
        }
        let k = f.index();
        let row = Player::row_mut(&mut self.figures, k);
        row.push(pos);
        proof {
            assert forall|g: Figure| g != f implies #[trigger] self.figs(g) == old(self).figs(
                g,
            ) by {
                assert(g.spec_index() != f.spec_index());
            }
            assert forall|g: Figure, idx: int|
                0 <= idx < self.figs(g).len() implies (#[trigger] self.figs(g)[idx]).wf() by {
                if g == f && idx == old(self).figs(f).len() {
                } else {
                    assert(self.figs(g)[idx] == old(self).figs(g)[idx]);
                }
            }
        }
    }

    /// Promote the pawn on `pos`: remove it from the pawn list and
    /// append it to the queen list.
    pub fn upgrade_pawn(&mut self, pos: Position)
        requires
            old(self).wf(),
            old(self).distinct(),
            old(self).figs(Figure::Pawn).contains(pos),
            pos.wf(),
        ensures
            final(self).wf(),
            final(self).ptype == old(self).ptype,
            final(self).color == old(self).color,
            exists|j: int|
                0 <= j < old(self).figs(Figure::Pawn).len() && old(self).figs(Figure::Pawn)[j]
                    == pos && final(self).figs(Figure::Pawn) == old(self).figs(Figure::Pawn).remove(j),
            final(self).figs(Figure::Queen) == old(self).figs(Figure::Queen).push(pos),
            forall|g: Figure|
                g != Figure::Pawn && g != Figure::Queen ==> #[trigger] final(self).figs(g) == old(self).figs(g),
    {
        proof {
            lemma_figure_named(Figure::Pawn);
            assert(figure_named("pawn"@) == Figure::Pawn);
        }
        self.capture("pawn".to_owned(), pos);
        let ghost mid = *self;
        let row = Player::row_mut(&mut self.figures, 1);
        row.push(pos);
        proof {
            assert(self.figs(Figure::Queen) == mid.figs(Figure::Queen).push(pos));
            assert forall|g: Figure| g != Figure::Queen implies #[trigger] self.figs(g)
                == mid.figs(g) by {
                assert(g.spec_index() != 1);
            }
            assert forall|g: Figure, idx: int|
                0 <= idx < self.figs(g).len() implies (#[trigger] self.figs(g)[idx]).wf() by {
                if g == Figure::Queen && idx == mid.figs(Figure::Queen).len() {
                } else {
                    assert(self.figs(g)[idx] == mid.figs(g)[idx]);
                }
            }
        }
    }

    /// Returns a vector of the possible moves of all this player's
    /// figures: every pair of an owned square and a destination that
    /// [`Board::is_move_valid`] accepts. Nothing is mutated.
    #[verifier::loop_isolation(false)]
    pub fn get_possible_moves(&mut self, board: &mut Board, opponent: &mut Player) -> (r: Vec<
        (Position, Position),
    >)
        requires
            old(board).wf(),
            old(self).wf(),
            old(self).distinct(),
            old(opponent).wf(),
            old(opponent).distinct(),
            old(self).color != old(opponent).color,
            covers(old(board).model(), *old(self)),
            covers(old(board).model(), *old(opponent)),
            board_registered(old(board).model(), *old(self), *old(opponent)),
            old(self).figs(Figure::King).len() >= 1,
        ensures
            *final(board) == *old(board),
            *final(self) == *old(self),
            *final(opponent) == *old(opponent),
            forall|m: (Position, Position)|
                #[trigger] r@.contains(m) <==> (old(self).owns(m.0) && m.1.wf()
                    && move_valid_spec(old(board).model(), *old(self), *old(opponent), m.0, m.1)),
    {
        let mut froms: Vec<Position> = Vec::new();
        let mut k: usize = 0;
        while k < 6
            invariant
                k <= 6,
                forall|j: int| 0 <= j < froms@.len() ==> self.owns(#[trigger] froms@[j]),
                forall|f: Figure, q: Position|
                    f.spec_index() < k && #[trigger] self.figs(f).contains(q) ==> froms@.contains(
                        q,
                    ),
            decreases 6 - k,
        {
            let ghost fk = crate::logic::kind_of(k as int);
            let n = self.figures[k].len();
            let mut i: usize = 0;
            while i < n
                invariant
                    k < 6,
                    i <= n,
                    fk == crate::logic::kind_of(k as int),
                    n == self.figs(fk).len(),
                    forall|j: int| 0 <= j < froms@.len() ==> self.owns(#[trigger] froms@[j]),
                    forall|f: Figure, q: Position|
                        f.spec_index() < k && #[trigger] self.figs(f).contains(q)
                            ==> froms@.contains(q),
                    forall|j: int| 0 <= j < i ==> froms@.contains(#[trigger] self.figs(fk)[j]),
                decreases n - i,
            {
                let ghost pre = froms@;
                froms.push(self.figures[k][i]);
                proof {
                    assert(froms@[pre.len() as int] == self.figs(fk)[i as int]);
                    assert(self.figs(fk).contains(self.figs(fk)[i as int]));
                    assert forall|q: Position| pre.contains(q) implies froms@.contains(q) by {
                        let j = choose|j: int| 0 <= j < pre.len() && pre[j] == q;
                        assert(froms@[j] == q);
                    }
                }
                i = i + 1;
            }
            proof {
                assert forall|f: Figure, q: Position|
                    f.spec_index() < k + 1 && #[trigger] self.figs(f).contains(q) implies froms@.contains(
                    q,
                ) by {
                    if f.spec_index() == k {
                        assert(f == fk);
                        let j = choose|j: int| 0 <= j < self.figs(fk).len() && self.figs(fk)[j] == q;
                        assert(froms@.contains(self.figs(fk)[j]));
                    }
                }
            }
            k = k + 1;
        }
        let mut moves: Vec<(Position, Position)> = Vec::new();
        let nf = froms.len();
        let mut fi: usize = 0;
        while fi < nf
            invariant
                fi <= nf,
                nf == froms@.len(),
                *board == *old(board),
                *self == *old(self),
                *opponent == *old(opponent),
                forall|j: int| 0 <= j < froms@.len() ==> self.owns(#[trigger] froms@[j]),
                forall|f: Figure, q: Position|
                    #[trigger] self.figs(f).contains(q) ==> froms@.contains(q),
                forall|m: (Position, Position)|
                    #[trigger] moves@.contains(m) ==> self.owns(m.0) && m.1.wf()
                        && move_valid_spec(board.model(), *self, *opponent, m.0, m.1),
                forall|j: int, q: Position|
                    0 <= j < fi && q.wf() && #[trigger] move_valid_spec(
                        board.model(),
                        *self,
                        *opponent,
                        froms@[j],
                        q,
                    ) ==> moves@.contains((froms@[j], q)),
            decreases nf - fi,
        {
            let from = froms[fi];
            let mut yy: u8 = 0;
            while yy < 8
                invariant
                    fi < nf,
                    nf == froms@.len(),
                    yy <= 8,
                    from == froms@[fi as int],
                    *board == *old(board),
                    *self == *old(self),
                    *opponent == *old(opponent),
                    forall|j: int| 0 <= j < froms@.len() ==> self.owns(#[trigger] froms@[j]),
                    forall|m: (Position, Position)|
                        #[trigger] moves@.contains(m) ==> self.owns(m.0) && m.1.wf()
                            && move_valid_spec(board.model(), *self, *opponent, m.0, m.1),
                    forall|j: int, q: Position|
                        0 <= j < fi && q.wf() && #[trigger] move_valid_spec(
                            board.model(),
                            *self,
                            *opponent,
                            froms@[j],
                            q,
                        ) ==> moves@.contains((froms@[j], q)),
                    forall|q: Position|
                        #[trigger] q.wf() && q.y < yy && move_valid_spec(
                            board.model(),
                            *self,
                            *opponent,
                            from,
                            q,
                        ) ==> moves@.contains((from, q)),
                decreases 8 - yy,
            {
                let mut xx: u8 = 0;
                while xx < 8
                    invariant
                        fi < nf,
                        nf == froms@.len(),
                        yy < 8,
                        xx <= 8,
                        from == froms@[fi as int],
                        *board == *old(board),
                        *self == *old(self),
                        *opponent == *old(opponent),
                        forall|j: int| 0 <= j < froms@.len() ==> self.owns(#[trigger] froms@[j]),
                        forall|m: (Position, Position)|
                            #[trigger] moves@.contains(m) ==> self.owns(m.0) && m.1.wf()
                                && move_valid_spec(board.model(), *self, *opponent, m.0, m.1),
                        forall|j: int, q: Position|
                            0 <= j < fi && q.wf() && #[trigger] move_valid_spec(
                                board.model(),
                                *self,
                                *opponent,
                                froms@[j],
                                q,
                            ) ==> moves@.contains((froms@[j], q)),
                        forall|q: Position|
                            #[trigger] q.wf() && q.y < yy && move_valid_spec(
                                board.model(),
                                *self,
                                *opponent,
                                from,
                                q,
                            ) ==> moves@.contains((from, q)),
                        forall|q: Position|
                            #[trigger] q.wf() && q.y == yy && q.x < xx && move_valid_spec(
                                board.model(),
                                *self,
                                *opponent,
                                from,
                                q,
                            ) ==> moves@.contains((from, q)),
                    decreases 8 - xx,
                {
                    let try_pos = Position::new(xx, yy);
                    proof {
                        assert(self.owns(from)) by {
                            let f0 = choose|f: Figure| self.figs(f).contains(froms@[fi as int]);
                            assert(self.figs(f0).contains(from));
                        }
                    }
                    let ghost pre = moves@;
                    if board.is_move_valid(from, try_pos, self, opponent) {
                        moves.push((from, try_pos));
                        proof {
                            assert(moves@[pre.len() as int] == (from, try_pos));
                            assert forall|m: (Position, Position)| pre.contains(m) implies moves@.contains(
                                m,
                            ) by {
                                let j = choose|j: int| 0 <= j < pre.len() && pre[j] == m;
                                assert(moves@[j] == m);
                            }
                            assert(moves@.contains((from, try_pos)));
                            assert forall|m: (Position, Position)| #[trigger] moves@.contains(
                                m,
                            ) implies self.owns(m.0) && m.1.wf() && move_valid_spec(
                                board.model(),
                                *self,
                                *opponent,
                                m.0,
                                m.1,
                            ) by {
                                let j = choose|j: int| 0 <= j < moves@.len() && moves@[j] == m;
                                if j < pre.len() {
                                    assert(pre.contains(m));
                                } else {
                                    assert(m == (from, try_pos));
                                }
                            }
                        }
                    }
                    proof {
                        assert forall|q: Position|
                            q.wf() && q.y == yy && q.x < xx + 1 && move_valid_spec(
                                board.model(),
                                *self,
                                *opponent,
                                from,
                                q,
                            ) implies moves@.contains((from, q)) by {
                            if q.x == xx {
                                assert(q == try_pos);
                            }
                        }
                    }
                    xx = xx + 1;
                }
                yy = yy + 1;
            }
            proof {
                assert forall|j: int, q: Position|
                    0 <= j < fi + 1 && q.wf() && #[trigger] move_valid_spec(
                        board.model(),
                        *self,
                        *opponent,
                        froms@[j],
                        q,
                    ) implies moves@.contains((froms@[j], q)) by {
                    if j == fi {
                        assert(q.y < 8);
                    }
                }
            }
            fi = fi + 1;
        }
        proof {
            assert forall|m: (Position, Position)|
                #[trigger] moves@.contains(m) <==> (self.owns(m.0) && m.1.wf() && move_valid_spec(
                    board.model(),
                    *self,
                    *opponent,
                    m.0,
                    m.1,
                )) by {
                if self.owns(m.0) && m.1.wf() && move_valid_spec(
                    board.model(),
                    *self,
                    *opponent,
                    m.0,
                    m.1,
                ) {
                    let f0 = choose|f: Figure| self.figs(f).contains(m.0);
                    assert(self.figs(f0).contains(m.0));
                    assert(froms@.contains(m.0));
                    let j = choose|j: int| 0 <= j < froms@.len() && froms@[j] == m.0;
                    assert(moves@.contains((froms@[j], m.1)));
                }
            }
        }
        moves
    }

    /// If the player is an AI this returns a valid move; the
    /// unimplemented `Smart` tier yields its fixed placeholder move.
    pub fn get_ai_move(&self, board: &Board, other: &Player) -> (r: (Position, Position))
        requires
            self.ptype != PlayerType::Smart ==> {
                &&& board.wf()
                &&& self.wf() && self.distinct()
                &&& other.wf() && other.distinct()
                &&& self.color != other.color
                &&& covers(board.model(), *self)
                &&& covers(board.model(), *other)
                &&& board_registered(board.model(), *self, *other)
                &&& self.figs(Figure::King).len() >= 1
                &&& has_move(board.model(), *self, *other)
            },
        ensures
            self.ptype == PlayerType::Smart ==> r == (
                Position { x: 1, y: 1 },
                Position { x: 1, y: 2 },
            ),
            self.ptype != PlayerType::Smart ==> {
                &&& self.owns(r.0)
                &&& r.1.wf()
                &&& move_valid_spec(board.model(), *self, *other, r.0, r.1)
            },
            self.ptype != PlayerType::Smart && (exists|a: Position, b: Position|
                self.owns(a) && b.wf() && #[trigger] move_valid_spec(
                    board.model(),
                    *self,
                    *other,
                    a,
                    b,
                ) && crate::ai::move_score(board.model(), *self, *other, a, b) > 0) ==> (forall|
                a: Position,
                b: Position,
            |
                self.owns(a) && b.wf() && #[trigger] move_valid_spec(
                    board.model(),
                    *self,
                    *other,
                    a,
                    b,
                ) ==> crate::ai::move_score(board.model(), *self, *other, a, b)
                    <= crate::ai::move_score(board.model(), *self, *other, r.0, r.1)),
    {
        crate::ai::get_move(board, self, other)
    }

    /// Returns whether the player has any legal move left at all.
    pub fn can_king_be_saved(&mut self, board: &mut Board, two: &mut Player) -> (r: bool)
        requires
            old(board).wf(),
            old(self).wf(),
            old(self).distinct(),
            old(two).wf(),
            old(two).distinct(),
            old(self).color != old(two).color,
            covers(old(board).model(), *old(self)),
            covers(old(board).model(), *old(two)),
            board_registered(old(board).model(), *old(self), *old(two)),
            old(self).figs(Figure::King).len() >= 1,
        ensures
            *final(board) == *old(board),
            *final(self) == *old(self),
            *final(two) == *old(two),
            r == has_move(old(board).model(), *old(self), *old(two)),
    {
        let moves = self.get_possible_moves(board, two);
        let r = moves.len() > 0;
        proof {
            if r {
                let m = moves@[0];
                assert(moves@.contains(m));
                assert(self.owns(m.0) && m.1.wf() && move_valid_spec(
                    board.model(),
                    *self,
                    *two,
                    m.0,
                    m.1,
                ));
                assert(has_move(board.model(), *self, *two));
            } else {
                if has_move(board.model(), *self, *two) {
                    let (from, to) = choose|from: Position, to: Position|
                        #[trigger] self.owns(from) && #[trigger] to.wf() && move_valid_spec(
                            board.model(),
                            *self,
                            *two,
                            from,
                            to,
                        );
                    assert(moves@.contains((from, to)));
                    assert(false);
                }
            }
        }
        r
    }

    /// A mutable borrow of the `i`-th per-kind list.
    fn row_mut(v: &mut Vec<Vec<Position>>, i: usize) -> (r: &mut Vec<Position>)
        requires
            i < old(v).len(),
        ensures
            *r == old(v)@[i as int],
            final(v)@ == old(v)@.update(i as int, *final(r)),
    {
        &mut v[i]
    }

    /// Return the player's king, which is always there because one
    /// cannot actually capture a king.
    pub fn king(&self) -> (r: Position)
        requires
            self.figures@.len() == 6,
            self.figs(Figure::King).len() >= 1,
        ensures
            r == self.figs(Figure::King)[0],
    {
        self.figures[0][0]
    }
}

} // verus!
