//! Board geometry and per-figure move legality.
//!
//! The mathematical model of a board is a `Seq<Field>` of length 64,
//! addressed as `y * 8 + x`. All legality rules are stated as spec
//! functions over that model; the executable code on [`Board`] and
//! [`Figure`] is proved to decide exactly those rules.

use vstd::prelude::*;
use vstd::string::StrSliceExecFns;

verus! {

/// A square of the 8x8 board, addressed by file `x` and rank `y`,
/// each in `0..8`.
#[derive(Debug, PartialEq, Eq, Structural, Copy, Clone)]
pub struct Position {
    pub x: u8,
    pub y: u8,
}

impl Position {
    /// Both coordinates lie on the board.
    pub open spec fn wf(self) -> bool {
        self.x < 8 && self.y < 8
    }

    /// Construct a position; the coordinates must lie on the board.
    pub fn new(a: u8, b: u8) -> (r: Position)
        requires
            a < 8,
            b < 8,
        ensures
            r == (Position { x: a, y: b }),
    {
        Position { x: a, y: b }
    }

    /// Returns whether `(a, b)` is a valid position.
    pub fn is_pos(a: u8, b: u8) -> (r: bool)
        ensures
            r == (Position { x: a, y: b }).wf(),
    {
        a < 8 && b < 8
    }
}

/// The two sides.
#[derive(Debug, Copy, Clone, PartialEq, Eq, Structural)]
pub enum Color {
    Black,
    White,
}

impl Color {
    /// The other side.
    pub open spec fn spec_opposite(self) -> Color {
        match self {
            Color::White => Color::Black,
            Color::Black => Color::White,
        }
    }

    /// The other side.
    pub fn opposite(self) -> (r: Color)
        ensures
            r == self.spec_opposite(),
    {
        match self {
            Color::White => Color::Black,
            Color::Black => Color::White,
        }
    }
}

/// The six figure kinds. Behaviour is a pure function of the kind.
#[derive(Debug, PartialEq, Eq, Structural, Copy, Clone)]
pub enum Figure {
    King,
    Queen,
    Bishop,
    Knight,
    Rook,
    Pawn,
}

impl Figure {
    /// A fixed numbering of the kinds, used to index per-kind tables.
    pub open spec fn spec_index(self) -> int {
        match self {
            Figure::King => 0,
            Figure::Queen => 1,
            Figure::Bishop => 2,
            Figure::Knight => 3,
            Figure::Rook => 4,
            Figure::Pawn => 5,
        }
    }

    /// The fixed number of this kind.
    pub fn index(self) -> (r: usize)
        ensures
            r == self.spec_index(),
            r < 6,
    {
        match self {
            Figure::King => 0,
            Figure::Queen => 1,
            Figure::Bishop => 2,
            Figure::Knight => 3,
            Figure::Rook => 4,
            Figure::Pawn => 5,
        }
    }

    /// The textual name of this kind.
    pub open spec fn name_of(self) -> Seq<char> {
        match self {
            Figure::King => "king"@,
            Figure::Queen => "queen"@,
            Figure::Rook => "rook"@,
            Figure::Knight => "knight"@,
            Figure::Bishop => "bishop"@,
            Figure::Pawn => "pawn"@,
        }
    }

    /// Returns the figure's name.
    pub fn name(&self) -> (r: String)
        ensures
            r@ == self.name_of(),
    {
        match *self {
            Figure::King => "king".to_owned(),
            Figure::Queen => "queen".to_owned(),
            Figure::Rook => "rook".to_owned(),
            Figure::Knight => "knight".to_owned(),
            Figure::Bishop => "bishop".to_owned(),
            Figure::Pawn => "pawn".to_owned(),
        }
    }

    /// Return the short version of a figure's name.
    pub fn short(&self) -> (r: String)
        ensures
            r@ == (match *self {
                Figure::King => "Ki"@,
                Figure::Queen => "Qu"@,
                Figure::Rook => "Ro"@,
                Figure::Knight => "Kn"@,
                Figure::Bishop => "Bi"@,
                Figure::Pawn => "Pa"@,
            }),
    {
        match *self {
            Figure::King => "Ki".to_owned(),
            Figure::Queen => "Qu".to_owned(),
            Figure::Rook => "Ro".to_owned(),
            Figure::Knight => "Kn".to_owned(),
            Figure::Bishop => "Bi".to_owned(),
            Figure::Pawn => "Pa".to_owned(),
        }
    }

    /// Distinct kinds bear distinct names.
    pub proof fn lemma_name_of_injective()
        ensures
            forall|a: Figure, b: Figure| a.name_of() == b.name_of() ==> a == b,
    {
        reveal_strlit("king");
        reveal_strlit("queen");
        reveal_strlit("rook");
        reveal_strlit("knight");
        reveal_strlit("bishop");
        reveal_strlit("pawn");
        assert forall|a: Figure, b: Figure| a.name_of() == b.name_of() implies a == b by {
            let sa = a.name_of();
            let sb = b.name_of();
            assert(sa.len() == sb.len());
            assert(sa[0] == sb[0]);
        }
    }

    /// Constructs a figure from its name.
    pub fn from_name(n: &str) -> (r: Figure)
        requires
            exists|f: Figure| n@ == f.name_of(),
        ensures
            n@ == r.name_of(),
    {
        proof {
            reveal_strlit("king");
            reveal_strlit("queen");
            reveal_strlit("rook");
            reveal_strlit("knight");
            reveal_strlit("bishop");
            reveal_strlit("pawn");
        }
        let c0 = n.get_char(0);
        if c0 == 'r' {
            Figure::Rook
        } else if c0 == 'q' {
            Figure::Queen
        } else if c0 == 'p' {
            Figure::Pawn
        } else if c0 == 'b' {
            Figure::Bishop
        } else if c0 == 'k' {
            if n.get_char(1) == 'i' {
                Figure::King
            } else {
                Figure::Knight
            }
        } else {
            vstd::pervasive::unreached()
        }
    }

    /// The kind with the given number.
    pub fn from_index(i: usize) -> (r: Figure)
        requires
            i < 6,
        ensures
            r.spec_index() == i,
    {
        if i == 0 {
            Figure::King
        } else if i == 1 {
            Figure::Queen
        } else if i == 2 {
            Figure::Bishop
        } else if i == 3 {
            Figure::Knight
        } else if i == 4 {
            Figure::Rook
        } else {
            Figure::Pawn
        }
    }
}

impl Figure {
    /// Decide whether the move is legal for this figure kind.
    pub fn valid_move(&self, board: &Board, from: Position, to: Position, color: &Color) -> (r:
        bool)
        requires
            board.wf(),
            from.wf(),
            to.wf(),
        ensures
            r == move_ok(board.model(), *self, from, to, *color),
    {
        match *self {
            Figure::Pawn => self.pawn_move(board, from, to, color),
            Figure::Bishop => self.bishop_move(board, from, to, color),
            Figure::Knight => self.knight_move(board, from, to, color),
            Figure::Rook => self.rook_move(board, from, to, color),
            Figure::King => self.king_move(board, from, to, color),
            Figure::Queen => self.queen_move(board, from, to, color),
        }
    }

    /// Whether the move is a straight (vertical) move with a clear path.
    fn straight(board: &Board, from: Position, to: Position) -> (r: bool)
        requires
            board.wf(),
            from.wf(),
            to.wf(),
        ensures
            r == straight_move(board.model(), from, to),
    {
        from.x == to.x && Figure::way_is_clear(board, 0, from, to)
    }

    /// Whether the move is a diagonal move with a clear path.
    fn diagonal(board: &Board, from: Position, to: Position) -> (r: bool)
        requires
            board.wf(),
            from.wf(),
            to.wf(),
        ensures
            r == diag_move(board.model(), from, to),
    {
        let dx = if to.x > from.x {
            to.x - from.x
        } else {
            from.x - to.x
        };
        let dy = if to.y > from.y {
            to.y - from.y
        } else {
            from.y - to.y
        };
        if dx == dy && dx > 0 {
            Figure::way_is_clear(board, 1, from, to)
        } else {
            false
        }
    }

    /// Whether the move is a sideways (horizontal) move with a clear path.
    fn sideways(board: &Board, from: Position, to: Position) -> (r: bool)
        requires
            board.wf(),
            from.wf(),
            to.wf(),
        ensures
            r == sideways_move(board.model(), from, to),
    {
        from.y == to.y && Figure::way_is_clear(board, 2, from, to)
    }

    /// Whether no other figure stands strictly between `from` and `to`:
    /// vertically (`direction` 0), diagonally (1) or horizontally (2).
    #[verifier::loop_isolation(false)]
    fn way_is_clear(board: &Board, direction: u8, from: Position, to: Position) -> (r: bool)
        requires
            board.wf(),
            from.wf(),
            to.wf(),
            direction <= 2,
            direction == 1 ==> diag_shape(from, to),
        ensures
            r == (match direction {
                0 => straight_clear(board.model(), from, to),
                1 => diag_clear(board.model(), from, to),
                _ => sideways_clear(board.model(), from, to),
            }),
    {
        if direction == 0 {
            if to.y == from.y {
                return false;
            }
            let (a, b) = if to.y > from.y {
                (from.y, to.y)
            } else {
                (to.y, from.y)
            };
            let mut i: u8 = a + 1;
            while i < b
                invariant
                    a < i <= b,
                    forall|j: int|
                        a < j < i ==> (#[trigger] fld(board.model(), from.x as int, j)).figure
                            is None,
                decreases b - i,
            {
                if !board.is_empty(Position::new(from.x, i)) {
                    return false;
                }
                i = i + 1;
            }
            true
        } else if direction == 1 {
            let diff = if to.x > from.x {
                to.x - from.x
            } else {
                from.x - to.x
            };
            let mut i: u8 = 1;
            while i < diff
                invariant
                    1 <= i <= diff,
                    forall|j: int|
                        1 <= j < i ==> (#[trigger] fld(
                            board.model(),
                            step(from.x as int, to.x as int, j),
                            step(from.y as int, to.y as int, j),
                        )).figure is None,
                decreases diff - i,
            {
                let px = if to.x > from.x {
                    from.x + i
                } else {
                    from.x - i
                };
                let py = if to.y > from.y {
                    from.y + i
                } else {
                    from.y - i
                };
                if !board.is_empty(Position::new(px, py)) {
                    proof {
                        assert(px as int == step(from.x as int, to.x as int, i as int));
                        assert(py as int == step(from.y as int, to.y as int, i as int));
                    }
                    return false;
                }
                proof {
                    assert(fld(
                        board.model(),
                        step(from.x as int, to.x as int, i as int),
                        step(from.y as int, to.y as int, i as int),
                    ).figure is None);
                }
                i = i + 1;
            }
            true
        } else {
            if to.x == from.x {
                return false;
            }
            let (a, b) = if to.x > from.x {
                (from.x, to.x)
            } else {
                (to.x, from.x)
            };
            let mut i: u8 = a + 1;
            while i < b
                invariant
                    a < i <= b,
                    forall|j: int|
                        a < j < i ==> (#[trigger] fld(board.model(), j, from.y as int)).figure
                            is None,
                decreases b - i,
            {
                if !board.is_empty(Position::new(i, from.y)) {
                    return false;
                }
                i = i + 1;
            }
            true
        }
    }

    /// Decide the pawn rule.
    fn pawn_move(&self, board: &Board, from: Position, to: Position, color: &Color) -> (r: bool)
        requires
            board.wf(),
            from.wf(),
            to.wf(),
        ensures
            r == pawn_ok(board.model(), from, to, *color),
    {
        if board.is_empty(to) {
            match *color {
                Color::Black => {
                    if from.y == 6 {
                        Figure::straight(board, from, to) && (to.y == 4 || to.y == 5)
                    } else {
                        Figure::straight(board, from, to) && from.y >= 1 && from.y - 1 == to.y
                    }
                },
                Color::White => {
                    if from.y == 1 {
                        Figure::straight(board, from, to) && (to.y == 2 || to.y == 3)
                    } else {
                        Figure::straight(board, from, to) && from.y + 1 == to.y
                    }
                },
            }
        } else {
            let tc = self.clash(board, to, color);
            tc && (from.x + 1 == to.x || (from.x >= 1 && from.x - 1 == to.x)) && (match *color {
                Color::Black => from.y >= 1 && from.y - 1 == to.y,
                Color::White => from.y + 1 == to.y,
            })
        }
    }

    /// Whether the destination is empty or held by the other side.
    fn clash(&self, board: &Board, to: Position, color: &Color) -> (r: bool)
        requires
            board.wf(),
            to.wf(),
        ensures
            r == clash_ok(board.model(), to, *color),
    {
        let mut opposite = true;
        if let Some(f) = board.get_figure_color(to) {
            opposite = f != *color;
        }
        opposite
    }

    /// Decide the bishop rule.
    fn bishop_move(&self, board: &Board, from: Position, to: Position, color: &Color) -> (r: bool)
        requires
            board.wf(),
            from.wf(),
            to.wf(),
        ensures
            r == bishop_ok(board.model(), from, to, *color),
    {
        let opposite = self.clash(board, to, color);
        opposite && Figure::diagonal(board, from, to)
    }

    /// Decide the rook rule: exactly one of straight or sideways.
    fn rook_move(&self, board: &Board, from: Position, to: Position, color: &Color) -> (r: bool)
        requires
            board.wf(),
            from.wf(),
            to.wf(),
        ensures
            r == rook_ok(board.model(), from, to, *color),
    {
        let opposite = self.clash(board, to, color);
        opposite && ((Figure::straight(board, from, to) && !Figure::sideways(board, from, to)) || (
        !Figure::straight(board, from, to) && Figure::sideways(board, from, to)))
    }

    /// Decide the knight rule.
    fn knight_move(&self, board: &Board, from: Position, to: Position, color: &Color) -> (r: bool)
        requires
            board.wf(),
            from.wf(),
            to.wf(),
        ensures
            r == knight_ok(board.model(), from, to, *color),
    {
        let opposite = self.clash(board, to, color);
        let dx = if to.x > from.x {
            to.x - from.x
        } else {
            from.x - to.x
        };
        let dy = if to.y > from.y {
            to.y - from.y
        } else {
            from.y - to.y
        };
        opposite && ((dx == 1 && dy == 2) || (dx == 2 && dy == 1))
    }

    /// Decide the king rule.
    fn king_move(&self, board: &Board, from: Position, to: Position, color: &Color) -> (r: bool)
        requires
            board.wf(),
            from.wf(),
            to.wf(),
        ensures
            r == king_ok(board.model(), from, to, *color),
    {
        let opposite = self.clash(board, to, color);
        let dx = if to.x > from.x {
            to.x - from.x
        } else {
            from.x - to.x
        };
        let dy = if to.y > from.y {
            to.y - from.y
        } else {
            from.y - to.y
        };
        opposite && (dx <= 1 && dy <= 1 && (dx == 1 || dy == 1))
    }

    /// Decide the queen rule: exactly one of the three directions.
    fn queen_move(&self, board: &Board, from: Position, to: Position, color: &Color) -> (r: bool)
        requires
            board.wf(),
            from.wf(),
            to.wf(),
        ensures
            r == queen_ok(board.model(), from, to, *color),
    {
        let opposite = self.clash(board, to, color);
        opposite && ((Figure::straight(board, from, to) && !(Figure::sideways(board, from, to)
            || Figure::diagonal(board, from, to))) || (Figure::sideways(board, from, to) && !(
        Figure::straight(board, from, to) || Figure::diagonal(board, from, to))) || (
        Figure::diagonal(board, from, to) && !(Figure::straight(board, from, to)
            || Figure::sideways(board, from, to))))
    }
}

/// The inverse of [`Figure::spec_index`].
pub open spec fn kind_of(k: int) -> Figure {
    if k == 0 {
        Figure::King
    } else if k == 1 {
        Figure::Queen
    } else if k == 2 {
        Figure::Bishop
    } else if k == 3 {
        Figure::Knight
    } else if k == 4 {
        Figure::Rook
    } else {
        Figure::Pawn
    }
}

/// The kind bearing the name `s`, where `s` is one of the six names.
pub open spec fn figure_named(s: Seq<char>) -> Figure {
    choose|f: Figure| s == f.name_of()
}

/// `figure_named` inverts `name_of`.
pub proof fn lemma_figure_named(f: Figure)
    ensures
        figure_named(f.name_of()) == f,
{
    Figure::lemma_name_of_injective();
    assert(exists|g: Figure| f.name_of() == g.name_of());
}

/// One square's state: its color and, possibly, the figure standing on it.
///
/// An empty field's color is the checkerboard parity color of its
/// position; an occupied field's color is the occupant's color.
#[derive(Debug, PartialEq, Copy, Clone)]
pub struct Field {
    pub color: Color,
    pub figure: Option<Figure>,
}

/// The checkerboard color of the square `(x, y)` when it is empty.
pub open spec fn parity_color(x: int, y: int) -> Color {
    if x % 2 == 0 {
        if y % 2 == 1 {
            Color::White
        } else {
            Color::Black
        }
    } else {
        if y % 2 == 0 {
            Color::White
        } else {
            Color::Black
        }
    }
}

impl Field {
    /// Put a figure of the given color on this field.
    pub fn set_occupied(&mut self, f: Figure, c: Color)
        ensures
            *final(self) == (Field { color: c, figure: Some(f) }),
    {
        self.figure = Some(f);
        self.color = c;
    }

    /// The checkerboard color for an empty field at `pos`.
    pub fn get_field_color(pos: Position) -> (r: Color)
        ensures
            r == parity_color(pos.x as int, pos.y as int),
    {
        if pos.x % 2 == 0 {
            if pos.y % 2 == 1 {
                Color::White
            } else {
                Color::Black
            }
        } else {
            if pos.y % 2 == 0 {
                Color::White
            } else {
                Color::Black
            }
        }
    }

    /// Remove the figure from this field and restore the checkerboard color.
    pub fn set_empty(&mut self, pos: Position)
        ensures
            *final(self) == empty_field(pos),
    {
        self.figure = None;
        self.color = Field::get_field_color(pos);
    }

    /// The figure on this field, if any.
    pub fn get_figure(&self) -> (r: Option<Figure>)
        ensures
            r == self.figure,
    {
        self.figure
    }

    /// Whether no figure stands on this field.
    pub fn is_empty(&self) -> (r: bool)
        ensures
            r == (self.figure is None),
    {
        self.figure.is_none()
    }
}

/// An empty field at `pos`, carrying the checkerboard color.
pub open spec fn empty_field(pos: Position) -> Field {
    Field { color: parity_color(pos.x as int, pos.y as int), figure: None }
}

/// The smaller of two integers.
pub open spec fn lo(a: int, b: int) -> int {
    if a < b {
        a
    } else {
        b
    }
}

/// The larger of two integers.
pub open spec fn hi(a: int, b: int) -> int {
    if a < b {
        b
    } else {
        a
    }
}

/// The distance between two integers.
pub open spec fn dist(a: int, b: int) -> int {
    hi(a, b) - lo(a, b)
}

/// The field of the board model `s` at `(x, y)`.
pub open spec fn fld(s: Seq<Field>, x: int, y: int) -> Field {
    s[y * 8 + x]
}

/// The field of the board model `s` at position `p`.
pub open spec fn fld_at(s: Seq<Field>, p: Position) -> Field {
    fld(s, p.x as int, p.y as int)
}

/// The flat index of position `p`.
pub open spec fn pidx(p: Position) -> int {
    p.y * 8 + p.x
}

/// A well-formed board model: 64 fields, and every empty field carries
/// its checkerboard color.
pub open spec fn board_wf(s: Seq<Field>) -> bool {
    &&& s.len() == 64
    &&& forall|x: int, y: int|
        0 <= x < 8 && 0 <= y < 8 && (#[trigger] fld(s, x, y)).figure is None ==> fld(
            s,
            x,
            y,
        ).color == parity_color(x, y)
}

/// The interior of the vertical segment between `f` and `t` is free,
/// and the segment is not degenerate.
pub open spec fn straight_clear(s: Seq<Field>, f: Position, t: Position) -> bool {
    &&& f.y != t.y
    &&& forall|i: int|
        lo(f.y as int, t.y as int) < i < hi(f.y as int, t.y as int) ==> (#[trigger] fld(
            s,
            f.x as int,
            i,
        )).figure is None
}

/// A straight (vertical) move: same file, clear interior.
pub open spec fn straight_move(s: Seq<Field>, f: Position, t: Position) -> bool {
    f.x == t.x && straight_clear(s, f, t)
}

/// The interior of the horizontal segment between `f` and `t` is free,
/// and the segment is not degenerate.
pub open spec fn sideways_clear(s: Seq<Field>, f: Position, t: Position) -> bool {
    &&& f.x != t.x
    &&& forall|i: int|
        lo(f.x as int, t.x as int) < i < hi(f.x as int, t.x as int) ==> (#[trigger] fld(
            s,
            i,
            f.y as int,
        )).figure is None
}

/// A sideways (horizontal) move: same rank, clear interior.
pub open spec fn sideways_move(s: Seq<Field>, f: Position, t: Position) -> bool {
    f.y == t.y && sideways_clear(s, f, t)
}

/// The `i`-th coordinate on the walk from `a` toward `b`.
pub open spec fn step(a: int, b: int, i: int) -> int {
    if a < b {
        a + i
    } else {
        a - i
    }
}

/// The displacement is properly diagonal.
pub open spec fn diag_shape(f: Position, t: Position) -> bool {
    &&& f.x != t.x
    &&& f.y != t.y
    &&& dist(f.x as int, t.x as int) == dist(f.y as int, t.y as int)
}

/// The interior of the diagonal segment between `f` and `t` is free.
pub open spec fn diag_clear(s: Seq<Field>, f: Position, t: Position) -> bool {
    forall|i: int|
        1 <= i < dist(f.x as int, t.x as int) ==> (#[trigger] fld(
            s,
            step(f.x as int, t.x as int, i),
            step(f.y as int, t.y as int, i),
        )).figure is None
}

/// A diagonal move: equal offsets on both axes, clear interior.
pub open spec fn diag_move(s: Seq<Field>, f: Position, t: Position) -> bool {
    diag_shape(f, t) && diag_clear(s, f, t)
}

/// The destination is empty or holds a figure of the other side.
pub open spec fn clash_ok(s: Seq<Field>, t: Position, c: Color) -> bool {
    fld_at(s, t).figure is None || fld_at(s, t).color != c
}

/// Pawn rule: forward onto empty squares (two from the starting rank),
/// diagonally forward one square to capture.
pub open spec fn pawn_ok(s: Seq<Field>, f: Position, t: Position, c: Color) -> bool {
    if fld_at(s, t).figure is None {
        match c {
            Color::Black => {
                if f.y == 6 {
                    straight_move(s, f, t) && (t.y == 4 || t.y == 5)
                } else {
                    straight_move(s, f, t) && t.y as int == f.y as int - 1
                }
            },
            Color::White => {
                if f.y == 1 {
                    straight_move(s, f, t) && (t.y == 2 || t.y == 3)
                } else {
                    straight_move(s, f, t) && t.y as int == f.y as int + 1
                }
            },
        }
    } else {
        &&& fld_at(s, t).color != c
        &&& dist(f.x as int, t.x as int) == 1
        &&& t.y as int == (match c {
            Color::Black => f.y as int - 1,
            Color::White => f.y as int + 1,
        })
    }
}

/// Bishop rule: a diagonal move onto a free or enemy square.
pub open spec fn bishop_ok(s: Seq<Field>, f: Position, t: Position, c: Color) -> bool {
    clash_ok(s, t, c) && diag_move(s, f, t)
}

/// Rook rule: a straight or sideways move onto a free or enemy square.
pub open spec fn rook_ok(s: Seq<Field>, f: Position, t: Position, c: Color) -> bool {
    clash_ok(s, t, c) && (straight_move(s, f, t) || sideways_move(s, f, t))
}

/// Knight rule: a (1,2) or (2,1) jump onto a free or enemy square.
pub open spec fn knight_ok(s: Seq<Field>, f: Position, t: Position, c: Color) -> bool {
    &&& clash_ok(s, t, c)
    &&& {
        ||| (dist(f.x as int, t.x as int) == 1 && dist(f.y as int, t.y as int) == 2)
        ||| (dist(f.x as int, t.x as int) == 2 && dist(f.y as int, t.y as int) == 1)
    }
}

/// King rule: one step in any direction onto a free or enemy square.
pub open spec fn king_ok(s: Seq<Field>, f: Position, t: Position, c: Color) -> bool {
    clash_ok(s, t, c) && hi(dist(f.x as int, t.x as int), dist(f.y as int, t.y as int)) == 1
}

/// Queen rule: a straight, sideways or diagonal move onto a free or
/// enemy square.
pub open spec fn queen_ok(s: Seq<Field>, f: Position, t: Position, c: Color) -> bool {
    clash_ok(s, t, c) && (straight_move(s, f, t) || sideways_move(s, f, t) || diag_move(s, f, t))
}

/// The kind-specific legality rule for a move of `fig` from `f` to `t`
/// by the side `c`, against board occupancy `s`.
pub open spec fn move_ok(s: Seq<Field>, fig: Figure, f: Position, t: Position, c: Color) -> bool {
    match fig {
        Figure::Pawn => pawn_ok(s, f, t, c),
        Figure::Bishop => bishop_ok(s, f, t, c),
        Figure::Knight => knight_ok(s, f, t, c),
        Figure::Rook => rook_ok(s, f, t, c),
        Figure::King => king_ok(s, f, t, c),
        Figure::Queen => queen_ok(s, f, t, c),
    }
}

/// The board model after relocating the occupant of `f` to `t` and
/// emptying `f`.
pub open spec fn board_moved(s: Seq<Field>, f: Position, t: Position) -> Seq<Field> {
    s.update(pidx(f), empty_field(f)).update(pidx(t), fld_at(s, f))
}

/// The kind standing on the back rank's file `x` in the initial placement.
pub open spec fn back_rank(x: int) -> Figure {
    if x == 0 || x == 7 {
        Figure::Rook
    } else if x == 1 || x == 6 {
        Figure::Knight
    } else if x == 2 || x == 5 {
        Figure::Bishop
    } else if x == 4 {
        Figure::King
    } else {
        Figure::Queen
    }
}

/// The initial state of the square `(x, y)`: pawns on ranks 1 and 6,
/// majors and minors on ranks 0 and 7, everything else empty.
pub open spec fn init_field(x: int, y: int) -> Field {
    if y == 0 {
        Field { color: Color::White, figure: Some(back_rank(x)) }
    } else if y == 1 {
        Field { color: Color::White, figure: Some(Figure::Pawn) }
    } else if y == 6 {
        Field { color: Color::Black, figure: Some(Figure::Pawn) }
    } else if y == 7 {
        Field { color: Color::Black, figure: Some(back_rank(x)) }
    } else {
        Field { color: parity_color(x, y), figure: None }
    }
}

/// The 8x8 board, stored row by row.
#[derive(Debug)]
pub struct Board {
    pub fields: Vec<Field>,
}

impl Board {
    /// The mathematical model of this board.
    pub open spec fn model(self) -> Seq<Field> {
        self.fields@
    }

    /// The board is well-formed.
    pub open spec fn wf(self) -> bool {
        board_wf(self.fields@)
    }

    /// Construct a new board with the standard figure placement.
    pub fn new() -> (r: Board)
        ensures
            r.wf(),
            forall|x: int, y: int|
                0 <= x < 8 && 0 <= y < 8 ==> #[trigger] fld(r.model(), x, y) == init_field(x, y),
    {
        let mut fields: Vec<Field> = Vec::new();
        let mut y: u8 = 0;
        while y < 8
            invariant
                y <= 8,
                fields@.len() == 8 * y,
                forall|xx: int, yy: int|
                    0 <= xx < 8 && 0 <= yy < y ==> #[trigger] fld(fields@, xx, yy) == init_field(
                        xx,
                        yy,
                    ),
            decreases 8 - y,
        {
            let mut x: u8 = 0;
            while x < 8
                invariant
                    y < 8,
                    x <= 8,
                    fields@.len() == 8 * y + x,
                    forall|xx: int, yy: int|
                        0 <= xx < 8 && 0 <= yy < y ==> #[trigger] fld(fields@, xx, yy)
                            == init_field(xx, yy),
                    forall|xx: int|
                        0 <= xx < x ==> #[trigger] fld(fields@, xx, y as int) == init_field(
                            xx,
                            y as int,
                        ),
                decreases 8 - x,
            {
                let fval = Board::init_square(x, y);
                let ghost pre = fields@;
                fields.push(fval);
                proof {
                    assert forall|xx: int, yy: int|
                        0 <= xx < 8 && 0 <= yy < y implies #[trigger] fld(fields@, xx, yy)
                        == init_field(xx, yy) by {
                        assert(fld(pre, xx, yy) == init_field(xx, yy));
                        assert(fields@[yy * 8 + xx] == pre[yy * 8 + xx]);
                    }
                    assert forall|xx: int|
                        0 <= xx < x + 1 implies #[trigger] fld(fields@, xx, y as int)
                        == init_field(xx, y as int) by {
                        if xx < x {
                            assert(fld(pre, xx, y as int) == init_field(xx, y as int));
                            assert(fields@[y * 8 + xx] == pre[y * 8 + xx]);
                        } else {
                            assert(fields@[y * 8 + xx] == fval);
                        }
                    }
                }
                x = x + 1;
            }
            y = y + 1;
        }
        Board { fields }
    }

    /// The initial occupant of the square `(x, y)`.
    fn init_square(x: u8, y: u8) -> (r: Field)
        requires
            x < 8,
            y < 8,
        ensures
            r == init_field(x as int, y as int),
    {
        if y == 0 || y == 7 {
            let c = if y == 0 {
                Color::White
            } else {
                Color::Black
            };
            let f = if x == 0 || x == 7 {
                Figure::Rook
            } else if x == 1 || x == 6 {
                Figure::Knight
            } else if x == 2 || x == 5 {
                Figure::Bishop
            } else if x == 4 {
                Figure::King
            } else {
                Figure::Queen
            };
            Field { color: c, figure: Some(f) }
        } else if y == 1 {
            Field { color: Color::White, figure: Some(Figure::Pawn) }
        } else if y == 6 {
            Field { color: Color::Black, figure: Some(Figure::Pawn) }
        } else {
            Field { color: Field::get_field_color(Position { x, y }), figure: None }
        }
    }

    /// A structural copy of this board.
    #[verifier::loop_isolation(false)]
    pub fn duplicate(&self) -> (r: Board)
        ensures
            r.model() == self.model(),
    {
        let mut fields: Vec<Field> = Vec::new();
        let n = self.fields.len();
        let mut i: usize = 0;
        while i < n
            invariant
                i <= n,
                n == self.fields@.len(),
                fields@ == self.fields@.subrange(0, i as int),
            decreases n - i,
        {
            fields.push(self.fields[i]);
            proof {
                assert(fields@ =~= self.fields@.subrange(0, i + 1));
            }
            i = i + 1;
        }
        proof {
            assert(fields@ =~= self.fields@);
        }
        Board { fields }
    }

    /// Read the field at position `pos`.
    pub fn field_at(&self, pos: Position) -> (r: Field)
        requires
            self.model().len() == 64,
            pos.wf(),
        ensures
            r == fld_at(self.model(), pos),
    {
        self.fields[(pos.y as usize) * 8 + (pos.x as usize)]
    }

    /// The figure at position `pos`, if any.
    pub fn get_figure(&self, pos: Position) -> (r: Option<Figure>)
        requires
            self.model().len() == 64,
            pos.wf(),
        ensures
            r == fld_at(self.model(), pos).figure,
    {
        self.field_at(pos).get_figure()
    }

    /// The color of the figure at position `pos`, or `None` for an
    /// empty square.
    pub fn get_figure_color(&self, pos: Position) -> (r: Option<Color>)
        requires
            self.model().len() == 64,
            pos.wf(),
        ensures
            r == (if fld_at(self.model(), pos).figure is None {
                Option::<Color>::None
            } else {
                Option::Some(fld_at(self.model(), pos).color)
            }),
    {
        if self.is_empty(pos) {
            None
        } else {
            Some(self.field_at(pos).color)
        }
    }

    /// Whether the square at `pos` is empty.
    pub fn is_empty(&self, pos: Position) -> (r: bool)
        requires
            self.model().len() == 64,
            pos.wf(),
        ensures
            r == (fld_at(self.model(), pos).figure is None),
    {
        self.field_at(pos).is_empty()
    }

    /// Whether moving from `from` to `to` would capture: `to` holds a
    /// figure whose field color differs from the field color at `from`.
    pub fn is_capture_move(&self, from: Position, to: Position) -> (r: bool)
        requires
            self.model().len() == 64,
            from.wf(),
            to.wf(),
        ensures
            r == (fld_at(self.model(), to).figure is Some && fld_at(self.model(), to).color
                != fld_at(self.model(), from).color),
    {
        !self.field_at(to).is_empty() && self.field_at(to).color != self.field_at(from).color
    }

    /// Force-set the field at `pos` to hold `fig` in color `col`.
    pub fn set_figure(&mut self, pos: Position, fig: Figure, col: Color)
        requires
            old(self).wf(),
            pos.wf(),
        ensures
            final(self).wf(),
            final(self).model() == old(self).model().update(
                pidx(pos),
                Field { color: col, figure: Some(fig) },
            ),
    {
        self.fields.set(
            (pos.y as usize) * 8 + (pos.x as usize),
            Field { color: col, figure: Some(fig) },
        );
        proof {
            assert forall|x: int, y: int|
                0 <= x < 8 && 0 <= y < 8 && (#[trigger] fld(self.fields@, x, y)).figure
                    is None implies fld(self.fields@, x, y).color == parity_color(x, y) by {
                assert(fld(old(self).fields@, x, y) == old(self).fields@[y * 8 + x]);
            }
        }
    }

    /// Relocate the occupant of `before` to `after` and empty `before`.
    pub fn move_figure(&mut self, before: Position, after: Position)
        requires
            old(self).wf(),
            before.wf(),
            after.wf(),
            fld_at(old(self).model(), before).figure is Some,
        ensures
            final(self).wf(),
            final(self).model() == board_moved(old(self).model(), before, after),
    {
        let i_b = (before.y as usize) * 8 + (before.x as usize);
        let i_a = (after.y as usize) * 8 + (after.x as usize);
        let tmp = self.fields[i_b];
        self.fields.set(i_b, Field { color: Field::get_field_color(before), figure: None });
        self.fields.set(i_a, Field { color: tmp.color, figure: tmp.figure });
        proof {
            assert(Field { color: tmp.color, figure: tmp.figure } == tmp);
            assert(final(self).model() =~= board_moved(old(self).model(), before, after));
            assert forall|x: int, y: int|
                0 <= x < 8 && 0 <= y < 8 && (#[trigger] fld(self.fields@, x, y)).figure
                    is None implies fld(self.fields@, x, y).color == parity_color(x, y) by {
                assert(fld(old(self).fields@, x, y) == old(self).fields@[y * 8 + x]);
            }
        }
    }
}

} // verus!
