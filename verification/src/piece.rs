//! The piece value: a colour, a kind, both, or neither.
//!
//! A square holds either the empty value or a piece with exactly one kind and
//! one colour.  Bare kind values and bare colour values exist as well: `split`
//! takes a full piece apart into them and `combine` puts them back together,
//! and the two round-trip for every valid kind/colour pair
//! (`lemma_split_combine_roundtrip`).  Combining two incompatible values
//! (two kinds, two colours) is rejected and yields the empty value.

use vstd::prelude::*;

verus! {

/// A chess piece value.  `Empty` is the empty square; `Pawn` through `King`
/// are bare kinds; `White` and `Black` are bare colours; the remaining
/// variants carry one kind and one colour each.  The two knight variants
/// only disambiguate the two starting squares; they are rule-identical.
#[derive(Clone, Copy, Debug, PartialEq, Eq, Structural)]
pub enum Piece {
    Empty,
    Pawn,
    LeftKnight,
    RightKnight,
    Bishop,
    Rook,
    Queen,
    King,
    White,
    Black,
    WhitePawn,
    WhiteLeftKnight,
    WhiteRightKnight,
    WhiteBishop,
    WhiteRook,
    WhiteQueen,
    WhiteKing,
    BlackPawn,
    BlackLeftKnight,
    BlackRightKnight,
    BlackBishop,
    BlackRook,
    BlackQueen,
    BlackKing,
}

/// The colour component of a piece value: `White`, `Black`, or `Empty` for a
/// colourless value.
pub open spec fn color_of(p: Piece) -> Piece {
    match p {
        Piece::White
        | Piece::WhitePawn
        | Piece::WhiteLeftKnight
        | Piece::WhiteRightKnight
        | Piece::WhiteBishop
        | Piece::WhiteRook
        | Piece::WhiteQueen
        | Piece::WhiteKing => Piece::White,
        Piece::Black
        | Piece::BlackPawn
        | Piece::BlackLeftKnight
        | Piece::BlackRightKnight
        | Piece::BlackBishop
        | Piece::BlackRook
        | Piece::BlackQueen
        | Piece::BlackKing => Piece::Black,
        _ => Piece::Empty,
    }
}

/// The kind component of a piece value: a bare kind, or `Empty` for a
/// kindless value.
pub open spec fn kind_of(p: Piece) -> Piece {
    match p {
        Piece::Pawn | Piece::WhitePawn | Piece::BlackPawn => Piece::Pawn,
        Piece::LeftKnight | Piece::WhiteLeftKnight | Piece::BlackLeftKnight => Piece::LeftKnight,
        Piece::RightKnight | Piece::WhiteRightKnight | Piece::BlackRightKnight => Piece::RightKnight,
        Piece::Bishop | Piece::WhiteBishop | Piece::BlackBishop => Piece::Bishop,
        Piece::Rook | Piece::WhiteRook | Piece::BlackRook => Piece::Rook,
        Piece::Queen | Piece::WhiteQueen | Piece::BlackQueen => Piece::Queen,
        Piece::King | Piece::WhiteKing | Piece::BlackKing => Piece::King,
        _ => Piece::Empty,
    }
}

/// The opposite colour of a piece's colour, or `Empty` for a colourless value.
pub open spec fn enemy_of(p: Piece) -> Piece {
    if color_of(p) == Piece::White {
        Piece::Black
    } else if color_of(p) == Piece::Black {
        Piece::White
    } else {
        Piece::Empty
    }
}

/// Merging a bare kind with a bare colour.  Any other combination of
/// arguments is incompatible and yields the empty value.
pub open spec fn combine_of(kind: Piece, color: Piece) -> Piece {
    match (kind, color) {
        (Piece::Pawn, Piece::White) => Piece::WhitePawn,
        (Piece::LeftKnight, Piece::White) => Piece::WhiteLeftKnight,
        (Piece::RightKnight, Piece::White) => Piece::WhiteRightKnight,
        (Piece::Bishop, Piece::White) => Piece::WhiteBishop,
        (Piece::Rook, Piece::White) => Piece::WhiteRook,
        (Piece::Queen, Piece::White) => Piece::WhiteQueen,
        (Piece::King, Piece::White) => Piece::WhiteKing,
        (Piece::Pawn, Piece::Black) => Piece::BlackPawn,
        (Piece::LeftKnight, Piece::Black) => Piece::BlackLeftKnight,
        (Piece::RightKnight, Piece::Black) => Piece::BlackRightKnight,
        (Piece::Bishop, Piece::Black) => Piece::BlackBishop,
        (Piece::Rook, Piece::Black) => Piece::BlackRook,
        (Piece::Queen, Piece::Black) => Piece::BlackQueen,
        (Piece::King, Piece::Black) => Piece::BlackKing,
        (k, Piece::Empty) => if color_of(k) == Piece::Empty { k } else { Piece::Empty },
        (Piece::Empty, c) => if kind_of(c) == Piece::Empty { c } else { Piece::Empty },
        _ => Piece::Empty,
    }
}

/// A full piece: exactly one kind and one colour.
pub open spec fn is_full_piece(p: Piece) -> bool {
    kind_of(p) != Piece::Empty && color_of(p) != Piece::Empty
}

/// A bare kind value usable as a promotion choice.
pub open spec fn is_bare_kind(p: Piece) -> bool {
    kind_of(p) != Piece::Empty && color_of(p) == Piece::Empty
}

/// A numeric identity for each piece value, used to index the board's
/// piece-location table: kinds count 1..=7, white adds 8, black adds 16.
pub open spec fn code_of(p: Piece) -> int {
    let k: int = match kind_of(p) {
        Piece::Pawn => 1,
        Piece::LeftKnight => 2,
        Piece::RightKnight => 3,
        Piece::Bishop => 4,
        Piece::Rook => 5,
        Piece::Queen => 6,
        Piece::King => 7,
        _ => 0,
    };
    let c: int = match color_of(p) {
        Piece::White => 8,
        Piece::Black => 16,
        _ => 0,
    };
    k + c
}

impl Piece {
    /// Whether this is the empty value.
    pub fn is_none(&self) -> (r: bool)
        ensures
            r == (*self == Piece::Empty),
    {
        *self == Piece::Empty
    }

    /// Whether this value carries the white colour.
    pub fn is_white(&self) -> (r: bool)
        ensures
            r == (color_of(*self) == Piece::White),
    {
        self.color() == Piece::White
    }

    /// Whether this value carries the black colour.
    pub fn is_black(&self) -> (r: bool)
        ensures
            r == (color_of(*self) == Piece::Black),
    {
        self.color() == Piece::Black
    }

    /// The opposite colour, or the empty value for a colourless piece.
    pub fn ennemy(&self) -> (r: Piece)
        ensures
            r == enemy_of(*self),
    {
        if self.is_white() {
            Piece::Black
        } else if self.is_black() {
            Piece::White
        } else {
            Piece::Empty
        }
    }

    /// The (kind, colour) pair of this value.
    pub fn split(&self) -> (r: (Piece, Piece))
        ensures
            r.0 == kind_of(*self),
            r.1 == color_of(*self),
    {
        (self.kind(), self.color())
    }

    /// The colour component alone.
    pub fn color(&self) -> (r: Piece)
        ensures
            r == color_of(*self),
    {
        match *self {
            Piece::White
            | Piece::WhitePawn
            | Piece::WhiteLeftKnight
            | Piece::WhiteRightKnight
            | Piece::WhiteBishop
            | Piece::WhiteRook
            | Piece::WhiteQueen
            | Piece::WhiteKing => Piece::White,
            Piece::Black
            | Piece::BlackPawn
            | Piece::BlackLeftKnight
            | Piece::BlackRightKnight
            | Piece::BlackBishop
            | Piece::BlackRook
            | Piece::BlackQueen
            | Piece::BlackKing => Piece::Black,
            _ => Piece::Empty,
        }
    }

    /// The kind component alone.
    pub fn kind(&self) -> (r: Piece)
        ensures
            r == kind_of(*self),
    {
        match *self {
            Piece::Pawn | Piece::WhitePawn | Piece::BlackPawn => Piece::Pawn,
            Piece::LeftKnight | Piece::WhiteLeftKnight | Piece::BlackLeftKnight => Piece::LeftKnight,
            Piece::RightKnight | Piece::WhiteRightKnight | Piece::BlackRightKnight => Piece::RightKnight,
            Piece::Bishop | Piece::WhiteBishop | Piece::BlackBishop => Piece::Bishop,
            Piece::Rook | Piece::WhiteRook | Piece::BlackRook => Piece::Rook,
            Piece::Queen | Piece::WhiteQueen | Piece::BlackQueen => Piece::Queen,
            Piece::King | Piece::WhiteKing | Piece::BlackKing => Piece::King,
            _ => Piece::Empty,
        }
    }

    /// Merge a bare kind and a bare colour into one piece; incompatible
    /// arguments yield the empty value.
    pub fn combine(&self, other: Piece) -> (r: Piece)
        ensures
            r == combine_of(*self, other),
    {
        match (*self, other) {
            (Piece::Pawn, Piece::White) => Piece::WhitePawn,
            (Piece::LeftKnight, Piece::White) => Piece::WhiteLeftKnight,
            (Piece::RightKnight, Piece::White) => Piece::WhiteRightKnight,
            (Piece::Bishop, Piece::White) => Piece::WhiteBishop,
            (Piece::Rook, Piece::White) => Piece::WhiteRook,
            (Piece::Queen, Piece::White) => Piece::WhiteQueen,
            (Piece::King, Piece::White) => Piece::WhiteKing,
            (Piece::Pawn, Piece::Black) => Piece::BlackPawn,
            (Piece::LeftKnight, Piece::Black) => Piece::BlackLeftKnight,
            (Piece::RightKnight, Piece::Black) => Piece::BlackRightKnight,
            (Piece::Bishop, Piece::Black) => Piece::BlackBishop,
            (Piece::Rook, Piece::Black) => Piece::BlackRook,
            (Piece::Queen, Piece::Black) => Piece::BlackQueen,
            (Piece::King, Piece::Black) => Piece::BlackKing,
            (k, Piece::Empty) => if k.color() == Piece::Empty { k } else { Piece::Empty },
            (Piece::Empty, c) => if c.kind() == Piece::Empty { c } else { Piece::Empty },
            _ => Piece::Empty,
        }
    }

    /// The numeric identity of this value (see [`code_of`]).
    pub fn code(&self) -> (r: usize)
        ensures
            r == code_of(*self),
            r < 24,
    {
        let k: usize = match self.kind() {
            Piece::Pawn => 1,
            Piece::LeftKnight => 2,
            Piece::RightKnight => 3,
            Piece::Bishop => 4,
            Piece::Rook => 5,
            Piece::Queen => 6,
            Piece::King => 7,
            _ => 0,
        };
        let c: usize = match self.color() {
            Piece::White => 8,
            Piece::Black => 16,
            _ => 0,
        };
        k + c
    }

    /// The lower-case English name of a bare kind.
    pub fn name(&self) -> (r: &'static str)
        requires
            is_bare_kind(*self),
        ensures
            r@ == name_of(*self),
    {
        match *self {
            Piece::Pawn => "pawn",
            Piece::LeftKnight => "left_knight",
            Piece::RightKnight => "right_knight",
            Piece::Bishop => "bishop",
            Piece::Rook => "rook",
            Piece::Queen => "queen",
            _ => "king",
        }
    }
}

/// The name `Piece::name` returns for each bare kind.
pub open spec fn name_of(p: Piece) -> Seq<char> {
    match p {
        Piece::Pawn => "pawn"@,
        Piece::LeftKnight => "left_knight"@,
        Piece::RightKnight => "right_knight"@,
        Piece::Bishop => "bishop"@,
        Piece::Rook => "rook"@,
        Piece::Queen => "queen"@,
        _ => "king"@,
    }
}

/// Splitting a combined piece returns exactly the kind and colour that were
/// combined, for every valid kind/colour pair.
pub proof fn lemma_split_combine_roundtrip(kind: Piece, color: Piece)
    requires
        is_bare_kind(kind),
        color == Piece::White || color == Piece::Black,
    ensures
        kind_of(combine_of(kind, color)) == kind,
        color_of(combine_of(kind, color)) == color,
{
}

/// A full piece has the code of its kind/colour pair and no other piece
/// value shares it: codes identify full pieces.
pub proof fn lemma_code_injective(p: Piece, q: Piece)
    requires
        is_full_piece(p),
        is_full_piece(q),
        code_of(p) == code_of(q),
    ensures
        p == q,
{
}

} // verus!
