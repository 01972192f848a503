//! Pieces as explicit (kind, colour) pairs, and their movement offsets.

use vstd::prelude::*;

verus! {

/// A piece's colour.
#[derive(Clone, Copy, Debug, PartialEq, Eq, Structural)]
pub enum PieceColor {
    White,
    Black,
}

impl PieceColor {
    /// The lower-case English name of the colour.
    pub fn id(&self) -> (r: &'static str)
        ensures
            *self == PieceColor::White ==> r@ == "white"@,
            *self == PieceColor::Black ==> r@ == "black"@,
    {
        match &self {
            PieceColor::White => "white",
            PieceColor::Black => "black",
        }
    }
}

/// A piece: a kind and a colour.
#[derive(Clone, Copy, Debug, PartialEq, Eq, Structural)]
pub struct Piece {
    pub color: PieceColor,
    pub kind: PieceKind,
}

/// The piece of the given kind and colour.
pub open spec fn piece_of(kind: PieceKind, color: PieceColor) -> Piece {
    Piece { kind, color }
}

/// A piece's kind.
#[derive(Clone, Copy, Debug, PartialEq, Eq, Structural)]
pub enum PieceKind {
    Pawn,
    Knight,
    Bishop,
    Rook,
    Qween,
    King,
}

/// Seven steps along direction `(dx, dy)`, nearest first.
pub open spec fn ray_offsets(dx: int, dy: int) -> Seq<(int, int)> {
    Seq::new(7, |i: int| ((i + 1) * dx, (i + 1) * dy))
}

/// The raw movement offsets of each kind, before orientation: the pawn's
/// single and double advance, the knight's eight jumps, and seven steps
/// along each of the kind's directions.
pub open spec fn kind_offsets(k: PieceKind) -> Seq<(int, int)> {
    match k {
        PieceKind::Pawn => seq![(0int, 1int), (0int, 2int)],
        PieceKind::Knight => seq![
            (1int, 2int),
            (-1int, 2int),
            (1int, -2int),
            (-1int, -2int),
            (2int, 1int),
            (-2int, 1int),
            (2int, -1int),
            (-2int, -1int),
        ],
        PieceKind::Bishop => ray_offsets(-1, -1) + ray_offsets(-1, 1) + ray_offsets(1, -1)
            + ray_offsets(1, 1),
        PieceKind::Rook => ray_offsets(-1, 0) + ray_offsets(0, -1) + ray_offsets(0, 1)
            + ray_offsets(1, 0),
        PieceKind::Qween => ray_offsets(-1, -1) + ray_offsets(-1, 0) + ray_offsets(-1, 1)
            + ray_offsets(0, -1) + ray_offsets(0, 1) + ray_offsets(1, -1) + ray_offsets(1, 0)
            + ray_offsets(1, 1),
        PieceKind::King => seq![
            (-1int, -1int),
            (-1int, 0int),
            (-1int, 1int),
            (0int, -1int),
            (0int, 1int),
            (1int, -1int),
            (1int, 0int),
            (1int, 1int),
        ],
    }
}

/// Whether the offset pairs of `v` are, in order, exactly those of `s`.
pub open spec fn offsets_match(v: Seq<[isize; 2]>, s: Seq<(int, int)>) -> bool {
    v.len() == s.len() && forall|i: int|
        0 <= i < s.len() ==> #[trigger] v[i]@[0] as int == s[i].0 && v[i]@[1] as int == s[i].1
}

/// Every raw offset component stays within one board span.
pub proof fn lemma_offsets_bounded(k: PieceKind)
    ensures
        forall|i: int|
            0 <= i < kind_offsets(k).len() ==> -7 <= #[trigger] kind_offsets(k)[i].0 <= 7 && -7
                <= kind_offsets(k)[i].1 <= 7,
{
    assert forall|i: int|
        0 <= i < kind_offsets(k).len() implies -7 <= #[trigger] kind_offsets(k)[i].0 <= 7 && -7
        <= kind_offsets(k)[i].1 <= 7 by {
        assert forall|dx: int, dy: int, j: int|
            -1 <= dx <= 1 && -1 <= dy <= 1 && 0 <= j < 7 implies -7 <= #[trigger] ray_offsets(
            dx,
            dy,
        )[j].0 <= 7 && -7 <= ray_offsets(dx, dy)[j].1 <= 7 by {
            assert(-7 <= (j + 1) * dx <= 7 && -7 <= (j + 1) * dy <= 7) by (nonlinear_arith)
                requires
                    -1 <= dx <= 1,
                    -1 <= dy <= 1,
                    0 <= j < 7,
            ;
        }
    }
}

impl PieceKind {
    /// The lower-case English name of the kind.
    pub fn id(&self) -> (r: &'static str)
        ensures
            *self == PieceKind::Pawn ==> r@ == "pawn"@,
            *self == PieceKind::Knight ==> r@ == "knight"@,
            *self == PieceKind::Bishop ==> r@ == "bishop"@,
            *self == PieceKind::Rook ==> r@ == "rook"@,
            *self == PieceKind::Qween ==> r@ == "qween"@,
            *self == PieceKind::King ==> r@ == "king"@,
    {
        match self {
            Self::Pawn => "pawn",
            Self::Knight => "knight",
            Self::Bishop => "bishop",
            Self::Rook => "rook",
            Self::Qween => "qween",
            Self::King => "king",
        }
    }

    /// Append seven steps along `(dx, dy)`, nearest first.
    fn push_ray(moves: &mut Vec<[isize; 2]>, dx: isize, dy: isize)
        requires
            -1 <= dx <= 1,
            -1 <= dy <= 1,
        ensures
            final(moves)@.len() == old(moves)@.len() + 7,
            forall|j: int| 0 <= j < old(moves)@.len() ==> #[trigger] final(moves)@[j] == old(moves)@[j],
            forall|k: int|
                old(moves)@.len() <= k < old(moves)@.len() + 7 ==> #[trigger] final(moves)@[k]@[0] as int == (k - old(moves)@.len() + 1) * dx && final(moves)@[k]@[1] as int
                    == (k - old(moves)@.len() + 1) * dy,
    {
        let mut i: isize = 1;
        while i <= 7
            invariant
                -1 <= dx <= 1,
                -1 <= dy <= 1,
                1 <= i <= 8,
                moves@.len() == old(moves)@.len() + i - 1,
                forall|j: int| 0 <= j < old(moves)@.len() ==> #[trigger] moves@[j] == old(moves)@[j],
                forall|k: int|
                    old(moves)@.len() <= k < moves@.len() ==> #[trigger] moves@[k]@[0] as int == (k
                        - old(moves)@.len() + 1) * dx && moves@[k]@[1] as int == (k - old(moves)@.len() + 1) * dy,
            decreases 8 - i,
        {
            proof {
                assert(-8 <= i * dx <= 8 && -8 <= i * dy <= 8) by (nonlinear_arith)
                    requires
                        -1 <= dx <= 1,
                        -1 <= dy <= 1,
                        1 <= i <= 8,
                ;
            }
            moves.push([i * dx, i * dy]);
            i = i + 1;
        }
    }

    /// The raw movement offsets of this kind (see [`kind_offsets`]).
    #[verifier::rlimit(100)]
    fn moves(&self) -> (r: Vec<[isize; 2]>)
        ensures
            offsets_match(r@, kind_offsets(*self)),
    {
        let mut moves: Vec<[isize; 2]> = Vec::new();
        match self {
            PieceKind::Pawn => {
                moves.push([0, 1]);
                moves.push([0, 2]);
            },
            PieceKind::Knight => {
                moves.push([1, 2]);
                moves.push([-1, 2]);
                moves.push([1, -2]);
                moves.push([-1, -2]);
                moves.push([2, 1]);
                moves.push([-2, 1]);
                moves.push([2, -1]);
                moves.push([-2, -1]);
            },
            PieceKind::Bishop => {
                Self::push_ray(&mut moves, -1, -1);
                Self::push_ray(&mut moves, -1, 1);
                Self::push_ray(&mut moves, 1, -1);
                Self::push_ray(&mut moves, 1, 1);
            },
            PieceKind::Rook => {
                Self::push_ray(&mut moves, -1, 0);
                Self::push_ray(&mut moves, 0, -1);
                Self::push_ray(&mut moves, 0, 1);
                Self::push_ray(&mut moves, 1, 0);
            },
            PieceKind::Qween => {
                Self::push_ray(&mut moves, -1, -1);
                Self::push_ray(&mut moves, -1, 0);
                Self::push_ray(&mut moves, -1, 1);
                Self::push_ray(&mut moves, 0, -1);
                Self::push_ray(&mut moves, 0, 1);
                Self::push_ray(&mut moves, 1, -1);
                Self::push_ray(&mut moves, 1, 0);
                Self::push_ray(&mut moves, 1, 1);
            },
            PieceKind::King => {
                moves.push([-1, -1]);
                moves.push([-1, 0]);
                moves.push([-1, 1]);
                moves.push([0, -1]);
                moves.push([0, 1]);
                moves.push([1, -1]);
                moves.push([1, 0]);
                moves.push([1, 1]);
            },
        }
        proof {
            let ko = kind_offsets(*self);
            assert forall|i: int|
                0 <= i < ko.len() implies #[trigger] moves@[i]@[0] as int == ko[i].0
                    && moves@[i]@[1] as int == ko[i].1 by {
                match *self {
                    PieceKind::Bishop => {
                        assert(ko == ray_offsets(-1, -1) + ray_offsets(-1, 1) + ray_offsets(1, -1)
                            + ray_offsets(1, 1));
                    },
                    PieceKind::Rook => {
                        assert(ko == ray_offsets(-1, 0) + ray_offsets(0, -1) + ray_offsets(0, 1)
                            + ray_offsets(1, 0));
                    },
                    PieceKind::Qween => {
                        assert(ko == ray_offsets(-1, -1) + ray_offsets(-1, 0) + ray_offsets(-1, 1)
                            + ray_offsets(0, -1) + ray_offsets(0, 1) + ray_offsets(1, -1)
                            + ray_offsets(1, 0) + ray_offsets(1, 1));
                    },
                    _ => {
                    },
                }
            }
            assert(offsets_match(moves@, kind_offsets(*self)));
        }
        moves
    }
}

impl Piece {
    /// A piece of the given kind and colour.
    pub fn new(kind: PieceKind, color: PieceColor) -> (r: Self)
        ensures
            r.color == color,
            r.kind == kind,
    {
        Self { kind, color }
    }

    /// The piece's colour.
    pub fn color(&self) -> (r: PieceColor)
        ensures
            r == self.color,
    {
        self.color
    }

    /// The piece's kind.
    pub fn kind(&self) -> (r: PieceKind)
        ensures
            r == self.kind,
    {
        self.kind
    }

    /// The movement offsets of this piece applied at `(x, y)`: raw
    /// offsets advance away from the viewer when the board is oriented
    /// for this piece's colour and toward the viewer otherwise.
    pub fn moves(&self, orientation: BoardOrientation, x: usize, y: usize) -> (r: Vec<
        [isize; 2],
    >)
        requires
            x < 8,
            y < 8,
        ensures
            r@.len() == kind_offsets(self.kind).len(),
            forall|i: int|
                0 <= i < r@.len() ==> (#[trigger] r@[i])@[0] as int == x + kind_offsets(
                    self.kind,
                )[i].0 && r@[i]@[1] as int == (if orientation == self.color {
                    y - kind_offsets(self.kind)[i].1
                } else {
                    y + kind_offsets(self.kind)[i].1
                }),
    {
        let xi = x as isize;
        let yi = y as isize;
        let offs = self.kind().moves();
        proof {
            lemma_offsets_bounded(self.kind);
        }
        let mut r: Vec<[isize; 2]> = Vec::new();
        let flip = orientation == self.color();
        let n = offs.len();
        let mut i: usize = 0;
        while i < n
            invariant
                0 <= xi < 8,
                0 <= yi < 8,
                xi == x as int,
                yi == y as int,
                n == offs@.len(),
                offsets_match(offs@, kind_offsets(self.kind)),
                forall|j: int|
                    0 <= j < n ==> -7 <= #[trigger] kind_offsets(self.kind)[j].0 <= 7 && -7
                        <= kind_offsets(self.kind)[j].1 <= 7,
                flip == (orientation == self.color),
                i <= n,
                r@.len() == i,
                forall|j: int|
                    0 <= j < i ==> (#[trigger] r@[j])@[0] as int == x + kind_offsets(
                        self.kind,
                    )[j].0 && r@[j]@[1] as int == (if orientation == self.color {
                        y - kind_offsets(self.kind)[j].1
                    } else {
                        y + kind_offsets(self.kind)[j].1
                    }),
            decreases n - i,
        {
            let m = offs[i];
            let dx = m[0];
            let dy = m[1];
            proof {
                assert(dx as int == kind_offsets(self.kind)[i as int].0);
                assert(dy as int == kind_offsets(self.kind)[i as int].1);
                assert(-7 <= dx as int <= 7 && -7 <= dy as int <= 7);
            }
            if flip {
                r.push([xi + dx, yi - dy]);
                proof {
                    assert(r@[i as int]@[0] == xi + dx && r@[i as int]@[1] == yi - dy);
                }
            } else {
                r.push([xi + dx, yi + dy]);
                proof {
                    assert(r@[i as int]@[0] == xi + dx && r@[i as int]@[1] == yi + dy);
                }
            }
            i = i + 1;
        }
        proof {
            assert forall|ii: int|
                0 <= ii < r@.len() implies #[trigger] r@[ii]@[0] as int == x + kind_offsets(
                self.kind,
            )[ii].0 && r@[ii]@[1] as int == (if orientation == self.color {
                y - kind_offsets(self.kind)[ii].1
            } else {
                y + kind_offsets(self.kind)[ii].1
            }) by {
                assert(r@[ii]@[0] as int == x + kind_offsets(self.kind)[ii].0 && r@[ii]@[1] as int
                    == (if orientation == self.color {
                    y - kind_offsets(self.kind)[ii].1
                } else {
                    y + kind_offsets(self.kind)[ii].1
                }));
            }
        }
        r
    }
}

/// The colour the board is viewed from.
pub type BoardOrientation = PieceColor;

} // verus!
