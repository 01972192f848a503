//! The snapshot board: an 8 x 8 grid of (kind, colour) pieces with a
//! selection and an orientation, filled in the standard starting layout.

use vstd::prelude::*;

use crate::game::piece::{BoardOrientation, Piece, PieceColor, PieceKind};
use crate::utils::Array2D;

verus! {

/// The number of files.
pub const BOARD_WIDTH: usize = 8;

/// The number of ranks.
pub const BOARD_HEIGHT: usize = 8;

/// The piece the starting layout puts in cell `(x, y)`: White's pieces on
/// rows 6 and 7, Black's on rows 0 and 1, with the standard back row.
pub open spec fn start_cell(x: int, y: int) -> Option<Piece> {
    let kind = if x == 0 || x == 7 {
        PieceKind::Rook
    } else if x == 1 || x == 6 {
        PieceKind::Knight
    } else if x == 2 || x == 5 {
        PieceKind::Bishop
    } else if x == 3 {
        PieceKind::Qween
    } else {
        PieceKind::King
    };
    if y == 1 {
        Option::Some(crate::game::piece::piece_of(PieceKind::Pawn, PieceColor::Black))
    } else if y == 6 {
        Option::Some(crate::game::piece::piece_of(PieceKind::Pawn, PieceColor::White))
    } else if y == 0 {
        Option::Some(crate::game::piece::piece_of(kind, PieceColor::Black))
    } else if y == 7 {
        Option::Some(crate::game::piece::piece_of(kind, PieceColor::White))
    } else {
        Option::None
    }
}

/// The snapshot board.
pub struct Board {
    pieces: Array2D<Piece, BOARD_WIDTH, BOARD_HEIGHT>,
    orientation: BoardOrientation,
    selection: Option<[usize; 2]>,
}

impl Board {
    /// The grid is well formed.
    pub closed spec fn wf(&self) -> bool {
        self.pieces.wf()
    }

    /// The piece in cell `(x, y)`, if any.
    pub closed spec fn spec_piece(&self, x: int, y: int) -> Option<Piece> {
        self.pieces.spec_get(x, y)
    }

    /// The selected cell, if any.
    pub closed spec fn spec_selection(&self) -> Option<[usize; 2]> {
        self.selection
    }

    /// The colour the board is viewed from.
    pub closed spec fn spec_orientation(&self) -> BoardOrientation {
        self.orientation
    }

    /// A board in the standard starting layout, nothing selected.
    pub fn new(orientation: BoardOrientation) -> (r: Self)
        ensures
            r.wf(),
            r.spec_orientation() == orientation,
            r.spec_selection() is None,
            forall|x: int, y: int|
                0 <= x < 8 && 0 <= y < 8 ==> #[trigger] r.spec_piece(x, y) == start_cell(x, y),
    {
        let mut board = Self { pieces: Array2D::new(), orientation, selection: Option::None };
        board.fill_pieces();
        board
    }

    /// Place the standard starting layout.
    fn fill_pieces(&mut self)
        requires
            old(self).wf(),
        ensures
            final(self).wf(),
            final(self).spec_orientation() == old(self).spec_orientation(),
            final(self).spec_selection() == old(self).spec_selection(),
            forall|x: int, y: int|
                0 <= x < 8 && 0 <= y < 8 ==> #[trigger] final(self).spec_piece(x, y) == (
                if start_cell(x, y) is Some {
                    start_cell(x, y)
                } else {
                    old(self).spec_piece(x, y)
                }),
    {
        let mut x: usize = 0;
        while x < BOARD_WIDTH
            invariant
                self.wf(),
                self.orientation == old(self).orientation,
                self.selection == old(self).selection,
                x <= 8,
                forall|a: int, b: int|
                    0 <= a < 8 && 0 <= b < 8 && !(a < x && b == 6) ==> #[trigger] self.spec_piece(
                        a,
                        b,
                    ) == old(self).spec_piece(a, b),
                forall|a: int|
                    0 <= a < x ==> #[trigger] self.spec_piece(a, 6) == Option::Some(
                        crate::game::piece::piece_of(PieceKind::Pawn, PieceColor::White),
                    ),
            decreases 8 - x,
        {
            self.add(PieceKind::Pawn, [x, 6], PieceColor::White);
            x = x + 1;
        }
        let mut x: usize = 0;
        while x < BOARD_WIDTH
            invariant
                self.wf(),
                self.orientation == old(self).orientation,
                self.selection == old(self).selection,
                x <= 8,
                forall|a: int, b: int|
                    0 <= a < 8 && 0 <= b < 8 && !(a < x && b == 1) && b != 6
                        ==> #[trigger] self.spec_piece(a, b) == old(self).spec_piece(a, b),
                forall|a: int|
                    0 <= a < 8 ==> #[trigger] self.spec_piece(a, 6) == Option::Some(
                        crate::game::piece::piece_of(PieceKind::Pawn, PieceColor::White),
                    ),
                forall|a: int|
                    0 <= a < x ==> #[trigger] self.spec_piece(a, 1) == Option::Some(
                        crate::game::piece::piece_of(PieceKind::Pawn, PieceColor::Black),
                    ),
            decreases 8 - x,
        {
            self.add(PieceKind::Pawn, [x, 1], PieceColor::Black);
            x = x + 1;
        }
        self.add(PieceKind::Bishop, [2, 7], PieceColor::White);
        self.add(PieceKind::Bishop, [5, 7], PieceColor::White);
        self.add(PieceKind::Rook, [0, 7], PieceColor::White);
        self.add(PieceKind::Rook, [7, 7], PieceColor::White);
        self.add(PieceKind::Knight, [1, 7], PieceColor::White);
        self.add(PieceKind::Knight, [6, 7], PieceColor::White);
        self.add(PieceKind::King, [4, 7], PieceColor::White);
        self.add(PieceKind::Qween, [3, 7], PieceColor::White);
        self.add(PieceKind::Bishop, [2, 0], PieceColor::Black);
        self.add(PieceKind::Bishop, [5, 0], PieceColor::Black);
        self.add(PieceKind::Rook, [0, 0], PieceColor::Black);
        self.add(PieceKind::Rook, [7, 0], PieceColor::Black);
        self.add(PieceKind::Knight, [1, 0], PieceColor::Black);
        self.add(PieceKind::Knight, [6, 0], PieceColor::Black);
        self.add(PieceKind::King, [4, 0], PieceColor::Black);
        self.add(PieceKind::Qween, [3, 0], PieceColor::Black);
    }

    /// Put a new piece of kind `a` and colour `with` in cell `at`.
    pub fn add(&mut self, a: PieceKind, at: [usize; 2], with: PieceColor)
        requires
            old(self).wf(),
            at@[0] < 8,
            at@[1] < 8,
        ensures
            final(self).wf(),
            final(self).spec_orientation() == old(self).spec_orientation(),
            final(self).spec_selection() == old(self).spec_selection(),
            final(self).spec_piece(at@[0] as int, at@[1] as int) == Option::Some(
                crate::game::piece::piece_of(a, with),
            ),
            forall|x: int, y: int|
                0 <= x < 8 && 0 <= y < 8 && !(x == at@[0] && y == at@[1])
                    ==> #[trigger] final(self).spec_piece(x, y) == old(self).spec_piece(x, y),
    {
        let x = at[0];
        let y = at[1];
        self.pieces.set(x, y, Piece::new(a, with));
    }

    /// The selected cell, if any.
    pub fn selection(&self) -> (r: Option<[usize; 2]>)
        ensures
            r == self.spec_selection(),
    {
        self.selection
    }

    /// A copy of the piece grid.
    pub fn pieces(&self) -> (r: Array2D<Piece, BOARD_WIDTH, BOARD_HEIGHT>)
        requires
            self.wf(),
        ensures
            r.wf(),
            forall|x: int, y: int|
                0 <= x < 8 && 0 <= y < 8 ==> #[trigger] r.spec_get(x, y) == self.spec_piece(x, y),
    {
        let mut r: Array2D<Piece, BOARD_WIDTH, BOARD_HEIGHT> = Array2D::new();
        let mut x: usize = 0;
        while x < 8
            invariant
                self.wf(),
                r.wf(),
                x <= 8,
                forall|a: int, b: int|
                    0 <= a < 8 && 0 <= b < 8 && a < x ==> #[trigger] r.spec_get(a, b)
                        == self.spec_piece(a, b),
                forall|a: int, b: int|
                    0 <= a < 8 && 0 <= b < 8 && a >= x ==> #[trigger] r.spec_get(a, b) is None,
            decreases 8 - x,
        {
            let mut y: usize = 0;
            while y < 8
                invariant
                    self.wf(),
                    r.wf(),
                    x < 8,
                    y <= 8,
                    forall|a: int, b: int|
                        0 <= a < 8 && 0 <= b < 8 && a < x ==> #[trigger] r.spec_get(a, b)
                            == self.spec_piece(a, b),
                    forall|b: int|
                        0 <= b < y ==> #[trigger] r.spec_get(x as int, b) == self.spec_piece(
                            x as int,
                            b,
                        ),
                    forall|a: int, b: int|
                        0 <= a < 8 && 0 <= b < 8 && (a > x || (a == x && b >= y))
                            ==> #[trigger] r.spec_get(a, b) is None,
                decreases 8 - y,
            {
                if let Option::Some(p) = self.pieces.get(x, y) {
                    r.set(x, y, p);
                }
                y = y + 1;
            }
            x = x + 1;
        }
        r
    }

    /// Select cell `(x, y)` when it holds a piece; keep the selection
    /// otherwise.
    pub fn select(&mut self, x: usize, y: usize)
        requires
            old(self).wf(),
            x < 8,
            y < 8,
        ensures
            final(self).wf(),
            final(self).spec_selection() == (if old(self).spec_piece(x as int, y as int) is Some {
                Option::Some([x, y])
            } else {
                old(self).spec_selection()
            }),
            final(self).spec_orientation() == old(self).spec_orientation(),
            forall|a: int, b: int|
                0 <= a < 8 && 0 <= b < 8 ==> #[trigger] final(self).spec_piece(a, b) == old(
                    self,
                ).spec_piece(a, b),
    {
        if self.pieces.has(x, y) {
            self.selection = Option::Some([x, y]);
        }
    }

    /// The colour the board is viewed from.
    pub fn orientation(&self) -> (r: BoardOrientation)
        ensures
            r == self.spec_orientation(),
    {
        self.orientation
    }
}

} // verus!
