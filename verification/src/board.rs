//! The board: the 64-square array, side-to-move, per-square "has moved"
//! tracking, the last-move record, a piece-location index, a legal-move
//! cache, the promotion-pending marker and the game-status tag.
//!
//! The abstract value of a board is a [`crate::model::BoardModel`]; every
//! mutating operation's contract states the exact model transition it
//! performs, and the representation invariant [`Board::wf`] ties the
//! location index and the cache to the square array at all times.

use vstd::prelude::*;

use crate::model::{
    cache_entry_ok, initial_piece, is_royal_home, legal_seq, on_board, sq_of, BoardModel,
};
use crate::piece::{code_of, is_full_piece, Piece};

verus! {

/// Who controls a colour.  The engine itself never reads this except to
/// report it; move selection lives outside the core.
#[derive(Clone, Copy, Debug, PartialEq, Eq, Structural)]
pub enum Opponent {
    Player,
    Computer,
}

/// The game-status tag.  `Playing` until a terminal state is detected;
/// `Checkmate`, `Stalemate` and `Dead` are terminal.
#[derive(Clone, Copy, Debug, PartialEq, Eq, Structural)]
pub enum Status {
    Playing,
    Stalemate,
    Checkmate,
    Dead,
}

/// The board.  Its abstract value is a [`BoardModel`]; the location index
/// and the legal-move cache are representation details governed by
/// [`Board::wf`].
pub struct Board {
    /// The 64 squares, row-major.
    pub(crate) pieces: Vec<Piece>,
    /// The `[from, to]` pair of the most recent move.
    pub(crate) last_move: [usize; 2],
    /// `moved[s]` once square `s` has been a move endpoint.
    pub(crate) moved: Vec<bool>,
    /// Per-origin cache of fully filtered legal destinations.
    pub(crate) cache: Vec<Option<Vec<usize>>>,
    /// The colour to move.
    pub(crate) current_turn: Piece,
    /// Who controls White.
    pub(crate) white_opponent: Opponent,
    /// Who controls Black.
    pub(crate) black_opponent: Opponent,
    /// The square awaiting a promotion choice, if any.
    pub(crate) square_in_promotion: Option<usize>,
    /// The game-status tag.
    pub(crate) status: Status,
    /// `locations[code]` lists the squares holding the piece of that code.
    pub(crate) locations: Vec<Vec<usize>>,
}

impl View for Board {
    type V = BoardModel;

    closed spec fn view(&self) -> BoardModel {
        self.model()
    }
}

impl Board {
    /// The abstract value of this board, field by field.
    pub open(crate) spec fn model(&self) -> BoardModel {
        BoardModel {
            squares: self.pieces@,
            turn: self.current_turn,
            moved: Set::new(|s: int| 0 <= s < 64 && self.moved@[s]),
            last_from: self.last_move@[0] as int,
            last_to: self.last_move@[1] as int,
            promo: match self.square_in_promotion {
                Option::Some(s) => Option::Some(s as int),
                Option::None => Option::None,
            },
            status: self.status,
            white_opponent: self.white_opponent,
            black_opponent: self.black_opponent,
        }
    }

    /// The view of a board is its abstract value.
    pub(crate) proof fn reveal_view(&self)
        ensures
            self@ == self.model(),
    {
    }

    /// The squares listed for piece code `c`.
    pub open(crate) spec fn locs(&self, c: int) -> Seq<usize> {
        self.locations@[c]@
    }

    /// The representation invariant (see [`Board::inv`] for its parts).
    /// Kept opaque so that callers carry it without re-examining it.
    pub closed spec fn wf(&self) -> bool {
        self.inv()
    }

    /// `wf` and `inv` are the same predicate.
    pub(crate) proof fn reveal_wf(&self)
        ensures
            self.wf() == self.inv(),
    {
    }

    /// A board that differs from an invariant-holding one only in its
    /// cache, with the new cache itself coherent, holds the invariant.
    pub(crate) proof fn lemma_inv_preserved(b1: &Board, b2: &Board)
        requires
            b1.inv(),
            b2.pieces == b1.pieces,
            b2.moved == b1.moved,
            b2.locations == b1.locations,
            b2.current_turn == b1.current_turn,
            b2.square_in_promotion == b1.square_in_promotion,
            b2.cache@.len() == 64,
            forall|s: int| 0 <= s < 64 ==> cache_entry_ok(b2@, #[trigger] b2.cache@[s], s),
        ensures
            b2.inv(),
    {
        assert forall|c: int, j: int|
            0 <= c < 24 && 0 <= j < b2.locs(c).len() implies #[trigger] b2.locs(c)[j] < 64
                && is_full_piece(b2.pieces@[b2.locs(c)[j] as int]) && code_of(
            b2.pieces@[b2.locs(c)[j] as int],
        ) == c by {
            assert(b1.locs(c) == b2.locs(c));
            assert(b1.locs(c)[j] < 64 && is_full_piece(b1.pieces@[b1.locs(c)[j] as int])
                && code_of(b1.pieces@[b1.locs(c)[j] as int]) == c);
        }
        assert forall|s: int|
            0 <= s < 64 && is_full_piece(#[trigger] b2.pieces@[s]) implies b2.locs(
            code_of(b2.pieces@[s]),
        ).contains(s as usize) by {
            assert(is_full_piece(b1.pieces@[s]));
            assert(b1.locs(code_of(b1.pieces@[s])).contains(s as usize));
        }
        assert forall|c: int, j1: int, j2: int|
            0 <= c < 24 && 0 <= j1 < j2 < b2.locs(c).len() implies #[trigger] b2.locs(c)[j1]
                != #[trigger] b2.locs(c)[j2] by {
            assert(b1.locs(c)[j1] != b1.locs(c)[j2]);
        }
        {
            let ws = choose|s: int| 0 <= s < 64 && b1.pieces@[s] == Piece::WhiteKing;
            assert(b2.pieces@[ws] == Piece::WhiteKing);
            let bs = choose|s: int| 0 <= s < 64 && b1.pieces@[s] == Piece::BlackKing;
            assert(b2.pieces@[bs] == Piece::BlackKing);
        }
        assert forall|s: int|
            0 <= s < 64 && is_royal_home(s) && !b2.moved@[s] implies #[trigger] b2.pieces@[s]
                == initial_piece(s) by {
            assert(b1.pieces@[s] == initial_piece(s));
        }
        assert forall|s: int|
            0 <= s < 64 && #[trigger] b2.pieces@[s] == Piece::WhiteKing && s != 60
                implies b2.moved@[s] by {
            assert(b1.pieces@[s] == Piece::WhiteKing);
        }
        assert forall|s: int|
            0 <= s < 64 && #[trigger] b2.pieces@[s] == Piece::BlackKing && s != 4
                implies b2.moved@[s] by {
            assert(b1.pieces@[s] == Piece::BlackKing);
        }
    }

    /// The representation invariant: shapes, value sanity, the agreement of
    /// the location index with the square array, king existence and
    /// uniqueness, the castling bookkeeping, and cache coherence.
    pub open(crate) spec fn inv(&self) -> bool {
        &&& self.pieces@.len() == 64
        &&& self.moved@.len() == 64
        &&& self.cache@.len() == 64
        &&& self.locations@.len() == 24
        &&& self.current_turn == Piece::White || self.current_turn == Piece::Black
        &&& forall|s: int|
            0 <= s < 64 ==> #[trigger] self.pieces@[s] == Piece::Empty || is_full_piece(
                self.pieces@[s],
            )
        &&& forall|c: int, j: int|
            0 <= c < 24 && 0 <= j < self.locs(c).len() ==> #[trigger] self.locs(c)[j] < 64
                && is_full_piece(self.pieces@[self.locs(c)[j] as int]) && code_of(
                self.pieces@[self.locs(c)[j] as int],
            ) == c
        &&& forall|s: int|
            0 <= s < 64 && is_full_piece(#[trigger] self.pieces@[s]) ==> self.locs(
                code_of(self.pieces@[s]),
            ).contains(s as usize)
        &&& forall|c: int, j1: int, j2: int|
            0 <= c < 24 && 0 <= j1 < j2 < self.locs(c).len() ==> #[trigger] self.locs(c)[j1]
                != #[trigger] self.locs(c)[j2]
        &&& exists|s: int| 0 <= s < 64 && self.pieces@[s] == Piece::WhiteKing
        &&& exists|s: int| 0 <= s < 64 && self.pieces@[s] == Piece::BlackKing
        &&& forall|s1: int, s2: int|
            0 <= s1 < 64 && 0 <= s2 < 64 && #[trigger] self.pieces@[s1] == Piece::WhiteKing
                && #[trigger] self.pieces@[s2] == Piece::WhiteKing ==> s1 == s2
        &&& forall|s1: int, s2: int|
            0 <= s1 < 64 && 0 <= s2 < 64 && #[trigger] self.pieces@[s1] == Piece::BlackKing
                && #[trigger] self.pieces@[s2] == Piece::BlackKing ==> s1 == s2
        &&& forall|s: int|
            0 <= s < 64 && is_royal_home(s) && !self.moved@[s] ==> #[trigger] self.pieces@[s]
                == initial_piece(s)
        &&& forall|s: int|
            0 <= s < 64 && #[trigger] self.pieces@[s] == Piece::WhiteKing && s != 60
                ==> self.moved@[s]
        &&& forall|s: int|
            0 <= s < 64 && #[trigger] self.pieces@[s] == Piece::BlackKing && s != 4
                ==> self.moved@[s]
        &&& forall|s: int| 0 <= s < 64 ==> cache_entry_ok(self@, #[trigger] self.cache@[s], s)
        &&& match self.square_in_promotion {
            Option::Some(s) => s < 64,
            Option::None => true,
        }
    }

    /// The piece on file `x`, rank `y`, or nothing when the coordinates lie
    /// off the board.
    pub fn get_piece_maybe(&self, x: isize, y: isize) -> (r: Option<Piece>)
        requires
            self.wf(),
        ensures
            r == if on_board(x as int, y as int) {
                Option::Some(self@.squares[sq_of(x as int, y as int)])
            } else {
                Option::<Piece>::None
            },
    {
        if x < 0 || y < 0 || x > 7 || y > 7 {
            return Option::None;
        }
        Option::Some(self.pieces[(y as usize) * 8 + (x as usize)])
    }

    /// The piece on file `x`, rank `y`.
    pub fn get_piece(&self, x: usize, y: usize) -> (r: Piece)
        requires
            self.wf(),
            x < 8,
            y < 8,
        ensures
            r == self@.squares[sq_of(x as int, y as int)],
    {
        self.pieces[y * 8 + x]
    }

    /// The `[from, to]` pair of the most recent move; `[from, from]` before
    /// any move has been played.
    pub fn get_last_move(&self) -> (r: [usize; 2])
        ensures
            r@[0] == self@.last_from,
            r@[1] == self@.last_to,
    {
        self.last_move
    }

    /// Whether file `x`, rank `y` was an endpoint of the most recent move;
    /// `false` while no move has been played.
    pub fn is_in_last_move(&self, x: usize, y: usize) -> (r: bool)
        requires
            x < 8,
            y < 8,
        ensures
            r == (self@.last_from != self@.last_to && (sq_of(x as int, y as int) == self@.last_from
                || sq_of(x as int, y as int) == self@.last_to)),
    {
        if self.last_move[0] == self.last_move[1] {
            return false;
        }
        let square_index = y * 8 + x;
        self.last_move[0] == square_index || self.last_move[1] == square_index
    }

    /// Whether a piece has ever departed from or arrived at file `x`,
    /// rank `y`.
    pub fn piece_has_moved(&self, x: usize, y: usize) -> (r: bool)
        requires
            self.wf(),
            x < 8,
            y < 8,
        ensures
            r == self@.moved.contains(sq_of(x as int, y as int)),
    {
        self.moved[y * 8 + x]
    }

    /// Who controls the colour to move.
    pub fn current_opponent(&self) -> (r: Opponent)
        requires
            self.wf(),
        ensures
            r == if self@.turn == Piece::White {
                self@.white_opponent
            } else {
                self@.black_opponent
            },
    {
        if self.current_turn.is_white() {
            self.white_opponent
        } else {
            self.black_opponent
        }
    }

    /// Whether file `x`, rank `y` currently awaits a promotion choice.
    pub fn is_in_promotion(&self, x: usize, y: usize) -> (r: bool)
        requires
            x < 8,
            y < 8,
        ensures
            r == (self@.promo == Option::Some(sq_of(x as int, y as int))),
    {
        match self.square_in_promotion {
            Option::Some(s) => s == y * 8 + x,
            Option::None => false,
        }
    }

    /// The current game-status tag.
    pub fn status(&self) -> (r: Status)
        ensures
            r == self@.status,
    {
        self.status
    }

    /// A copy of this board with an empty legal-move cache, used as the
    /// scratch board of a move simulation.
    pub(crate) fn snapshot(&self) -> (r: Board)
        requires
            self.wf(),
        ensures
            r.wf(),
            r@ == self@,
    {
        let mut pieces: Vec<Piece> = Vec::new();
        let mut i: usize = 0;
        while i < 64
            invariant
                self.wf(),
                i <= 64,
                pieces@.len() == i,
                forall|k: int| 0 <= k < i ==> #[trigger] pieces@[k] == self.pieces@[k],
            decreases 64 - i,
        {
            pieces.push(self.pieces[i]);
            i = i + 1;
        }
        let mut moved: Vec<bool> = Vec::new();
        let mut i: usize = 0;
        while i < 64
            invariant
                self.wf(),
                i <= 64,
                moved@.len() == i,
                forall|k: int| 0 <= k < i ==> #[trigger] moved@[k] == self.moved@[k],
            decreases 64 - i,
        {
            moved.push(self.moved[i]);
            i = i + 1;
        }
        let mut locations: Vec<Vec<usize>> = Vec::new();
        let mut c: usize = 0;
        while c < 24
            invariant
                self.wf(),
                c <= 24,
                locations@.len() == c,
                forall|k: int| 0 <= k < c ==> #[trigger] locations@[k]@ == self.locs(k),
            decreases 24 - c,
        {
            let mut list: Vec<usize> = Vec::new();
            let mut j: usize = 0;
            let n = self.locations[c].len();
            while j < n
                invariant
                    self.wf(),
                    c < 24,
                    n == self.locs(c as int).len(),
                    j <= n,
                    list@.len() == j,
                    forall|k: int| 0 <= k < j ==> #[trigger] list@[k] == self.locs(c as int)[k],
                decreases n - j,
            {
                list.push(self.locations[c][j]);
                j = j + 1;
            }
            proof {
                assert(list@ =~= self.locs(c as int));
            }
            locations.push(list);
            c = c + 1;
        }
        let mut cache: Vec<Option<Vec<usize>>> = Vec::new();
        let mut i: usize = 0;
        while i < 64
            invariant
                i <= 64,
                cache@.len() == i,
                forall|k: int| 0 <= k < i ==> #[trigger] cache@[k] is None,
            decreases 64 - i,
        {
            cache.push(Option::None);
            i = i + 1;
        }
        let r = Board {
            pieces,
            last_move: self.last_move,
            moved,
            cache,
            current_turn: self.current_turn,
            white_opponent: self.white_opponent,
            black_opponent: self.black_opponent,
            square_in_promotion: self.square_in_promotion,
            status: self.status,
            locations,
        };
        proof {
            assert(r.pieces@ =~= self.pieces@);
            assert(r.moved@ =~= self.moved@);
            assert(r@.moved =~= self@.moved);
            assert(r@ == self@);
        }
        r
    }
}

} // verus!
