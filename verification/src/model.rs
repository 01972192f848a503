//! The mathematical model of the engine.
//!
//! A board is abstracted as a [`BoardModel`]; every rule of the game is a
//! spec function over it: [`pseudo_seq`] gives a piece's movement-geometry
//! destinations in generation order, [`in_check`] says whether a colour's
//! king is attacked, [`legal_seq`] filters the geometry by king safety via
//! [`apply_move`], which is the exact board transition of a committed move,
//! and [`eval_status`] derives the status tag after a move.

use vstd::prelude::*;

use crate::board::{Opponent, Status};
use crate::piece::{color_of, combine_of, enemy_of, is_full_piece, kind_of, Piece};

verus! {

/// The abstract state of a board.
pub ghost struct BoardModel {
    /// The 64 squares, row-major: square `s` is file `s % 8`, rank `s / 8`.
    /// Rank 0 is Black's back rank, rank 7 is White's back rank.
    pub squares: Seq<Piece>,
    /// The colour to move: `Piece::White` or `Piece::Black`.
    pub turn: Piece,
    /// The squares a piece has ever departed from or arrived at.
    pub moved: Set<int>,
    /// Origin of the most recent move; equal to `last_to` before any move.
    pub last_from: int,
    /// Destination of the most recent move.
    pub last_to: int,
    /// The square awaiting a promotion choice, if any.
    pub promo: Option<int>,
    /// The game-status tag.
    pub status: Status,
    /// Who controls White.
    pub white_opponent: Opponent,
    /// Who controls Black.
    pub black_opponent: Opponent,
}

/// The square index of file `x`, rank `y`.
pub open spec fn sq_of(x: int, y: int) -> int {
    y * 8 + x
}

/// The file of square `s`.
pub open spec fn file_of(s: int) -> int {
    s % 8
}

/// The rank of square `s`.
pub open spec fn rank_of(s: int) -> int {
    s / 8
}

/// Whether file `x`, rank `y` lies on the board.
pub open spec fn on_board(x: int, y: int) -> bool {
    0 <= x < 8 && 0 <= y < 8
}

/// The single-step destination at file `x`, rank `y` for a piece of colour
/// `c`: the square itself if it is on the board and does not hold a piece
/// of that same colour, else nothing.
pub open spec fn step_seq(squares: Seq<Piece>, x: int, y: int, c: Piece) -> Seq<int> {
    if on_board(x, y) && color_of(squares[sq_of(x, y)]) != c {
        seq![sq_of(x, y)]
    } else {
        Seq::empty()
    }
}

/// Whether file `x`, rank `y` is an on-board vacant square: a ray or a
/// king's castling probe may continue through it.
pub open spec fn step_open(squares: Seq<Piece>, x: int, y: int) -> bool {
    on_board(x, y) && squares[sq_of(x, y)] == Piece::Empty
}

/// Termination measure for a ray walk: an upper bound on the steps left
/// before the walk leaves the board in the `dx` (or `dy`) direction.
pub open spec fn ray_fuel(x: int, dx: int) -> int {
    if dx > 0 {
        8 - x
    } else {
        x + 9
    }
}

/// The destinations of a ray cast from file `x`, rank `y` (exclusive) in
/// direction `(dx, dy)` for a piece of colour `c`, nearest first: vacant
/// squares are included and the ray continues; the first occupied square
/// ends the ray and is included exactly when it holds the other colour.
pub open spec fn ray_seq(squares: Seq<Piece>, x: int, y: int, dx: int, dy: int, c: Piece) -> Seq<
    int,
>
    decreases ray_fuel(x, dx) + ray_fuel(y, dy),
{
    if dx == 0 && dy == 0 {
        Seq::empty()
    } else {
        let nx = x + dx;
        let ny = y + dy;
        if !on_board(nx, ny) {
            Seq::empty()
        } else {
            let p = squares[sq_of(nx, ny)];
            let here: Seq<int> = if color_of(p) != c {
                seq![sq_of(nx, ny)]
            } else {
                Seq::empty()
            };
            if p == Piece::Empty {
                here + ray_seq(squares, nx, ny, dx, dy, c)
            } else {
                here
            }
        }
    }
}

/// The four orthogonal rays, in generation order.
pub open spec fn rook_rays(squares: Seq<Piece>, x: int, y: int, c: Piece) -> Seq<int> {
    ray_seq(squares, x, y, -1, 0, c) + ray_seq(squares, x, y, 1, 0, c) + ray_seq(
        squares,
        x,
        y,
        0,
        -1,
        c,
    ) + ray_seq(squares, x, y, 0, 1, c)
}

/// The four diagonal rays, in generation order.
pub open spec fn bishop_rays(squares: Seq<Piece>, x: int, y: int, c: Piece) -> Seq<int> {
    ray_seq(squares, x, y, -1, -1, c) + ray_seq(squares, x, y, 1, 1, c) + ray_seq(
        squares,
        x,
        y,
        1,
        -1,
        c,
    ) + ray_seq(squares, x, y, -1, 1, c)
}

/// The eight knight destinations, in generation order.
pub open spec fn knight_seq(squares: Seq<Piece>, x: int, y: int, c: Piece) -> Seq<int> {
    step_seq(squares, x + 2, y + 1, c) + step_seq(squares, x + 2, y - 1, c) + step_seq(
        squares,
        x - 2,
        y + 1,
        c,
    ) + step_seq(squares, x - 2, y - 1, c) + step_seq(squares, x + 1, y + 2, c) + step_seq(
        squares,
        x - 1,
        y + 2,
        c,
    ) + step_seq(squares, x + 1, y - 2, c) + step_seq(squares, x - 1, y - 2, c)
}

/// The king's destinations: the eight adjacent squares, then the king-side
/// castling probe, then the queen-side one.  Castling is offered only while
/// neither the king's square nor the corresponding rook's square has ever
/// been a move endpoint and the probe path is vacant; whether the transit
/// squares are attacked is not examined here.
pub open spec fn king_seq(m: BoardModel, p: Piece, x: int, y: int) -> Seq<int> {
    let c = color_of(p);
    let steps = step_seq(m.squares, x + 1, y + 1, c) + step_seq(m.squares, x + 1, y, c) + step_seq(
        m.squares,
        x + 1,
        y - 1,
        c,
    ) + step_seq(m.squares, x, y + 1, c) + step_seq(m.squares, x, y - 1, c) + step_seq(
        m.squares,
        x - 1,
        y + 1,
        c,
    ) + step_seq(m.squares, x - 1, y, c) + step_seq(m.squares, x - 1, y - 1, c);
    let castles: Seq<int> = if !m.moved.contains(sq_of(x, y)) {
        (if step_open(m.squares, x + 1, y) && !m.moved.contains(sq_of(7, y)) {
            step_seq(m.squares, x + 2, y, c)
        } else {
            Seq::empty()
        }) + (if step_open(m.squares, x - 1, y) && !m.moved.contains(sq_of(0, y))
            && m.squares[sq_of(1, y)] == Piece::Empty {
            step_seq(m.squares, x - 2, y, c)
        } else {
            Seq::empty()
        })
    } else {
        Seq::empty()
    };
    steps + castles
}

/// The rank direction a pawn of this colour advances in.
pub open spec fn pawn_dir(p: Piece) -> int {
    if color_of(p) == Piece::White {
        -1
    } else {
        1
    }
}

/// The home rank a pawn of this colour may double-advance from.
pub open spec fn pawn_home(p: Piece) -> int {
    if color_of(p) == Piece::White {
        6
    } else {
        1
    }
}

/// Whether the pawn `p` at file `x`, rank `y` may capture one file to
/// `side` (-1 or 1): the diagonal holds an enemy piece, or the adjacent
/// file holds an enemy pawn that has just advanced two squares as recorded
/// by the last move (en passant).
pub open spec fn pawn_capture_ok(m: BoardModel, p: Piece, x: int, y: int, side: int) -> bool {
    let dy = pawn_dir(p);
    let tx = x + side;
    color_of(m.squares[sq_of(tx, y + dy)]) == enemy_of(p) || (m.squares[sq_of(tx, y + dy)]
        == Piece::Empty && kind_of(m.squares[sq_of(tx, y)]) == Piece::Pawn && color_of(
        m.squares[sq_of(tx, y)],
    ) == enemy_of(p) && m.last_from == sq_of(tx, y + 2 * dy) && m.last_to == sq_of(tx, y))
}

/// The pawn's destinations: one square forward if vacant, the double
/// advance from the home rank if both squares are vacant, then the left and
/// the right diagonal capture (see [`pawn_capture_ok`]).
pub open spec fn pawn_seq(m: BoardModel, p: Piece, x: int, y: int) -> Seq<int> {
    let dy = pawn_dir(p);
    let fwd: Seq<int> = if on_board(x, y + dy) && m.squares[sq_of(x, y + dy)] == Piece::Empty {
        seq![sq_of(x, y + dy)] + (if y == pawn_home(p) && m.squares[sq_of(x, y + 2 * dy)]
            == Piece::Empty {
            seq![sq_of(x, y + 2 * dy)]
        } else {
            Seq::empty()
        })
    } else {
        Seq::empty()
    };
    let left: Seq<int> = if x > 0 && on_board(x - 1, y + dy) && pawn_capture_ok(m, p, x, y, -1) {
        seq![sq_of(x - 1, y + dy)]
    } else {
        Seq::empty()
    };
    let right: Seq<int> = if x < 7 && on_board(x + 1, y + dy) && pawn_capture_ok(m, p, x, y, 1) {
        seq![sq_of(x + 1, y + dy)]
    } else {
        Seq::empty()
    };
    fwd + left + right
}

/// The pseudo-legal destinations of piece `p` standing on square `from`:
/// movement geometry and occupancy only, with no king-safety filtering.
pub open spec fn pseudo_seq_p(m: BoardModel, p: Piece, from: int) -> Seq<int> {
    let x = file_of(from);
    let y = rank_of(from);
    let c = color_of(p);
    match kind_of(p) {
        Piece::Rook => rook_rays(m.squares, x, y, c),
        Piece::Bishop => bishop_rays(m.squares, x, y, c),
        Piece::Queen => rook_rays(m.squares, x, y, c) + bishop_rays(m.squares, x, y, c),
        Piece::King => king_seq(m, p, x, y),
        Piece::Pawn => pawn_seq(m, p, x, y),
        Piece::LeftKnight => knight_seq(m.squares, x, y, c),
        Piece::RightKnight => knight_seq(m.squares, x, y, c),
        _ => Seq::empty(),
    }
}

/// The pseudo-legal destinations of the piece standing on square `from`.
pub open spec fn pseudo_seq(m: BoardModel, from: int) -> Seq<int> {
    pseudo_seq_p(m, m.squares[from], from)
}

/// The square holding the king of the given colour.
pub open spec fn king_square(m: BoardModel, color: Piece) -> int {
    choose|s: int| 0 <= s < 64 && m.squares[s] == combine_of(Piece::King, color)
}

/// Whether the king of the given colour is attacked: some square holds a
/// piece of the opposite colour whose pseudo-legal destinations include the
/// king's square.
pub open spec fn in_check(m: BoardModel, color: Piece) -> bool {
    exists|s: int|
        0 <= s < 64 && color_of(m.squares[s]) == enemy_of(color) && pseudo_seq(m, s).contains(
            king_square(m, color),
        )
}

/// A king move two files toward the h-side rook.
pub open spec fn is_little_castle(m: BoardModel, from: int, to: int) -> bool {
    kind_of(m.squares[from]) == Piece::King && to == from + 2
}

/// A king move two files toward the a-side rook.
pub open spec fn is_big_castle(m: BoardModel, from: int, to: int) -> bool {
    kind_of(m.squares[from]) == Piece::King && to + 2 == from
}

/// A pawn move that changes file onto a vacant square: an en-passant
/// capture.
pub open spec fn is_en_passant(m: BoardModel, from: int, to: int) -> bool {
    kind_of(m.squares[from]) == Piece::Pawn && file_of(to) != file_of(from) && m.squares[to]
        == Piece::Empty
}

/// A pawn move whose destination lies on either back rank.
pub open spec fn is_promotion(m: BoardModel, from: int, to: int) -> bool {
    kind_of(m.squares[from]) == Piece::Pawn && (rank_of(to) == 0 || rank_of(to) == 7)
}

/// The square of the pawn captured en passant: the destination's file on
/// the origin's rank.
pub open spec fn ep_victim(from: int, to: int) -> int {
    from + file_of(to) - file_of(from)
}

/// Whether committing the move removes an enemy piece from the board.
pub open spec fn move_captures(m: BoardModel, from: int, to: int) -> bool {
    m.squares[to] != Piece::Empty || is_en_passant(m, from, to)
}

/// The exact board transition of a committed move, in the executor's
/// order: the mover swaps to its destination and the origin clears; a
/// castling move also relocates the corresponding rook; an en-passant
/// capture clears the victim's square; the endpoints (and the rook's or
/// the victim's origin) are marked moved; the move is recorded; a
/// promotion clears the destination, marks it pending and leaves the turn
/// unchanged, any other move passes the turn.
pub open spec fn apply_move(m: BoardModel, from: int, to: int) -> BoardModel {
    let p = m.squares[from];
    let s1 = m.squares.update(to, p).update(from, Piece::Empty);
    let s2: Seq<Piece> = if is_little_castle(m, from, to) {
        s1.update(from + 1, s1[from + 3]).update(from + 3, s1[from + 1])
    } else if is_big_castle(m, from, to) {
        s1.update(from - 1, s1[from - 4]).update(from - 4, s1[from - 1])
    } else if is_en_passant(m, from, to) {
        s1.update(ep_victim(from, to), Piece::Empty)
    } else {
        s1
    };
    let s3: Seq<Piece> = if is_promotion(m, from, to) {
        s2.update(to, Piece::Empty)
    } else {
        s2
    };
    let mv = m.moved.insert(from).insert(to);
    let mv2: Set<int> = if is_little_castle(m, from, to) {
        mv.insert(from + 3)
    } else if is_big_castle(m, from, to) {
        mv.insert(from - 4)
    } else if is_en_passant(m, from, to) {
        mv.insert(ep_victim(from, to))
    } else {
        mv
    };
    BoardModel {
        squares: s3,
        turn: if is_promotion(m, from, to) {
            m.turn
        } else {
            enemy_of(m.turn)
        },
        moved: mv2,
        last_from: from,
        last_to: to,
        promo: if is_promotion(m, from, to) {
            Some(to)
        } else {
            m.promo
        },
        status: m.status,
        white_opponent: m.white_opponent,
        black_opponent: m.black_opponent,
    }
}

/// The king-safety filter's predicate: a pseudo-legal destination is kept
/// when it does not capture a king and the side to move is not in check
/// after the move is simulated.
pub open spec fn legal_pred(m: BoardModel, from: int) -> spec_fn(int) -> bool {
    |t: int|
        kind_of(m.squares[t]) != Piece::King && !in_check(apply_move(m, from, t), m.turn)
}

/// The legal destinations of the piece standing on square `from`: its
/// pseudo-legal destinations that survive the king-safety filter, in
/// generation order.
pub open spec fn legal_seq(m: BoardModel, from: int) -> Seq<int> {
    pseudo_seq(m, from).filter(legal_pred(m, from))
}

/// The legal (origin, destination) pairs of the pieces of the side to move
/// standing on squares below `n`, by increasing origin square.
pub open spec fn all_legal_upto(m: BoardModel, n: int) -> Seq<(int, int)>
    decreases n,
{
    if n <= 0 {
        Seq::empty()
    } else {
        all_legal_upto(m, n - 1) + (if color_of(m.squares[n - 1]) == m.turn {
            legal_seq(m, n - 1).map_values(|t: int| (n - 1, t))
        } else {
            Seq::empty()
        })
    }
}

/// Every legal (origin, destination) pair of the side to move.
pub open spec fn all_legal(m: BoardModel) -> Seq<(int, int)> {
    all_legal_upto(m, 64)
}

/// A bishop or either knight variant.
pub open spec fn is_minor(p: Piece) -> bool {
    kind_of(p) == Piece::Bishop || kind_of(p) == Piece::LeftKnight || kind_of(p)
        == Piece::RightKnight
}

/// The number of non-king pieces on squares below `n`.
pub open spec fn count_nonking(squares: Seq<Piece>, n: int) -> int
    decreases n,
{
    if n <= 0 {
        0
    } else {
        count_nonking(squares, n - 1) + (if squares[n - 1] != Piece::Empty && kind_of(
            squares[n - 1],
        ) != Piece::King {
            1int
        } else {
            0int
        })
    }
}

/// Insufficient mating material: besides the kings, the board holds
/// nothing, or exactly one minor piece in total (whichever side owns it).
pub open spec fn dead_material(squares: Seq<Piece>) -> bool {
    count_nonking(squares, 64) == 0 || (count_nonking(squares, 64) == 1 && forall|s: int|
        0 <= s < 64 && squares[s] != Piece::Empty && kind_of(squares[s]) != Piece::King
            ==> is_minor(squares[s]))
}

/// The status derived after a completed move, for the new side to move:
/// no legal move at all means checkmate when in check and stalemate
/// otherwise; then, unless a promotion is pending, insufficient material
/// means a dead position; otherwise the tag is unchanged.
pub open spec fn eval_status(m: BoardModel) -> Status {
    let s1 = if all_legal(m).len() == 0 {
        if in_check(m, m.turn) {
            Status::Checkmate
        } else {
            Status::Stalemate
        }
    } else {
        m.status
    };
    if m.promo is None && dead_material(m.squares) {
        Status::Dead
    } else {
        s1
    }
}

/// The transition of the public move attempt: an illegal or out-of-range
/// request leaves the whole board unchanged, status tag included; a legal
/// move is applied and then the status is re-derived for the resulting
/// position.
pub open spec fn move_piece_spec(m: BoardModel, from: int, to: int) -> BoardModel {
    if 0 <= from < 64 && 0 <= to < 64 && legal_seq(m, from).contains(to) {
        let m1 = apply_move(m, from, to);
        BoardModel { status: eval_status(m1), ..m1 }
    } else {
        m
    }
}

/// The transition of resolving a pending promotion with the bare kind
/// `choice`: the chosen kind combined with the mover's colour lands on the
/// pending square, the marker clears and the turn passes.  With no pending
/// promotion, or with the pending square occupied in the meantime (a state
/// the rules' own flow never produces), the board is unchanged.
pub open spec fn apply_promotion(m: BoardModel, choice: Piece) -> BoardModel {
    match m.promo {
        Option::None => m,
        Option::Some(s) => if m.squares[s] == Piece::Empty {
            BoardModel {
                squares: m.squares.update(s, combine_of(choice, m.turn)),
                promo: Option::None,
                turn: enemy_of(m.turn),
                ..m
            }
        } else {
            m
        },
    }
}

/// Whether the square indices of `v` are, in order, exactly those of `s`.
pub open spec fn idxs_match(v: Seq<usize>, s: Seq<int>) -> bool {
    v.len() == s.len() && forall|j: int| 0 <= j < s.len() ==> #[trigger] v[j] as int == s[j]
}

/// Whether the coordinate pair `c` names square `s`.
pub open spec fn is_coord(c: [usize; 2], s: int) -> bool {
    c@[0] < 8 && c@[1] < 8 && s == sq_of(c@[0] as int, c@[1] as int)
}

/// Whether the coordinate pairs of `v` name, in order, exactly the squares
/// of `s`.
pub open spec fn coords_match(v: Seq<[usize; 2]>, s: Seq<int>) -> bool {
    v.len() == s.len() && forall|i: int| 0 <= i < s.len() ==> is_coord(#[trigger] v[i], s[i])
}

/// Whether `new` is `old` with coordinate pairs naming exactly the squares
/// of `s` appended.
pub open spec fn appended_coords(new: Seq<[usize; 2]>, old: Seq<[usize; 2]>, s: Seq<int>) -> bool {
    &&& new.len() == old.len() + s.len()
    &&& forall|i: int| 0 <= i < old.len() ==> #[trigger] new[i] == old[i]
    &&& forall|i: int| 0 <= i < s.len() ==> is_coord(#[trigger] new[old.len() + i], s[i])
}

/// Appending the squares of `s1` and then those of `s2` appends the
/// squares of `s1 + s2`.
pub proof fn lemma_appended_coords_compose(
    a: Seq<[usize; 2]>,
    b: Seq<[usize; 2]>,
    c: Seq<[usize; 2]>,
    s1: Seq<int>,
    s2: Seq<int>,
)
    requires
        appended_coords(b, a, s1),
        appended_coords(c, b, s2),
    ensures
        appended_coords(c, a, s1 + s2),
{
    assert forall|i: int| 0 <= i < (s1 + s2).len() implies is_coord(
        #[trigger] c[a.len() + i],
        (s1 + s2)[i],
    ) by {
        if i < s1.len() {
            assert(c[a.len() + i] == b[a.len() + i]);
        } else {
            assert(c[a.len() + i] == c[b.len() + (i - s1.len())]);
        }
    }
}

/// A coordinate list appended to nothing matches its squares.
pub proof fn lemma_appended_coords_match(v: Seq<[usize; 2]>, s: Seq<int>)
    requires
        appended_coords(v, Seq::empty(), s),
    ensures
        coords_match(v, s),
{
    assert forall|i: int| 0 <= i < s.len() implies is_coord(#[trigger] v[i], s[i]) by {
        assert(is_coord(v[Seq::<[usize; 2]>::empty().len() + i], s[i]));
    }
}

/// The six squares whose initial occupants gate castling: the two kings'
/// and the four rooks' starting squares.
pub open spec fn is_royal_home(s: int) -> bool {
    s == 0 || s == 4 || s == 7 || s == 56 || s == 60 || s == 63
}

/// A legal-move cache entry is absent or holds exactly the legal
/// destinations of its origin square on the current board.
pub open spec fn cache_entry_ok(m: BoardModel, e: Option<Vec<usize>>, s: int) -> bool {
    match e {
        Option::None => true,
        Option::Some(v) => v@.len() == legal_seq(m, s).len() && forall|j: int|
            0 <= j < v@.len() ==> #[trigger] v@[j] as int == legal_seq(m, s)[j],
    }
}

/// The piece the standard starting position places on the back rank's
/// file `x`.
pub open spec fn back_rank_kind(x: int) -> Piece {
    if x == 0 {
        Piece::Rook
    } else if x == 1 {
        Piece::LeftKnight
    } else if x == 2 {
        Piece::Bishop
    } else if x == 3 {
        Piece::Queen
    } else if x == 4 {
        Piece::King
    } else if x == 5 {
        Piece::Bishop
    } else if x == 6 {
        Piece::RightKnight
    } else {
        Piece::Rook
    }
}

/// The piece the standard starting position places on square `s`.
pub open spec fn initial_piece(s: int) -> Piece {
    if rank_of(s) == 0 {
        combine_of(back_rank_kind(file_of(s)), Piece::Black)
    } else if rank_of(s) == 1 {
        Piece::BlackPawn
    } else if rank_of(s) == 6 {
        Piece::WhitePawn
    } else if rank_of(s) == 7 {
        combine_of(back_rank_kind(file_of(s)), Piece::White)
    } else {
        Piece::Empty
    }
}

/// The starting board: the standard layout, White to move, nothing moved,
/// no move recorded, no promotion pending, status `Playing`.
pub open spec fn initial_model() -> BoardModel {
    BoardModel {
        squares: Seq::new(64, |s: int| initial_piece(s)),
        turn: Piece::White,
        moved: Set::empty(),
        last_from: 0,
        last_to: 0,
        promo: Option::None,
        status: Status::Playing,
        white_opponent: Opponent::Computer,
        black_opponent: Opponent::Computer,
    }
}

/// A square array acceptable to [`crate::board::Board::from_layout`]: 64
/// squares each empty or holding a full piece, a real colour to move, and
/// exactly one king of each colour.
pub open spec fn valid_layout(squares: Seq<Piece>, turn: Piece) -> bool {
    &&& squares.len() == 64
    &&& turn == Piece::White || turn == Piece::Black
    &&& forall|s: int|
        0 <= s < 64 ==> squares[s] == Piece::Empty || is_full_piece(#[trigger] squares[s])
    &&& exists|s: int| 0 <= s < 64 && squares[s] == Piece::WhiteKing
    &&& exists|s: int| 0 <= s < 64 && squares[s] == Piece::BlackKing
    &&& forall|s1: int, s2: int|
        0 <= s1 < 64 && 0 <= s2 < 64 && squares[s1] == Piece::WhiteKing && squares[s2]
            == Piece::WhiteKing ==> s1 == s2
    &&& forall|s1: int, s2: int|
        0 <= s1 < 64 && 0 <= s2 < 64 && squares[s1] == Piece::BlackKing && squares[s2]
            == Piece::BlackKing ==> s1 == s2
}

/// The board a layout builds: the given squares and turn, every square
/// that deviates from the starting position marked moved, and a fresh
/// game otherwise.
pub open spec fn layout_model(squares: Seq<Piece>, turn: Piece) -> BoardModel {
    BoardModel {
        squares: squares,
        turn: turn,
        moved: Set::new(|s: int| 0 <= s < 64 && squares[s] != initial_piece(s)),
        last_from: 0,
        last_to: 0,
        promo: Option::None,
        status: Status::Playing,
        white_opponent: Opponent::Computer,
        black_opponent: Opponent::Computer,
    }
}


/// The squares a ray yields: the `i`-th element is the `i+1`-th square
/// along the direction, and it lies on the board.
pub proof fn lemma_ray_elements(squares: Seq<Piece>, x: int, y: int, dx: int, dy: int, c: Piece)
    requires
        -1 <= dx <= 1,
        -1 <= dy <= 1,
        c == Piece::White || c == Piece::Black,
    ensures
        forall|i: int|
            0 <= i < ray_seq(squares, x, y, dx, dy, c).len() ==> #[trigger] ray_seq(
                squares,
                x,
                y,
                dx,
                dy,
                c,
            )[i] == sq_of(x + (i + 1) * dx, y + (i + 1) * dy) && on_board(
                x + (i + 1) * dx,
                y + (i + 1) * dy,
            ),
    decreases ray_fuel(x, dx) + ray_fuel(y, dy),
{
    if dx == 0 && dy == 0 {
    } else {
        let nx = x + dx;
        let ny = y + dy;
        if on_board(nx, ny) {
            lemma_ray_elements(squares, nx, ny, dx, dy, c);
            let whole = ray_seq(squares, x, y, dx, dy, c);
            let rest = ray_seq(squares, nx, ny, dx, dy, c);
            assert forall|i: int| 0 <= i < whole.len() implies #[trigger] whole[i] == sq_of(
                x + (i + 1) * dx,
                y + (i + 1) * dy,
            ) && on_board(x + (i + 1) * dx, y + (i + 1) * dy) by {
                assert((i + 1) * dx == i * dx + dx && (i + 1) * dy == i * dy + dy)
                    by (nonlinear_arith);
                if i == 0 {
                    assert(1 * dx == dx && 1 * dy == dy) by (nonlinear_arith);
                } else {
                    assert(squares[sq_of(nx, ny)] == Piece::Empty);
                    assert(whole[i] == rest[i - 1]);
                    assert(rest[i - 1] == sq_of(nx + i * dx, ny + i * dy) && on_board(
                        nx + i * dx,
                        ny + i * dy,
                    ));
                }
            }
        }
    }
}

/// A square `k >= 1` steps along a nonzero direction from `(x, y)`
/// differs from `sq_of(x, y)`.
pub proof fn lemma_ray_element_not_origin(x: int, y: int)
    ensures
        forall|k: int, dx: int, dy: int|
            k >= 1 && -1 <= dx <= 1 && -1 <= dy <= 1 && !(dx == 0 && dy == 0) ==> #[trigger] sq_of(
                x + k * dx,
                y + k * dy,
            ) != sq_of(x, y),
{
    assert forall|k: int, dx: int, dy: int|
        k >= 1 && -1 <= dx <= 1 && -1 <= dy <= 1 && !(dx == 0 && dy == 0) implies #[trigger] sq_of(
        x + k * dx,
        y + k * dy,
    ) != sq_of(x, y) by {
        assert(k * (8 * dy + dx) != 0) by (nonlinear_arith)
            requires
                k >= 1,
                -1 <= dx <= 1,
                -1 <= dy <= 1,
                !(dx == 0 && dy == 0),
        ;
        assert(sq_of(x + k * dx, y + k * dy) - sq_of(x, y) == k * (8 * dy + dx))
            by (nonlinear_arith);
    }
}

/// The coordinates of an on-board square round-trip through `sq_of`.
pub proof fn lemma_sq_coords(x: int, y: int)
    ensures
        forall|a: int, b: int|
            0 <= a < 8 ==> file_of(#[trigger] sq_of(a, b)) == a && rank_of(sq_of(a, b)) == b,
{
    assert forall|a: int, b: int|
        0 <= a < 8 implies file_of(#[trigger] sq_of(a, b)) == a && rank_of(sq_of(a, b)) == b by {
        assert((b * 8 + a) % 8 == a && (b * 8 + a) / 8 == b) by (nonlinear_arith)
            requires
                0 <= a < 8,
        ;
    }
}

/// Every square of `s` lies on the board and differs from `from`.
pub open spec fn sqs_on_board(s: Seq<int>, from: int) -> bool {
    forall|i: int| 0 <= i < s.len() ==> 0 <= #[trigger] s[i] < 64 && s[i] != from
}

/// No square of `s` holds a piece of colour `c`.
pub open spec fn sqs_not_color(s: Seq<int>, squares: Seq<Piece>, c: Piece) -> bool {
    forall|i: int| 0 <= i < s.len() ==> color_of(squares[#[trigger] s[i]]) != c
}

proof fn lemma_sqs_on_board_add(a: Seq<int>, b: Seq<int>, from: int)
    requires
        sqs_on_board(a, from),
        sqs_on_board(b, from),
    ensures
        sqs_on_board(a + b, from),
{
    assert forall|i: int| 0 <= i < (a + b).len() implies 0 <= #[trigger] (a + b)[i] < 64 && (a
        + b)[i] != from by {
        if i < a.len() {
            assert((a + b)[i] == a[i]);
        } else {
            assert((a + b)[i] == b[i - a.len()]);
        }
    }
}

proof fn lemma_sqs_not_color_add(a: Seq<int>, b: Seq<int>, squares: Seq<Piece>, c: Piece)
    requires
        sqs_not_color(a, squares, c),
        sqs_not_color(b, squares, c),
    ensures
        sqs_not_color(a + b, squares, c),
{
    assert forall|i: int| 0 <= i < (a + b).len() implies color_of(
        squares[#[trigger] (a + b)[i]],
    ) != c by {
        if i < a.len() {
            assert((a + b)[i] == a[i]);
        } else {
            assert((a + b)[i] == b[i - a.len()]);
        }
    }
}

proof fn lemma_step_ok(squares: Seq<Piece>, x: int, y: int, c: Piece, from: int)
    requires
        sq_of(x, y) != from,
    ensures
        sqs_on_board(step_seq(squares, x, y, c), from),
        sqs_not_color(step_seq(squares, x, y, c), squares, c),
{
}

proof fn lemma_ray_ok(squares: Seq<Piece>, x: int, y: int, dx: int, dy: int, c: Piece)
    requires
        -1 <= dx <= 1,
        -1 <= dy <= 1,
        c == Piece::White || c == Piece::Black,
    ensures
        sqs_on_board(ray_seq(squares, x, y, dx, dy, c), sq_of(x, y)),
        sqs_not_color(ray_seq(squares, x, y, dx, dy, c), squares, c),
{
    lemma_ray_elements(squares, x, y, dx, dy, c);
    lemma_ray_element_not_origin(x, y);
    lemma_ray_own_color(squares, x, y, dx, dy, c);
    let s = ray_seq(squares, x, y, dx, dy, c);
    assert forall|i: int| 0 <= i < s.len() implies 0 <= #[trigger] s[i] < 64 && s[i] != sq_of(
        x,
        y,
    ) by {
        if dx == 0 && dy == 0 {
        } else {
            assert(s[i] == sq_of(x + (i + 1) * dx, y + (i + 1) * dy));
        }
    }
}

/// A ray never yields a square of the mover's own colour.
pub proof fn lemma_ray_own_color(squares: Seq<Piece>, x: int, y: int, dx: int, dy: int, c: Piece)
    ensures
        forall|i: int|
            0 <= i < ray_seq(squares, x, y, dx, dy, c).len() ==> color_of(
                squares[#[trigger] ray_seq(squares, x, y, dx, dy, c)[i]],
            ) != c,
    decreases ray_fuel(x, dx) + ray_fuel(y, dy),
{
    if dx == 0 && dy == 0 {
    } else {
        let nx = x + dx;
        let ny = y + dy;
        if on_board(nx, ny) {
            lemma_ray_own_color(squares, nx, ny, dx, dy, c);
        }
    }
}

proof fn lemma_rook_rays_ok(squares: Seq<Piece>, x: int, y: int, c: Piece)
    requires
        c == Piece::White || c == Piece::Black,
    ensures
        sqs_on_board(rook_rays(squares, x, y, c), sq_of(x, y)),
        sqs_not_color(rook_rays(squares, x, y, c), squares, c),
{
    let from = sq_of(x, y);
    lemma_ray_ok(squares, x, y, -1, 0, c);
    lemma_ray_ok(squares, x, y, 1, 0, c);
    lemma_ray_ok(squares, x, y, 0, -1, c);
    lemma_ray_ok(squares, x, y, 0, 1, c);
    let r1 = ray_seq(squares, x, y, -1, 0, c);
    let r2 = ray_seq(squares, x, y, 1, 0, c);
    let r3 = ray_seq(squares, x, y, 0, -1, c);
    let r4 = ray_seq(squares, x, y, 0, 1, c);
    lemma_sqs_on_board_add(r1, r2, from);
    lemma_sqs_on_board_add(r1 + r2, r3, from);
    lemma_sqs_on_board_add(r1 + r2 + r3, r4, from);
    lemma_sqs_not_color_add(r1, r2, squares, c);
    lemma_sqs_not_color_add(r1 + r2, r3, squares, c);
    lemma_sqs_not_color_add(r1 + r2 + r3, r4, squares, c);
}

proof fn lemma_bishop_rays_ok(squares: Seq<Piece>, x: int, y: int, c: Piece)
    requires
        c == Piece::White || c == Piece::Black,
    ensures
        sqs_on_board(bishop_rays(squares, x, y, c), sq_of(x, y)),
        sqs_not_color(bishop_rays(squares, x, y, c), squares, c),
{
    let from = sq_of(x, y);
    lemma_ray_ok(squares, x, y, -1, -1, c);
    lemma_ray_ok(squares, x, y, 1, 1, c);
    lemma_ray_ok(squares, x, y, 1, -1, c);
    lemma_ray_ok(squares, x, y, -1, 1, c);
    let r1 = ray_seq(squares, x, y, -1, -1, c);
    let r2 = ray_seq(squares, x, y, 1, 1, c);
    let r3 = ray_seq(squares, x, y, 1, -1, c);
    let r4 = ray_seq(squares, x, y, -1, 1, c);
    lemma_sqs_on_board_add(r1, r2, from);
    lemma_sqs_on_board_add(r1 + r2, r3, from);
    lemma_sqs_on_board_add(r1 + r2 + r3, r4, from);
    lemma_sqs_not_color_add(r1, r2, squares, c);
    lemma_sqs_not_color_add(r1 + r2, r3, squares, c);
    lemma_sqs_not_color_add(r1 + r2 + r3, r4, squares, c);
}

proof fn lemma_knight_ok(squares: Seq<Piece>, x: int, y: int, c: Piece)
    requires
        on_board(x, y),
    ensures
        sqs_on_board(knight_seq(squares, x, y, c), sq_of(x, y)),
        sqs_not_color(knight_seq(squares, x, y, c), squares, c),
{
    let from = sq_of(x, y);
    lemma_step_ok(squares, x + 2, y + 1, c, from);
    lemma_step_ok(squares, x + 2, y - 1, c, from);
    lemma_step_ok(squares, x - 2, y + 1, c, from);
    lemma_step_ok(squares, x - 2, y - 1, c, from);
    lemma_step_ok(squares, x + 1, y + 2, c, from);
    lemma_step_ok(squares, x - 1, y + 2, c, from);
    lemma_step_ok(squares, x + 1, y - 2, c, from);
    lemma_step_ok(squares, x - 1, y - 2, c, from);
    let s1 = step_seq(squares, x + 2, y + 1, c);
    let s2 = step_seq(squares, x + 2, y - 1, c);
    let s3 = step_seq(squares, x - 2, y + 1, c);
    let s4 = step_seq(squares, x - 2, y - 1, c);
    let s5 = step_seq(squares, x + 1, y + 2, c);
    let s6 = step_seq(squares, x - 1, y + 2, c);
    let s7 = step_seq(squares, x + 1, y - 2, c);
    let s8 = step_seq(squares, x - 1, y - 2, c);
    lemma_sqs_on_board_add(s1, s2, from);
    lemma_sqs_on_board_add(s1 + s2, s3, from);
    lemma_sqs_on_board_add(s1 + s2 + s3, s4, from);
    lemma_sqs_on_board_add(s1 + s2 + s3 + s4, s5, from);
    lemma_sqs_on_board_add(s1 + s2 + s3 + s4 + s5, s6, from);
    lemma_sqs_on_board_add(s1 + s2 + s3 + s4 + s5 + s6, s7, from);
    lemma_sqs_on_board_add(s1 + s2 + s3 + s4 + s5 + s6 + s7, s8, from);
    lemma_sqs_not_color_add(s1, s2, squares, c);
    lemma_sqs_not_color_add(s1 + s2, s3, squares, c);
    lemma_sqs_not_color_add(s1 + s2 + s3, s4, squares, c);
    lemma_sqs_not_color_add(s1 + s2 + s3 + s4, s5, squares, c);
    lemma_sqs_not_color_add(s1 + s2 + s3 + s4 + s5, s6, squares, c);
    lemma_sqs_not_color_add(s1 + s2 + s3 + s4 + s5 + s6, s7, squares, c);
    lemma_sqs_not_color_add(s1 + s2 + s3 + s4 + s5 + s6 + s7, s8, squares, c);
}

#[verifier::rlimit(60)]
proof fn lemma_king_ok(m: BoardModel, p: Piece, x: int, y: int)
    requires
        on_board(x, y),
    ensures
        sqs_on_board(king_seq(m, p, x, y), sq_of(x, y)),
        sqs_not_color(king_seq(m, p, x, y), m.squares, color_of(p)),
{
    let squares = m.squares;
    let c = color_of(p);
    let from = sq_of(x, y);
    lemma_step_ok(squares, x + 1, y + 1, c, from);
    lemma_step_ok(squares, x + 1, y, c, from);
    lemma_step_ok(squares, x + 1, y - 1, c, from);
    lemma_step_ok(squares, x, y + 1, c, from);
    lemma_step_ok(squares, x, y - 1, c, from);
    lemma_step_ok(squares, x - 1, y + 1, c, from);
    lemma_step_ok(squares, x - 1, y, c, from);
    lemma_step_ok(squares, x - 1, y - 1, c, from);
    lemma_step_ok(squares, x + 2, y, c, from);
    lemma_step_ok(squares, x - 2, y, c, from);
    let s1 = step_seq(squares, x + 1, y + 1, c);
    let s2 = step_seq(squares, x + 1, y, c);
    let s3 = step_seq(squares, x + 1, y - 1, c);
    let s4 = step_seq(squares, x, y + 1, c);
    let s5 = step_seq(squares, x, y - 1, c);
    let s6 = step_seq(squares, x - 1, y + 1, c);
    let s7 = step_seq(squares, x - 1, y, c);
    let s8 = step_seq(squares, x - 1, y - 1, c);
    let steps = s1 + s2 + s3 + s4 + s5 + s6 + s7 + s8;
    lemma_sqs_on_board_add(s1, s2, from);
    lemma_sqs_on_board_add(s1 + s2, s3, from);
    lemma_sqs_on_board_add(s1 + s2 + s3, s4, from);
    lemma_sqs_on_board_add(s1 + s2 + s3 + s4, s5, from);
    lemma_sqs_on_board_add(s1 + s2 + s3 + s4 + s5, s6, from);
    lemma_sqs_on_board_add(s1 + s2 + s3 + s4 + s5 + s6, s7, from);
    lemma_sqs_on_board_add(s1 + s2 + s3 + s4 + s5 + s6 + s7, s8, from);
    lemma_sqs_not_color_add(s1, s2, squares, c);
    lemma_sqs_not_color_add(s1 + s2, s3, squares, c);
    lemma_sqs_not_color_add(s1 + s2 + s3, s4, squares, c);
    lemma_sqs_not_color_add(s1 + s2 + s3 + s4, s5, squares, c);
    lemma_sqs_not_color_add(s1 + s2 + s3 + s4 + s5, s6, squares, c);
    lemma_sqs_not_color_add(s1 + s2 + s3 + s4 + s5 + s6, s7, squares, c);
    lemma_sqs_not_color_add(s1 + s2 + s3 + s4 + s5 + s6 + s7, s8, squares, c);
    let ca = if !m.moved.contains(sq_of(x, y)) && step_open(m.squares, x + 1, y)
        && !m.moved.contains(sq_of(7, y)) {
        step_seq(m.squares, x + 2, y, c)
    } else {
        Seq::<int>::empty()
    };
    let cb = if !m.moved.contains(sq_of(x, y)) && step_open(m.squares, x - 1, y)
        && !m.moved.contains(sq_of(0, y)) && m.squares[sq_of(1, y)] == Piece::Empty {
        step_seq(m.squares, x - 2, y, c)
    } else {
        Seq::<int>::empty()
    };
    assert(sqs_on_board(ca, from) && sqs_not_color(ca, squares, c));
    assert(sqs_on_board(cb, from) && sqs_not_color(cb, squares, c));
    lemma_sqs_on_board_add(ca, cb, from);
    lemma_sqs_not_color_add(ca, cb, squares, c);
    lemma_sqs_on_board_add(steps, ca + cb, from);
    lemma_sqs_not_color_add(steps, ca + cb, squares, c);
    assert(king_seq(m, p, x, y) == steps + (ca + cb) || king_seq(m, p, x, y) == steps
        + (Seq::<int>::empty() + Seq::<int>::empty()));
}

#[verifier::rlimit(60)]
proof fn lemma_pawn_ok(m: BoardModel, p: Piece, x: int, y: int)
    requires
        on_board(x, y),
        is_full_piece(p),
    ensures
        sqs_on_board(pawn_seq(m, p, x, y), sq_of(x, y)),
        sqs_not_color(pawn_seq(m, p, x, y), m.squares, color_of(p)),
{
    let squares = m.squares;
    let c = color_of(p);
    let from = sq_of(x, y);
    let dy = pawn_dir(p);
    let fwd: Seq<int> = if on_board(x, y + dy) && m.squares[sq_of(x, y + dy)] == Piece::Empty {
        seq![sq_of(x, y + dy)] + (if y == pawn_home(p) && m.squares[sq_of(x, y + 2 * dy)]
            == Piece::Empty {
            seq![sq_of(x, y + 2 * dy)]
        } else {
            Seq::empty()
        })
    } else {
        Seq::empty()
    };
    let left: Seq<int> = if x > 0 && on_board(x - 1, y + dy) && pawn_capture_ok(m, p, x, y, -1) {
        seq![sq_of(x - 1, y + dy)]
    } else {
        Seq::empty()
    };
    let right: Seq<int> = if x < 7 && on_board(x + 1, y + dy) && pawn_capture_ok(m, p, x, y, 1) {
        seq![sq_of(x + 1, y + dy)]
    } else {
        Seq::empty()
    };
    assert(sqs_on_board(fwd, from) && sqs_not_color(fwd, squares, c));
    assert(sqs_on_board(left, from) && sqs_not_color(left, squares, c));
    assert(sqs_on_board(right, from) && sqs_not_color(right, squares, c));
    lemma_sqs_on_board_add(fwd, left, from);
    lemma_sqs_on_board_add(fwd + left, right, from);
    lemma_sqs_not_color_add(fwd, left, squares, c);
    lemma_sqs_not_color_add(fwd + left, right, squares, c);
    assert(pawn_seq(m, p, x, y) == fwd + left + right);
}

/// Every pseudo-legal destination of a full piece is an on-board square
/// other than the origin, and never one holding the mover's own colour.
pub proof fn lemma_pseudo_ok(m: BoardModel, p: Piece, from: int)
    requires
        0 <= from < 64,
        is_full_piece(p),
    ensures
        sqs_on_board(pseudo_seq_p(m, p, from), from),
        sqs_not_color(pseudo_seq_p(m, p, from), m.squares, color_of(p)),
{
    let x = file_of(from);
    let y = rank_of(from);
    let c = color_of(p);
    assert(from == sq_of(x, y));
    match kind_of(p) {
        Piece::Rook => {
            lemma_rook_rays_ok(m.squares, x, y, c);
        },
        Piece::Bishop => {
            lemma_bishop_rays_ok(m.squares, x, y, c);
        },
        Piece::Queen => {
            lemma_rook_rays_ok(m.squares, x, y, c);
            lemma_bishop_rays_ok(m.squares, x, y, c);
            lemma_sqs_on_board_add(
                rook_rays(m.squares, x, y, c),
                bishop_rays(m.squares, x, y, c),
                from,
            );
            lemma_sqs_not_color_add(
                rook_rays(m.squares, x, y, c),
                bishop_rays(m.squares, x, y, c),
                m.squares,
                c,
            );
        },
        Piece::King => {
            lemma_king_ok(m, p, x, y);
        },
        Piece::Pawn => {
            lemma_pawn_ok(m, p, x, y);
        },
        Piece::LeftKnight => {
            lemma_knight_ok(m.squares, x, y, c);
        },
        Piece::RightKnight => {
            lemma_knight_ok(m.squares, x, y, c);
        },
        _ => {
        },
    }
}

/// The `contains` form of [`lemma_pseudo_ok`].
pub proof fn lemma_pseudo_elements(m: BoardModel, p: Piece, from: int)
    requires
        0 <= from < 64,
        is_full_piece(p),
    ensures
        forall|t: int|
            #[trigger] pseudo_seq_p(m, p, from).contains(t) ==> 0 <= t < 64 && t != from
                && color_of(m.squares[t]) != color_of(p),
{
    lemma_pseudo_ok(m, p, from);
    let s = pseudo_seq_p(m, p, from);
    assert forall|t: int| #[trigger] s.contains(t) implies 0 <= t < 64 && t != from && color_of(
        m.squares[t],
    ) != color_of(p) by {
        let i = choose|i: int| 0 <= i < s.len() && s[i] == t;
        assert(0 <= s[i] < 64 && s[i] != from);
        assert(color_of(m.squares[s[i]]) != color_of(p));
    }
}


/// No square of `s` equals `v`.
pub open spec fn sqs_ne(s: Seq<int>, v: int) -> bool {
    forall|i: int| 0 <= i < s.len() ==> #[trigger] s[i] != v
}

proof fn lemma_sqs_ne_add(a: Seq<int>, b: Seq<int>, v: int)
    requires
        sqs_ne(a, v),
        sqs_ne(b, v),
    ensures
        sqs_ne(a + b, v),
{
    assert forall|i: int| 0 <= i < (a + b).len() implies #[trigger] (a + b)[i] != v by {
        if i < a.len() {
            assert((a + b)[i] == a[i]);
        } else {
            assert((a + b)[i] == b[i - a.len()]);
        }
    }
}

/// What a pseudo-legal two-file king move presupposes: the castle branch
/// alone offers it, so the king's square is unmarked, the corresponding
/// rook's corner square is unmarked, and the probe path is vacant.
#[verifier::rlimit(100)]
pub proof fn lemma_pseudo_castle(m: BoardModel, p: Piece, from: int, to: int)
    requires
        0 <= from < 64,
        is_full_piece(p),
        kind_of(p) == Piece::King,
        pseudo_seq_p(m, p, from).contains(to),
        to == from + 2 || to + 2 == from,
    ensures
        !m.moved.contains(from),
        to == from + 2 ==> !m.moved.contains(sq_of(7, rank_of(from))) && m.squares[from + 1]
            == Piece::Empty && file_of(from) <= 5,
        to + 2 == from ==> !m.moved.contains(sq_of(0, rank_of(from))) && m.squares[from - 1]
            == Piece::Empty && m.squares[sq_of(1, rank_of(from))] == Piece::Empty && file_of(from)
            >= 2,
{
    let x = file_of(from);
    let y = rank_of(from);
    let c = color_of(p);
    let squares = m.squares;
    assert(from == sq_of(x, y));
    let s1 = step_seq(squares, x + 1, y + 1, c);
    let s2 = step_seq(squares, x + 1, y, c);
    let s3 = step_seq(squares, x + 1, y - 1, c);
    let s4 = step_seq(squares, x, y + 1, c);
    let s5 = step_seq(squares, x, y - 1, c);
    let s6 = step_seq(squares, x - 1, y + 1, c);
    let s7 = step_seq(squares, x - 1, y, c);
    let s8 = step_seq(squares, x - 1, y - 1, c);
    let steps = s1 + s2 + s3 + s4 + s5 + s6 + s7 + s8;
    lemma_sqs_ne_add(s1, s2, to);
    lemma_sqs_ne_add(s1 + s2, s3, to);
    lemma_sqs_ne_add(s1 + s2 + s3, s4, to);
    lemma_sqs_ne_add(s1 + s2 + s3 + s4, s5, to);
    lemma_sqs_ne_add(s1 + s2 + s3 + s4 + s5, s6, to);
    lemma_sqs_ne_add(s1 + s2 + s3 + s4 + s5 + s6, s7, to);
    lemma_sqs_ne_add(s1 + s2 + s3 + s4 + s5 + s6 + s7, s8, to);
    assert(sqs_ne(steps, to));
    let whole = king_seq(m, p, x, y);
    let i = choose|i: int| 0 <= i < whole.len() && whole[i] == to;
    assert(!(i < steps.len()));
    assert(!m.moved.contains(from));
    let ca = if step_open(squares, x + 1, y) && !m.moved.contains(sq_of(7, y)) {
        step_seq(squares, x + 2, y, c)
    } else {
        Seq::<int>::empty()
    };
    let cb = if step_open(squares, x - 1, y) && !m.moved.contains(sq_of(0, y))
        && squares[sq_of(1, y)] == Piece::Empty {
        step_seq(squares, x - 2, y, c)
    } else {
        Seq::<int>::empty()
    };
    assert(whole == steps + (ca + cb));
    assert((ca + cb)[i - steps.len()] == to);
    if to == from + 2 {
        assert(sqs_ne(cb, to));
        assert(ca.len() > 0 && ca[0] == to);
        assert(step_open(squares, x + 1, y) && !m.moved.contains(sq_of(7, y)));
        assert(on_board(x + 2, y));
        assert(squares[sq_of(x + 1, y)] == Piece::Empty && sq_of(x + 1, y) == from + 1);
    } else {
        assert(sqs_ne(ca, to));
        assert(cb.len() > 0 && cb[0] == to);
        assert(step_open(squares, x - 1, y) && !m.moved.contains(sq_of(0, y)) && squares[sq_of(
            1,
            y,
        )] == Piece::Empty);
        assert(on_board(x - 2, y));
        assert(squares[sq_of(x - 1, y)] == Piece::Empty && sq_of(x - 1, y) == from - 1);
    }
}

/// What a pseudo-legal file-changing pawn move onto a vacant square
/// presupposes: only the en-passant clause offers it, so the square the
/// capture removes holds an enemy pawn just recorded as the last move's
/// destination.
#[verifier::rlimit(100)]
pub proof fn lemma_pseudo_ep(m: BoardModel, p: Piece, from: int, to: int)
    requires
        0 <= from < 64,
        is_full_piece(p),
        kind_of(p) == Piece::Pawn,
        pseudo_seq_p(m, p, from).contains(to),
        file_of(to) != file_of(from),
        m.squares[to] == Piece::Empty,
    ensures
        ep_victim(from, to) == sq_of(file_of(to), rank_of(from)),
        0 <= ep_victim(from, to) < 64,
        ep_victim(from, to) != from,
        ep_victim(from, to) != to,
        kind_of(m.squares[ep_victim(from, to)]) == Piece::Pawn,
        color_of(m.squares[ep_victim(from, to)]) == enemy_of(p),
        m.last_to == ep_victim(from, to),
{
    let x = file_of(from);
    let y = rank_of(from);
    let dy = pawn_dir(p);
    assert(from == sq_of(x, y));
    lemma_sq_coords(x, y);
    let whole = pawn_seq(m, p, x, y);
    let i = choose|i: int| 0 <= i < whole.len() && whole[i] == to;
    let fwd: Seq<int> = if on_board(x, y + dy) && m.squares[sq_of(x, y + dy)] == Piece::Empty {
        seq![sq_of(x, y + dy)] + (if y == pawn_home(p) && m.squares[sq_of(x, y + 2 * dy)]
            == Piece::Empty {
            seq![sq_of(x, y + 2 * dy)]
        } else {
            Seq::empty()
        })
    } else {
        Seq::empty()
    };
    let left: Seq<int> = if x > 0 && on_board(x - 1, y + dy) && pawn_capture_ok(m, p, x, y, -1) {
        seq![sq_of(x - 1, y + dy)]
    } else {
        Seq::empty()
    };
    let right: Seq<int> = if x < 7 && on_board(x + 1, y + dy) && pawn_capture_ok(m, p, x, y, 1) {
        seq![sq_of(x + 1, y + dy)]
    } else {
        Seq::empty()
    };
    assert(whole == fwd + left + right);
    assert(forall|j: int|
        0 <= j < fwd.len() ==> file_of(#[trigger] fwd[j]) == x && #[trigger] fwd[j] != to);
    if i < fwd.len() + left.len() {
        assert(left[i - fwd.len()] == to);
        assert(to == sq_of(x - 1, y + dy) && pawn_capture_ok(m, p, x, y, -1));
        assert(color_of(m.squares[to]) == Piece::Empty);
        assert(enemy_of(p) == Piece::White || enemy_of(p) == Piece::Black);
        assert(kind_of(m.squares[sq_of(x - 1, y)]) == Piece::Pawn && color_of(
            m.squares[sq_of(x - 1, y)],
        ) == enemy_of(p) && m.last_to == sq_of(x - 1, y));
        assert(ep_victim(from, to) == sq_of(x - 1, y));
    } else {
        assert(right[i - fwd.len() - left.len()] == to);
        assert(to == sq_of(x + 1, y + dy) && pawn_capture_ok(m, p, x, y, 1));
        assert(color_of(m.squares[to]) == Piece::Empty);
        assert(enemy_of(p) == Piece::White || enemy_of(p) == Piece::Black);
        assert(kind_of(m.squares[sq_of(x + 1, y)]) == Piece::Pawn && color_of(
            m.squares[sq_of(x + 1, y)],
        ) == enemy_of(p) && m.last_to == sq_of(x + 1, y));
        assert(ep_victim(from, to) == sq_of(x + 1, y));
    }
}


/// Whether the pairs of `v` are, in order, exactly those of `s`.
pub open spec fn pairs_match(v: Seq<[usize; 2]>, s: Seq<(int, int)>) -> bool {
    v.len() == s.len() && forall|i: int|
        0 <= i < s.len() ==> #[trigger] v[i]@[0] as int == s[i].0 && v[i]@[1] as int == s[i].1
}

/// Every element a filter keeps comes from the sequence and satisfies the
/// predicate.
pub proof fn lemma_filter_elems<A>(s: Seq<A>, p: spec_fn(A) -> bool)
    ensures
        forall|x: A| #[trigger] s.filter(p).contains(x) ==> s.contains(x) && p(x),
    decreases s.len(),
{
    reveal(Seq::filter);
    if s.len() == 0 {
    } else {
        lemma_filter_elems(s.drop_last(), p);
        assert forall|x: A| #[trigger] s.filter(p).contains(x) implies s.contains(x) && p(x) by {
            let rest = s.drop_last().filter(p);
            if p(s.last()) {
                assert(s.filter(p) == rest.push(s.last()));
                if x == s.filter(p)[s.filter(p).len() - 1] {
                    assert(x == s.last());
                    assert(s[s.len() - 1] == x);
                } else {
                    let j = choose|j: int| 0 <= j < s.filter(p).len() && s.filter(p)[j] == x;
                    if j < rest.len() {
                        assert(rest[j] == x);
                        assert(rest.contains(x));
                        let k = choose|k: int|
                            0 <= k < s.drop_last().len() && s.drop_last()[k] == x;
                        assert(s[k] == x);
                    } else {
                        assert(x == s.last());
                        assert(s[s.len() - 1] == x);
                    }
                }
            } else {
                assert(s.filter(p) == rest);
                assert(rest.contains(x));
                let k = choose|k: int| 0 <= k < s.drop_last().len() && s.drop_last()[k] == x;
                assert(s[k] == x);
            }
        }
    }
}

/// Filtering one more element keeps it exactly when the predicate holds
/// of it.
pub proof fn lemma_filter_take_step(s: Seq<int>, p: spec_fn(int) -> bool, i: int)
    requires
        0 <= i < s.len(),
    ensures
        s.take(i + 1).filter(p) == (if p(s[i]) {
            s.take(i).filter(p).push(s[i])
        } else {
            s.take(i).filter(p)
        }),
{
    reveal(Seq::filter);
    assert(s.take(i + 1).drop_last() =~= s.take(i));
    assert(s.take(i + 1).last() == s[i]);
    assert(s.take(i + 1).len() == i + 1);
}

/// Every legal destination is an on-board square.
pub proof fn lemma_legal_in_range(m: BoardModel, from: int)
    requires
        0 <= from < 64,
        m.squares[from] == Piece::Empty || is_full_piece(m.squares[from]),
    ensures
        forall|j: int|
            0 <= j < legal_seq(m, from).len() ==> 0 <= #[trigger] legal_seq(m, from)[j] < 64,
{
    let s = pseudo_seq(m, from);
    let p = legal_pred(m, from);
    lemma_filter_elems(s, p);
    if is_full_piece(m.squares[from]) {
        lemma_pseudo_ok(m, m.squares[from], from);
        assert forall|j: int|
            0 <= j < legal_seq(m, from).len() implies 0 <= #[trigger] legal_seq(m, from)[j]
            < 64 by {
            let x = legal_seq(m, from)[j];
            assert(legal_seq(m, from).contains(x));
            assert(s.contains(x));
            let k = choose|k: int| 0 <= k < s.len() && s[k] == x;
            assert(0 <= s[k] < 64);
        }
    } else {
        assert(s == Seq::<int>::empty());
        s.lemma_filter_len(p);
    }
}


/// The standard starting position puts each king on its home square and
/// nowhere else.
pub proof fn lemma_initial_king_homes()
    ensures
        forall|s: int| 0 <= s < 64 && #[trigger] initial_piece(s) == Piece::WhiteKing ==> s == 60,
        forall|s: int| 0 <= s < 64 && #[trigger] initial_piece(s) == Piece::BlackKing ==> s == 4,
{
    assert forall|s: int|
        0 <= s < 64 && #[trigger] initial_piece(s) == Piece::WhiteKing implies s == 60 by {
        assert(s == rank_of(s) * 8 + file_of(s));
    }
    assert forall|s: int|
        0 <= s < 64 && #[trigger] initial_piece(s) == Piece::BlackKing implies s == 4 by {
        assert(s == rank_of(s) * 8 + file_of(s));
    }
}

/// The standard starting position is a valid layout for White to move.
pub proof fn lemma_initial_layout_valid(squares: Seq<Piece>)
    requires
        squares.len() == 64,
        forall|s: int| 0 <= s < 64 ==> #[trigger] squares[s] == initial_piece(s),
    ensures
        valid_layout(squares, Piece::White),
{
    lemma_initial_king_homes();
    assert(squares[60] == initial_piece(60));
    assert(initial_piece(60) == Piece::WhiteKing);
    assert(squares[4] == initial_piece(4));
    assert(initial_piece(4) == Piece::BlackKing);
    assert forall|s: int|
        0 <= s < 64 implies squares[s] == Piece::Empty || is_full_piece(
        #[trigger] squares[s],
    ) by {
        assert(squares[s] == initial_piece(s));
    }
}

} // verus!
