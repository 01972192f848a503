//! The pseudo-legal move generator: per-piece movement geometry, honouring
//! occupancy and bounds but with no king-safety filtering.
//!
//! Each generated destination is appended to the caller's list as a
//! `[file, rank]` pair; the contracts state that the list gains exactly
//! the squares of the corresponding model sequence, in generation order.

use vstd::prelude::*;

use crate::board::Board;
use crate::model::{
    appended_coords, bishop_rays, coords_match, file_of, king_seq, knight_seq,
    lemma_appended_coords_compose, lemma_appended_coords_match, pawn_dir, pawn_seq, pseudo_seq_p,
    rank_of, ray_fuel, ray_seq, rook_rays, sq_of, step_open, step_seq,
};
use crate::piece::{color_of, enemy_of, kind_of, Piece};

verus! {

impl Piece {
    /// Offer `to` as a destination: append it unless it lies off the board
    /// or holds a piece of this piece's own colour.  Returns whether the
    /// square is an on-board vacant square, through which a ray may
    /// continue.
    pub fn slide(&self, to: [isize; 2], board: &Board, moves: &mut Vec<[usize; 2]>) -> (r: bool)
        requires
            board.wf(),
        ensures
            appended_coords(
                final(moves)@,
                old(moves)@,
                step_seq(board@.squares, to@[0] as int, to@[1] as int, color_of(*self)),
            ),
            r == step_open(board@.squares, to@[0] as int, to@[1] as int),
    {
        let x = to[0];
        let y = to[1];
        if x < 0 || y < 0 || x > 7 || y > 7 {
            return false;
        }
        let p = board.get_piece(x as usize, y as usize);
        if p.color() != self.color() {
            moves.push([x as usize, y as usize]);
        }
        p.is_none()
    }

    /// Cast a ray from file `x`, rank `y` in direction `(dx, dy)`,
    /// appending destinations until the board edge or the first occupied
    /// square (included exactly when it holds the other colour).
    pub fn slide_to_wall(
        &self,
        x: isize,
        y: isize,
        dx: isize,
        dy: isize,
        board: &Board,
        moves: &mut Vec<[usize; 2]>,
    )
        requires
            board.wf(),
            0 <= x < 8,
            0 <= y < 8,
            -1 <= dx <= 1,
            -1 <= dy <= 1,
        ensures
            appended_coords(
                final(moves)@,
                old(moves)@,
                ray_seq(board@.squares, x as int, y as int, dx as int, dy as int, color_of(*self)),
            ),
        decreases ray_fuel(x as int, dx as int) + ray_fuel(y as int, dy as int),
    {
        let ghost c = color_of(*self);
        let ghost whole = ray_seq(board@.squares, x as int, y as int, dx as int, dy as int, c);
        if dx == 0 && dy == 0 {
            return;
        }
        let nx = x + dx;
        let ny = y + dy;
        if nx < 0 || ny < 0 || nx > 7 || ny > 7 {
            return;
        }
        let ghost m0 = moves@;
        let ghost here: Seq<int> = if color_of(
            board@.squares[sq_of(nx as int, ny as int)],
        ) != c {
            seq![sq_of(nx as int, ny as int)]
        } else {
            Seq::empty()
        };
        let p = board.get_piece(nx as usize, ny as usize);
        if p.color() != self.color() {
            moves.push([nx as usize, ny as usize]);
        }
        proof {
            assert(appended_coords(moves@, m0, here));
        }
        if p.is_none() {
            let ghost m1 = moves@;
            self.slide_to_wall(nx, ny, dx, dy, board, moves);
            proof {
                let rest = ray_seq(
                    board@.squares,
                    nx as int,
                    ny as int,
                    dx as int,
                    dy as int,
                    c,
                );
                lemma_appended_coords_compose(m0, m1, moves@, here, rest);
                assert(whole == here + rest);
            }
        } else {
            proof {
                assert(whole == here);
                assert(appended_coords(moves@, m0, whole));
            }
        }
    }

    /// Cast one ray and extend the accumulated square sequence, for use in
    /// `legal_moves`.
    fn ray_step(
        &self,
        x: isize,
        y: isize,
        dx: isize,
        dy: isize,
        board: &Board,
        moves: &mut Vec<[usize; 2]>,
        Ghost(acc): Ghost<Seq<int>>,
    ) -> (newacc: Ghost<Seq<int>>)
        requires
            board.wf(),
            0 <= x < 8,
            0 <= y < 8,
            -1 <= dx <= 1,
            -1 <= dy <= 1,
            appended_coords(old(moves)@, Seq::empty(), acc),
        ensures
            newacc@ == acc + ray_seq(
                board@.squares,
                x as int,
                y as int,
                dx as int,
                dy as int,
                color_of(*self),
            ),
            appended_coords(final(moves)@, Seq::empty(), newacc@),
    {
        let ghost m0 = moves@;
        self.slide_to_wall(x, y, dx, dy, board, moves);
        let ghost ray = ray_seq(
            board@.squares,
            x as int,
            y as int,
            dx as int,
            dy as int,
            color_of(*self),
        );
        proof {
            lemma_appended_coords_compose(Seq::empty(), m0, moves@, acc, ray);
        }
        Ghost(acc + ray)
    }

    /// Offer one single-step destination and extend the accumulated square
    /// sequence, for use in `legal_moves`.  Returns whether the square is
    /// an on-board vacant square.
    fn one_step(
        &self,
        x: isize,
        y: isize,
        board: &Board,
        moves: &mut Vec<[usize; 2]>,
        Ghost(acc): Ghost<Seq<int>>,
    ) -> (r: (bool, Ghost<Seq<int>>))
        requires
            board.wf(),
            appended_coords(old(moves)@, Seq::empty(), acc),
        ensures
            r.1@ == acc + step_seq(board@.squares, x as int, y as int, color_of(*self)),
            appended_coords(final(moves)@, Seq::empty(), r.1@),
            r.0 == step_open(board@.squares, x as int, y as int),
    {
        let ghost m0 = moves@;
        let open_square = self.slide([x, y], board, moves);
        let ghost step = step_seq(board@.squares, x as int, y as int, color_of(*self));
        proof {
            lemma_appended_coords_compose(Seq::empty(), m0, moves@, acc, step);
        }
        (open_square, Ghost(acc + step))
    }

    /// Append the four orthogonal rays cast from file `ux`, rank `uy`.
    fn rook_rays_into(
        &self,
        ux: usize,
        uy: usize,
        board: &Board,
        moves: &mut Vec<[usize; 2]>,
        Ghost(acc): Ghost<Seq<int>>,
    ) -> (newacc: Ghost<Seq<int>>)
        requires
            board.wf(),
            ux < 8,
            uy < 8,
            appended_coords(old(moves)@, Seq::empty(), acc),
        ensures
            newacc@ == acc + rook_rays(board@.squares, ux as int, uy as int, color_of(*self)),
            appended_coords(final(moves)@, Seq::empty(), newacc@),
    {
        let x = ux as isize;
        let y = uy as isize;
        let mut a: Ghost<Seq<int>> = Ghost(acc);
        a = self.ray_step(x, y, -1, 0, board, moves, a);
        a = self.ray_step(x, y, 1, 0, board, moves, a);
        a = self.ray_step(x, y, 0, -1, board, moves, a);
        a = self.ray_step(x, y, 0, 1, board, moves, a);
        proof {
            assert(a@ =~= acc + rook_rays(board@.squares, ux as int, uy as int, color_of(*self)));
        }
        a
    }

    /// Append the four diagonal rays cast from file `ux`, rank `uy`.
    fn bishop_rays_into(
        &self,
        ux: usize,
        uy: usize,
        board: &Board,
        moves: &mut Vec<[usize; 2]>,
        Ghost(acc): Ghost<Seq<int>>,
    ) -> (newacc: Ghost<Seq<int>>)
        requires
            board.wf(),
            ux < 8,
            uy < 8,
            appended_coords(old(moves)@, Seq::empty(), acc),
        ensures
            newacc@ == acc + bishop_rays(board@.squares, ux as int, uy as int, color_of(*self)),
            appended_coords(final(moves)@, Seq::empty(), newacc@),
    {
        let x = ux as isize;
        let y = uy as isize;
        let mut a: Ghost<Seq<int>> = Ghost(acc);
        a = self.ray_step(x, y, -1, -1, board, moves, a);
        a = self.ray_step(x, y, 1, 1, board, moves, a);
        a = self.ray_step(x, y, 1, -1, board, moves, a);
        a = self.ray_step(x, y, -1, 1, board, moves, a);
        proof {
            assert(a@ =~= acc + bishop_rays(
                board@.squares,
                ux as int,
                uy as int,
                color_of(*self),
            ));
        }
        a
    }

    /// The four orthogonal rays of a rook at file `ux`, rank `uy`.
    fn rook_moves(&self, ux: usize, uy: usize, board: &Board) -> (moves: Vec<[usize; 2]>)
        requires
            board.wf(),
            ux < 8,
            uy < 8,
        ensures
            coords_match(moves@, rook_rays(board@.squares, ux as int, uy as int, color_of(*self))),
    {
        let mut moves: Vec<[usize; 2]> = Vec::new();
        let acc = self.rook_rays_into(ux, uy, board, &mut moves, Ghost(Seq::empty()));
        proof {
            assert(acc@ =~= rook_rays(board@.squares, ux as int, uy as int, color_of(*self)));
            lemma_appended_coords_match(moves@, acc@);
        }
        moves
    }

    /// The four diagonal rays of a bishop at file `ux`, rank `uy`.
    fn bishop_moves(&self, ux: usize, uy: usize, board: &Board) -> (moves: Vec<[usize; 2]>)
        requires
            board.wf(),
            ux < 8,
            uy < 8,
        ensures
            coords_match(
                moves@,
                bishop_rays(board@.squares, ux as int, uy as int, color_of(*self)),
            ),
    {
        let mut moves: Vec<[usize; 2]> = Vec::new();
        let acc = self.bishop_rays_into(ux, uy, board, &mut moves, Ghost(Seq::empty()));
        proof {
            assert(acc@ =~= bishop_rays(board@.squares, ux as int, uy as int, color_of(*self)));
            lemma_appended_coords_match(moves@, acc@);
        }
        moves
    }

    /// A queen's rays: the rook's four, then the bishop's four.
    fn queen_moves(&self, ux: usize, uy: usize, board: &Board) -> (moves: Vec<[usize; 2]>)
        requires
            board.wf(),
            ux < 8,
            uy < 8,
        ensures
            coords_match(
                moves@,
                rook_rays(board@.squares, ux as int, uy as int, color_of(*self)) + bishop_rays(
                    board@.squares,
                    ux as int,
                    uy as int,
                    color_of(*self),
                ),
            ),
    {
        let mut moves: Vec<[usize; 2]> = Vec::new();
        let mut acc: Ghost<Seq<int>> = Ghost(Seq::empty());
        acc = self.rook_rays_into(ux, uy, board, &mut moves, acc);
        acc = self.bishop_rays_into(ux, uy, board, &mut moves, acc);
        proof {
            assert(acc@ =~= rook_rays(board@.squares, ux as int, uy as int, color_of(*self))
                + bishop_rays(board@.squares, ux as int, uy as int, color_of(*self)));
            lemma_appended_coords_match(moves@, acc@);
        }
        moves
    }

    /// A knight's eight destinations.
    fn knight_moves(&self, ux: usize, uy: usize, board: &Board) -> (moves: Vec<[usize; 2]>)
        requires
            board.wf(),
            ux < 8,
            uy < 8,
        ensures
            coords_match(moves@, knight_seq(board@.squares, ux as int, uy as int, color_of(*self))),
    {
        let x = ux as isize;
        let y = uy as isize;
        let mut moves: Vec<[usize; 2]> = Vec::new();
        let mut acc: Ghost<Seq<int>> = Ghost(Seq::empty());
        acc = self.one_step(x + 2, y + 1, board, &mut moves, acc).1;
        acc = self.one_step(x + 2, y - 1, board, &mut moves, acc).1;
        acc = self.one_step(x - 2, y + 1, board, &mut moves, acc).1;
        acc = self.one_step(x - 2, y - 1, board, &mut moves, acc).1;
        acc = self.one_step(x + 1, y + 2, board, &mut moves, acc).1;
        acc = self.one_step(x - 1, y + 2, board, &mut moves, acc).1;
        acc = self.one_step(x + 1, y - 2, board, &mut moves, acc).1;
        acc = self.one_step(x - 1, y - 2, board, &mut moves, acc).1;
        proof {
            assert(acc@ =~= knight_seq(board@.squares, ux as int, uy as int, color_of(*self)));
            lemma_appended_coords_match(moves@, acc@);
        }
        moves
    }

    /// A king's destinations: the eight neighbours, then the conditional
    /// castling probes.
    #[verifier::rlimit(100)]
    fn king_moves(&self, ux: usize, uy: usize, board: &Board) -> (moves: Vec<[usize; 2]>)
        requires
            board.wf(),
            ux < 8,
            uy < 8,
        ensures
            coords_match(moves@, king_seq(board@, *self, ux as int, uy as int)),
    {
        let x = ux as isize;
        let y = uy as isize;
        let mut moves: Vec<[usize; 2]> = Vec::new();
        let mut acc: Ghost<Seq<int>> = Ghost(Seq::empty());
        acc = self.one_step(x + 1, y + 1, board, &mut moves, acc).1;
        let r2 = self.one_step(x + 1, y, board, &mut moves, acc);
        let gone_right = r2.0;
        acc = r2.1;
        acc = self.one_step(x + 1, y - 1, board, &mut moves, acc).1;
        acc = self.one_step(x, y + 1, board, &mut moves, acc).1;
        acc = self.one_step(x, y - 1, board, &mut moves, acc).1;
        acc = self.one_step(x - 1, y + 1, board, &mut moves, acc).1;
        let r7 = self.one_step(x - 1, y, board, &mut moves, acc);
        let gone_left = r7.0;
        acc = r7.1;
        acc = self.one_step(x - 1, y - 1, board, &mut moves, acc).1;
        if !board.piece_has_moved(ux, uy) {
            if gone_right && !board.piece_has_moved(7, uy) {
                acc = self.one_step(x + 2, y, board, &mut moves, acc).1;
            }
            if gone_left && !board.piece_has_moved(0, uy) && board.get_piece(1, uy).is_none() {
                acc = self.one_step(x - 2, y, board, &mut moves, acc).1;
            }
        }
        proof {
            assert(acc@ =~= king_seq(board@, *self, ux as int, uy as int));
            lemma_appended_coords_match(moves@, acc@);
        }
        moves
    }

    /// A pawn's destinations: the single and double advance, then the left
    /// and the right diagonal capture, en passant included.
    #[verifier::rlimit(100)]
    fn pawn_moves(&self, ux: usize, uy: usize, board: &Board) -> (moves: Vec<[usize; 2]>)
        requires
            board.wf(),
            ux < 8,
            uy < 8,
        ensures
            coords_match(moves@, pawn_seq(board@, *self, ux as int, uy as int)),
    {
        let ghost m = board@;
        let x = ux as isize;
        let y = uy as isize;
        let mut moves: Vec<[usize; 2]> = Vec::new();
        let mut acc: Ghost<Seq<int>> = Ghost(Seq::empty());
        let is_w = self.is_white();
        let dyi: isize = if is_w {
            -1
        } else {
            1
        };
        let ny = y + dyi;
        if ny >= 0 && ny <= 7 && board.get_piece(ux, ny as usize).is_none() {
            moves.push([ux, ny as usize]);
            proof {
                assert(appended_coords(
                    moves@,
                    Seq::empty(),
                    acc@ + seq![sq_of(ux as int, ny as int)],
                ));
                acc@ = acc@ + seq![sq_of(ux as int, ny as int)];
            }
            let home: usize = if is_w {
                6
            } else {
                1
            };
            if uy == home {
                let y2 = (y + 2 * dyi) as usize;
                if board.get_piece(ux, y2).is_none() {
                    moves.push([ux, y2]);
                    proof {
                        assert(appended_coords(
                            moves@,
                            Seq::empty(),
                            acc@ + seq![sq_of(ux as int, y2 as int)],
                        ));
                        acc@ = acc@ + seq![sq_of(ux as int, y2 as int)];
                    }
                }
            }
        }
        let en = self.ennemy();
        let lm = board.get_last_move();
        if ux > 0 && ny >= 0 && ny <= 7 {
            let diag = board.get_piece(ux - 1, ny as usize);
            let beside = board.get_piece(ux - 1, uy);
            let start_row = y + 2 * dyi;
            let ep_ok = beside.kind() == Piece::Pawn && beside.color() == en && start_row >= 0
                && lm[0] == (start_row * 8 + x - 1) as usize && lm[1] == (y * 8 + x - 1) as usize;
            proof {
                assert(ep_ok == (kind_of(m.squares[sq_of(ux as int - 1, uy as int)]) == Piece::Pawn
                    && color_of(m.squares[sq_of(ux as int - 1, uy as int)]) == enemy_of(*self)
                    && m.last_from == sq_of(ux as int - 1, uy as int + 2 * pawn_dir(*self))
                    && m.last_to == sq_of(ux as int - 1, uy as int)));
            }
            if diag.color() == en || (diag.is_none() && ep_ok) {
                moves.push([ux - 1, ny as usize]);
                proof {
                    assert(appended_coords(
                        moves@,
                        Seq::empty(),
                        acc@ + seq![sq_of(ux as int - 1, ny as int)],
                    ));
                    acc@ = acc@ + seq![sq_of(ux as int - 1, ny as int)];
                }
            }
        }
        if ux < 7 && ny >= 0 && ny <= 7 {
            let diag = board.get_piece(ux + 1, ny as usize);
            let beside = board.get_piece(ux + 1, uy);
            let start_row = y + 2 * dyi;
            let ep_ok = beside.kind() == Piece::Pawn && beside.color() == en && start_row >= 0
                && lm[0] == (start_row * 8 + x + 1) as usize && lm[1] == (y * 8 + x + 1) as usize;
            proof {
                assert(ep_ok == (kind_of(m.squares[sq_of(ux as int + 1, uy as int)]) == Piece::Pawn
                    && color_of(m.squares[sq_of(ux as int + 1, uy as int)]) == enemy_of(*self)
                    && m.last_from == sq_of(ux as int + 1, uy as int + 2 * pawn_dir(*self))
                    && m.last_to == sq_of(ux as int + 1, uy as int)));
            }
            if diag.color() == en || (diag.is_none() && ep_ok) {
                moves.push([ux + 1, ny as usize]);
                proof {
                    assert(appended_coords(
                        moves@,
                        Seq::empty(),
                        acc@ + seq![sq_of(ux as int + 1, ny as int)],
                    ));
                    acc@ = acc@ + seq![sq_of(ux as int + 1, ny as int)];
                }
            }
        }
        proof {
            assert(acc@ =~= pawn_seq(board@, *self, ux as int, uy as int));
            lemma_appended_coords_match(moves@, acc@);
        }
        moves
    }

    /// The pseudo-legal destinations of this piece standing on `pos`
    /// (`[file, rank]`), honouring occupancy and bounds but not king
    /// safety: exactly the squares of [`pseudo_seq_p`], in generation
    /// order, as coordinate pairs.
    pub fn legal_moves(&self, pos: [usize; 2], board: &Board) -> (moves: Vec<[usize; 2]>)
        requires
            board.wf(),
            pos@[0] < 8,
            pos@[1] < 8,
        ensures
            coords_match(
                moves@,
                pseudo_seq_p(board@, *self, sq_of(pos@[0] as int, pos@[1] as int)),
            ),
    {
        let ux = pos[0];
        let uy = pos[1];
        let ghost from = sq_of(ux as int, uy as int);
        proof {
            assert(file_of(from) == ux as int && rank_of(from) == uy as int) by (nonlinear_arith)
                requires
                    ux < 8,
                    uy < 8,
                    from == uy as int * 8 + ux as int,
            ;
        }
        match self.kind() {
            Piece::Rook => self.rook_moves(ux, uy, board),
            Piece::Bishop => self.bishop_moves(ux, uy, board),
            Piece::Queen => self.queen_moves(ux, uy, board),
            Piece::King => self.king_moves(ux, uy, board),
            Piece::Pawn => self.pawn_moves(ux, uy, board),
            Piece::LeftKnight => self.knight_moves(ux, uy, board),
            Piece::RightKnight => self.knight_moves(ux, uy, board),
            _ => Vec::new(),
        }
    }
}

} // verus!
