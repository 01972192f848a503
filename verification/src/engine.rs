//! The check detector, the king-safety legality filter with its per-origin
//! cache, the move executor, and the game-status evaluator.
//!
//! The dependency direction demanded by the design is enforced here by the
//! two generator entry points: `is_check` consults only the raw pseudo-legal
//! generator and never the legality filter, while the filter simulates each
//! candidate on a scratch board and asks `is_check` about the outcome.

use vstd::prelude::*;

use crate::board::{Board, Status};
use crate::model::{idxs_match, pseudo_seq, sq_of, BoardModel};
use crate::piece::{color_of, combine_of, enemy_of, is_full_piece, kind_of, Piece};

verus! {

/// Remove one occurrence of `sq` from the location list of code `c`.
fn locs_remove(lists: &mut Vec<Vec<usize>>, c: usize, sq: usize)
    requires
        c < old(lists)@.len(),
        old(lists)@[c as int]@.contains(sq),
        forall|j1: int, j2: int|
            0 <= j1 < j2 < old(lists)@[c as int]@.len() ==> #[trigger] old(lists)@[c as int]@[j1] != #[trigger] old(lists)@[c as int]@[j2],
    ensures
        final(lists)@.len() == old(lists)@.len(),
        forall|k: int|
            0 <= k < old(lists)@.len() && k != c ==> #[trigger] final(lists)@[k] == old(lists)@[k],
        forall|x: usize|
            #[trigger] final(lists)@[c as int]@.contains(x) <==> (old(lists)@[c as int]@.contains(x) && x != sq),
        forall|j1: int, j2: int|
            0 <= j1 < j2 < final(lists)@[c as int]@.len() ==> #[trigger] final(lists)@[c as int]@[j1] != #[trigger] final(lists)@[c as int]@[j2],
{
    let ghost olist = lists@[c as int]@;
    let n = lists[c].len();
    let mut i: usize = 0;
    while i < n && lists[c][i] != sq
        invariant
            n == olist.len(),
            i <= n,
            c < lists@.len(),
            lists@[c as int]@ == olist,
            olist.contains(sq),
            forall|j: int| 0 <= j < i ==> #[trigger] olist[j] != sq,
        decreases n - i,
    {
        i = i + 1;
    }
    proof {
        if i >= n {
            let w = choose|w: int| 0 <= w < olist.len() && olist[w] == sq;
            assert(olist[w] != sq);
            assert(false);
        }
        assert(olist[i as int] == sq);
    }
    let _ = lists[c].remove(i);
    proof {
        let nlist = lists@[c as int]@;
        assert(nlist == olist.subrange(0, i as int) + olist.subrange(
            i as int + 1,
            olist.len() as int,
        ));
        assert forall|x: usize| #[trigger] nlist.contains(x) implies (olist.contains(x) && x
            != sq) by {
            let j = choose|j: int| 0 <= j < nlist.len() && nlist[j] == x;
            if j < i {
                assert(olist[j] == x);
            } else {
                assert(olist[j + 1] == x);
            }
        }
        assert forall|x: usize| olist.contains(x) && x != sq implies #[trigger] nlist.contains(
            x,
        ) by {
            let j = choose|j: int| 0 <= j < olist.len() && olist[j] == x;
            if j < i {
                assert(nlist[j] == x);
            } else {
                assert(j != i);
                assert(nlist[j - 1] == olist[j]);
            }
        }
    }
}

/// Append `sq` to the location list of code `c`.
fn locs_push(lists: &mut Vec<Vec<usize>>, c: usize, sq: usize)
    requires
        c < old(lists)@.len(),
        !old(lists)@[c as int]@.contains(sq),
        forall|j1: int, j2: int|
            0 <= j1 < j2 < old(lists)@[c as int]@.len() ==> #[trigger] old(lists)@[c as int]@[j1]
                != #[trigger] old(lists)@[c as int]@[j2],
    ensures
        forall|j1: int, j2: int|
            0 <= j1 < j2 < final(lists)@[c as int]@.len() ==> #[trigger] final(lists)@[c as int]@[j1]
                != #[trigger] final(lists)@[c as int]@[j2],
        final(lists)@.len() == old(lists)@.len(),
        forall|k: int|
            0 <= k < old(lists)@.len() && k != c ==> #[trigger] final(lists)@[k] == old(lists)@[k],
        final(lists)@[c as int]@ == old(lists)@[c as int]@.push(sq),
        forall|x: usize|
            #[trigger] final(lists)@[c as int]@.contains(x) <==> (old(lists)@[c as int]@.contains(x) || x == sq),
{
    let ghost olist = lists@[c as int]@;
    lists[c].push(sq);
    proof {
        let nlist = lists@[c as int]@;
        assert forall|j1: int, j2: int|
            0 <= j1 < j2 < nlist.len() implies #[trigger] nlist[j1] != #[trigger] nlist[j2] by {
            if j2 == nlist.len() - 1 {
                assert(nlist[j1] == olist[j1]);
                assert(olist.contains(olist[j1]));
            }
        }
        assert forall|x: usize| #[trigger] nlist.contains(x) implies (olist.contains(x) || x
            == sq) by {
            let j = choose|j: int| 0 <= j < nlist.len() && nlist[j] == x;
            if j < olist.len() {
                assert(olist[j] == x);
            }
        }
        assert forall|x: usize| olist.contains(x) || x == sq implies #[trigger] nlist.contains(
            x,
        ) by {
            if x == sq {
                assert(nlist[olist.len() as int] == sq);
            } else {
                let j = choose|j: int| 0 <= j < olist.len() && olist[j] == x;
                assert(nlist[j] == x);
            }
        }
    }
}

impl Board {
    /// The raw pseudo-legal destinations of the piece on `square_index`,
    /// as coordinate pairs.
    fn get_sub_legal_moves(&self, square_index: usize) -> (r: Vec<[usize; 2]>)
        requires
            self.wf(),
            square_index < 64,
        ensures
            crate::model::coords_match(r@, pseudo_seq(self@, square_index as int)),
    {
        let x = square_index % 8;
        let y = square_index / 8;
        proof {
            assert(sq_of(x as int, y as int) == square_index as int);
        }
        let p = self.get_piece(x, y);
        p.legal_moves([x, y], self)
    }

    /// The raw pseudo-legal destinations of the piece on `square_index`,
    /// as square indices.
    fn get_sub_legal_moves_square_indices(&self, square_index: usize) -> (r: Vec<usize>)
        requires
            self.wf(),
            square_index < 64,
        ensures
            idxs_match(r@, pseudo_seq(self@, square_index as int)),
    {
        let coords = self.get_sub_legal_moves(square_index);
        let ghost s = pseudo_seq(self@, square_index as int);
        let mut r: Vec<usize> = Vec::new();
        let n = coords.len();
        let mut i: usize = 0;
        while i < n
            invariant
                n == coords@.len(),
                crate::model::coords_match(coords@, s),
                i <= n,
                r@.len() == i,
                forall|j: int| 0 <= j < i ==> #[trigger] r@[j] as int == s[j],
            decreases n - i,
        {
            let m = coords[i];
            r.push(m[1] * 8 + m[0]);
            i = i + 1;
        }
        r
    }

    /// Whether the king of the given colour is attacked by any pseudo-legal
    /// move of the other colour's pieces.  This consults the raw generator
    /// only, never the legality filter.
    pub fn is_check(&self, color: Piece) -> (r: bool)
        requires
            self.wf(),
            color == Piece::White || color == Piece::Black,
        ensures
            r == crate::model::in_check(self@, color),
    {
        let king_piece = Piece::King.combine(color);
        let code = king_piece.code();
        proof {
            self.reveal_wf();
            self.reveal_view();
            let s = choose|s: int| 0 <= s < 64 && self@.squares[s] == king_piece;
            assert(self.locs(code as int).contains(s as usize));
        }
        let king_sq = self.locations_first(code);
        proof {
            crate::piece::lemma_code_injective(self@.squares[king_sq as int], king_piece);
            assert(king_sq as int == crate::model::king_square(self@, color));
        }
        let enemy = if color == Piece::White {
            Piece::Black
        } else {
            Piece::White
        };
        let ghost kq = king_sq as int;
        let mut sq: usize = 0;
        let mut found = false;
        while sq < 64
            invariant
                self.wf(),
                color == Piece::White || color == Piece::Black,
                enemy == enemy_of(color),
                kq == crate::model::king_square(self@, color),
                king_sq as int == kq,
                sq <= 64,
                found == exists|s: int|
                    0 <= s < sq && color_of(self@.squares[s]) == enemy_of(color) && pseudo_seq(
                        self@,
                        s,
                    ).contains(kq),
            decreases 64 - sq,
        {
            let x = sq % 8;
            let y = sq / 8;
            let p = self.get_piece(x, y);
            proof {
                assert(sq_of(x as int, y as int) == sq as int);
            }
            if p.color() == enemy {
                let targets = self.get_sub_legal_moves_square_indices(sq);
                let n = targets.len();
                let mut j: usize = 0;
                let mut hit = false;
                while j < n
                    invariant
                        n == targets@.len(),
                        j <= n,
                        hit == exists|k: int| 0 <= k < j && targets@[k] == king_sq,
                    decreases n - j,
                {
                    if targets[j] == king_sq {
                        hit = true;
                    }
                    j = j + 1;
                }
                proof {
                    let s = pseudo_seq(self@, sq as int);
                    if hit {
                        let k = choose|k: int| 0 <= k < n && targets@[k] == king_sq;
                        assert(s[k] == kq);
                        assert(s.contains(kq));
                    } else {
                        if s.contains(kq) {
                            let k = choose|k: int| 0 <= k < s.len() && s[k] == kq;
                            assert(targets@[k] == king_sq);
                            assert(false);
                        }
                    }
                }
                if hit {
                    found = true;
                }
            }
            sq = sq + 1;
        }
        found
    }


    /// A fresh, fully invalidated legal-move cache.
    fn fresh_cache() -> (r: Vec<Option<Vec<usize>>>)
        ensures
            r@.len() == 64,
            forall|k: int| 0 <= k < 64 ==> #[trigger] r@[k] is None,
    {
        let mut cache: Vec<Option<Vec<usize>>> = Vec::new();
        let mut i: usize = 0;
        while i < 64
            invariant
                i <= 64,
                cache@.len() == i,
                forall|k: int| 0 <= k < i ==> #[trigger] cache@[k] is None,
            decreases 64 - i,
        {
            cache.push(Option::None);
            i = i + 1;
        }
        cache
    }

    /// The executor's steps preserve the representation invariant.  The
    /// hypotheses record exactly how the final board's fields relate to
    /// the old board's: the square and mark deltas, and a membership
    /// characterisation of each location list the move touched.
    #[verifier::rlimit(100)]
    #[verifier::spinoff_prover]
    proof fn lemma_inv_after_move(
        bold: Board,
        bfin: Board,
        from: usize,
        to: usize,
        p: Piece,
        target: Piece,
        little: bool,
        big: bool,
        ep: bool,
        promo: bool,
        code_p: usize,
        code_t: usize,
        code_r: usize,
        code_v: usize,
        corner: usize,
        dest: usize,
        victim: usize,
    )
        requires
            bold.inv(),
            from < 64,
            to < 64,
            from != to,
            p == bold.pieces@[from as int],
            is_full_piece(p),
            target == bold.pieces@[to as int],
            kind_of(target) != Piece::King,
            color_of(target) != color_of(p),
            little == (kind_of(p) == Piece::King && to == from + 2),
            big == (kind_of(p) == Piece::King && to + 2 == from),
            ep == (kind_of(p) == Piece::Pawn && to % 8 != from % 8 && target == Piece::Empty),
            promo == (kind_of(p) == Piece::Pawn && (to / 8 == 0 || to / 8 == 7)),
            code_p == crate::piece::code_of(p) && code_p < 24,
            target != Piece::Empty ==> code_t == crate::piece::code_of(target) && code_t < 24
                && code_t != code_p,
            little || big ==> corner as int == (if little {
                from + 3
            } else {
                from - 4
            }) && dest as int == (if little {
                from + 1
            } else {
                from - 1
            }) && (from == 60 || from == 4),
            little || big ==> bold.pieces@[corner as int] == combine_of(
                Piece::Rook,
                color_of(p),
            ) && bold.pieces@[dest as int] == Piece::Empty,
            little || big ==> code_r == crate::piece::code_of(
                combine_of(Piece::Rook, color_of(p)),
            ) && code_r < 24 && code_r != code_p && (target != Piece::Empty ==> code_r != code_t),
            ep ==> 0 <= victim < 64 && victim != from && victim != to,
            ep ==> kind_of(bold.pieces@[victim as int]) == Piece::Pawn && color_of(
                bold.pieces@[victim as int],
            ) == enemy_of(p),
            ep ==> code_v == crate::piece::code_of(bold.pieces@[victim as int]) && code_v < 24
                && code_v != code_p,
            bfin.locations@.len() == 24,
            forall|k: int|
                0 <= k < 24 && k != code_p && !(target != Piece::Empty && k == code_t) && !((
                little || big) && k == code_r) && !(ep && k == code_v)
                    ==> #[trigger] bfin.locations@[k] == bold.locations@[k],
            forall|x: usize|
                #[trigger] bfin.locations@[code_p as int]@.contains(x) <==> (if promo {
                    bold.locations@[code_p as int]@.contains(x) && x != from && x != to
                } else {
                    (bold.locations@[code_p as int]@.contains(x) && x != from) || x == to
                }),
            target != Piece::Empty ==> forall|x: usize|
                #[trigger] bfin.locations@[code_t as int]@.contains(x) <==> (
                bold.locations@[code_t as int]@.contains(x) && x != to),
            little || big ==> forall|x: usize|
                #[trigger] bfin.locations@[code_r as int]@.contains(x) <==> ((
                bold.locations@[code_r as int]@.contains(x) && x != corner) || x == dest),
            ep ==> forall|x: usize|
                #[trigger] bfin.locations@[code_v as int]@.contains(x) <==> (
                bold.locations@[code_v as int]@.contains(x) && x != victim),
            forall|c: int, j1: int, j2: int|
                0 <= c < 24 && 0 <= j1 < j2 < bfin.locations@[c]@.len()
                    ==> #[trigger] bfin.locations@[c]@[j1] != #[trigger] bfin.locations@[c]@[j2],
            bfin.pieces@.len() == 64,
            forall|s: int|
                0 <= s < 64 && s != from && s != to && !((little || big) && (s == corner || s
                    == dest)) && !(ep && s == victim) ==> #[trigger] bfin.pieces@[s]
                    == bold.pieces@[s],
            bfin.pieces@[from as int] == Piece::Empty,
            bfin.pieces@[to as int] == (if promo {
                Piece::Empty
            } else {
                p
            }),
            little || big ==> bfin.pieces@[dest as int] == combine_of(Piece::Rook, color_of(p))
                && bfin.pieces@[corner as int] == Piece::Empty,
            ep ==> bfin.pieces@[victim as int] == Piece::Empty,
            bfin.moved@.len() == 64,
            forall|s: int|
                0 <= s < 64 && s != from && s != to && !((little || big) && s == corner) && !(ep
                    && s == victim) ==> #[trigger] bfin.moved@[s] == bold.moved@[s],
            bfin.moved@[from as int],
            bfin.moved@[to as int],
            little || big ==> bfin.moved@[corner as int],
            ep ==> bfin.moved@[victim as int],
            bfin.cache@.len() == 64,
            forall|k: int| 0 <= k < 64 ==> #[trigger] bfin.cache@[k] is None,
            bfin.current_turn == (if promo {
                bold.current_turn
            } else {
                enemy_of(bold.current_turn)
            }),
            bfin.square_in_promotion == (if promo {
                Option::Some(to)
            } else {
                bold.square_in_promotion
            }),
        ensures
            bfin.inv(),
    {
        let ghost olocs = bold.locations@;
        assert forall|c: int, x: usize|
            0 <= c < 24 && #[trigger] olocs[c]@.contains(x) implies x < 64 && is_full_piece(
            bold.pieces@[x as int],
        ) && crate::piece::code_of(bold.pieces@[x as int]) == c by {
            let j = choose|j: int| 0 <= j < olocs[c]@.len() && olocs[c]@[j] == x;
            assert(bold.locs(c)[j] == x);
        }
        let ghost rook_piece = combine_of(Piece::Rook, color_of(p));
        assert forall|c: int, j: int|
            0 <= c < 24 && 0 <= j < bfin.locs(c).len() implies #[trigger] bfin.locs(c)[j] < 64
                && is_full_piece(bfin.pieces@[bfin.locs(c)[j] as int]) && crate::piece::code_of(
            bfin.pieces@[bfin.locs(c)[j] as int],
        ) == c by {
            let x = bfin.locs(c)[j];
            assert(bfin.locs(c).contains(x));
            let untouched = c != code_p && !(target != Piece::Empty && c == code_t) && !((little
                || big) && c == code_r) && !(ep && c == code_v);
            if untouched {
                assert(bfin.locations@[c] == bold.locations@[c]);
                assert(olocs[c]@.contains(x));
                assert(x != from && x != to);
                if little || big {
                    assert(x != corner && x != dest);
                }
                if ep {
                    assert(x != victim);
                }
                assert(bfin.pieces@[x as int] == bold.pieces@[x as int]);
            } else {
                if c == code_p {
                    if promo {
                        assert(olocs[c]@.contains(x) && x != from && x != to);
                        if little || big {
                            assert(x != corner && x != dest);
                        }
                        if ep {
                            assert(x != victim);
                        }
                        assert(bfin.pieces@[x as int] == bold.pieces@[x as int]);
                    } else {
                        if x == to {
                            assert(bfin.pieces@[to as int] == p);
                        } else {
                            assert(olocs[c]@.contains(x) && x != from);
                            if little || big {
                                assert(x != corner && x != dest);
                            }
                            if ep {
                                assert(x != victim);
                            }
                            assert(bfin.pieces@[x as int] == bold.pieces@[x as int]);
                        }
                    }
                }
                if target != Piece::Empty && c == code_t {
                    assert(olocs[c]@.contains(x) && x != to);
                    assert(x != from);
                    if little || big {
                        assert(x != corner && x != dest);
                    }
                    assert(bfin.pieces@[x as int] == bold.pieces@[x as int]);
                }
                if (little || big) && c == code_r {
                    if x == dest {
                        assert(bfin.pieces@[dest as int] == rook_piece);
                    } else {
                        assert(olocs[c]@.contains(x) && x != corner);
                        assert(x != from && x != to);
                        assert(bfin.pieces@[x as int] == bold.pieces@[x as int]);
                    }
                }
                if ep && c == code_v {
                    assert(olocs[c]@.contains(x) && x != victim);
                    assert(x != from && x != to);
                    assert(bfin.pieces@[x as int] == bold.pieces@[x as int]);
                }
            }
        }
        assert forall|s: int|
            0 <= s < 64 && is_full_piece(#[trigger] bfin.pieces@[s]) implies bfin.locs(
            crate::piece::code_of(bfin.pieces@[s]),
        ).contains(s as usize) by {
            let q = bfin.pieces@[s];
            let cq = crate::piece::code_of(q);
            assert(0 <= cq < 24);
            if s == to && !promo {
                assert(q == p && cq == code_p);
                assert(bfin.locations@[code_p as int]@.contains(to));
            } else if (little || big) && s == dest {
                assert(q == rook_piece && cq == code_r);
                assert(bfin.locations@[code_r as int]@.contains(dest));
            } else {
                assert(s != from && s != to && !((little || big) && (s == corner || s == dest))
                    && !(ep && s == victim));
                assert(bold.pieces@[s] == q);
                assert(olocs[cq]@.contains(s as usize));
                if cq == code_p {
                    assert(s != from && s != to);
                    assert(bfin.locations@[code_p as int]@.contains(s as usize));
                } else if target != Piece::Empty && cq == code_t {
                    assert(s != to);
                    assert(bfin.locations@[code_t as int]@.contains(s as usize));
                } else if (little || big) && cq == code_r {
                    assert(s != corner);
                    assert(bfin.locations@[code_r as int]@.contains(s as usize));
                } else if ep && cq == code_v {
                    assert(s != victim);
                    assert(bfin.locations@[code_v as int]@.contains(s as usize));
                } else {
                    assert(bfin.locations@[cq] == bold.locations@[cq]);
                }
            }
        }
        {
            let ws = choose|s: int| 0 <= s < 64 && bold.pieces@[s] == Piece::WhiteKing;
            if p == Piece::WhiteKing {
                assert(bfin.pieces@[to as int] == Piece::WhiteKing);
            } else {
                assert(ws != from && ws != to);
                if little || big {
                    assert(ws != corner && ws != dest);
                }
                if ep {
                    assert(ws != victim);
                }
                assert(bfin.pieces@[ws] == Piece::WhiteKing);
            }
            let bs = choose|s: int| 0 <= s < 64 && bold.pieces@[s] == Piece::BlackKing;
            if p == Piece::BlackKing {
                assert(bfin.pieces@[to as int] == Piece::BlackKing);
            } else {
                assert(bs != from && bs != to);
                if little || big {
                    assert(bs != corner && bs != dest);
                }
                if ep {
                    assert(bs != victim);
                }
                assert(bfin.pieces@[bs] == Piece::BlackKing);
            }
        }
        assert(exists|s: int| 0 <= s < 64 && bfin.pieces@[s] == Piece::WhiteKing);
        assert(exists|s: int| 0 <= s < 64 && bfin.pieces@[s] == Piece::BlackKing);
        assert forall|s1: int, s2: int|
            0 <= s1 < 64 && 0 <= s2 < 64 && #[trigger] bfin.pieces@[s1] == Piece::WhiteKing
                && #[trigger] bfin.pieces@[s2] == Piece::WhiteKing implies s1 == s2 by {
            Self::lemma_king_source(bold, bfin, from, to, p, little, big, ep, promo, corner, dest,
                victim, s1, Piece::WhiteKing);
            Self::lemma_king_source(bold, bfin, from, to, p, little, big, ep, promo, corner, dest,
                victim, s2, Piece::WhiteKing);
        }
        assert forall|s1: int, s2: int|
            0 <= s1 < 64 && 0 <= s2 < 64 && #[trigger] bfin.pieces@[s1] == Piece::BlackKing
                && #[trigger] bfin.pieces@[s2] == Piece::BlackKing implies s1 == s2 by {
            Self::lemma_king_source(bold, bfin, from, to, p, little, big, ep, promo, corner, dest,
                victim, s1, Piece::BlackKing);
            Self::lemma_king_source(bold, bfin, from, to, p, little, big, ep, promo, corner, dest,
                victim, s2, Piece::BlackKing);
        }
        assert forall|s: int|
            0 <= s < 64 && crate::model::is_royal_home(s) && !bfin.moved@[s]
                implies #[trigger] bfin.pieces@[s] == crate::model::initial_piece(s) by {
            assert(s != from && s != to);
            if little || big {
                assert(s != corner);
                assert(dest == 61 || dest == 59 || dest == 5 || dest == 3);
                assert(s != dest);
            }
            if ep {
                assert(s != victim);
            }
            assert(bfin.pieces@[s] == bold.pieces@[s] && bfin.moved@[s] == bold.moved@[s]);
        }
        assert forall|s: int|
            0 <= s < 64 && #[trigger] bfin.pieces@[s] == Piece::WhiteKing && s != 60
                implies bfin.moved@[s] by {
            Self::lemma_king_source(bold, bfin, from, to, p, little, big, ep, promo, corner, dest,
                victim, s, Piece::WhiteKing);
            if s != to {
                assert(bold.pieces@[s] == Piece::WhiteKing);
                if bold.moved@[s] {
                    Self::lemma_moved_monotone(bold, bfin, from, to, little, big, ep, corner, victim, s);
                }
            }
        }
        assert forall|s: int|
            0 <= s < 64 && #[trigger] bfin.pieces@[s] == Piece::BlackKing && s != 4
                implies bfin.moved@[s] by {
            Self::lemma_king_source(bold, bfin, from, to, p, little, big, ep, promo, corner, dest,
                victim, s, Piece::BlackKing);
            if s != to {
                assert(bold.pieces@[s] == Piece::BlackKing);
                if bold.moved@[s] {
                    Self::lemma_moved_monotone(bold, bfin, from, to, little, big, ep, corner, victim, s);
                }
            }
        }
        assert(forall|s: int|
            0 <= s < 64 ==> crate::model::cache_entry_ok(bfin@, #[trigger] bfin.cache@[s], s));
    }

    /// A king on the final board stands where it stood on the old board,
    /// unless it is the mover's own king landing on the destination.
    proof fn lemma_king_source(
        bold: Board,
        bfin: Board,
        from: usize,
        to: usize,
        p: Piece,
        little: bool,
        big: bool,
        ep: bool,
        promo: bool,
        corner: usize,
        dest: usize,
        victim: usize,
        s: int,
        king: Piece,
    )
        requires
            0 <= s < 64,
            from < 64,
            to < 64,
            from != to,
            king == Piece::WhiteKing || king == Piece::BlackKing,
            bfin.pieces@.len() == 64,
            bold.pieces@.len() == 64,
            p == bold.pieces@[from as int],
            kind_of(bold.pieces@[to as int]) != Piece::King,
            little || big ==> bold.pieces@[corner as int] == combine_of(
                Piece::Rook,
                color_of(p),
            ) && bold.pieces@[dest as int] == Piece::Empty && corner < 64 && dest < 64,
            ep ==> victim < 64 && kind_of(bold.pieces@[victim as int]) == Piece::Pawn,
            forall|q: int|
                0 <= q < 64 && q != from && q != to && !((little || big) && (q == corner || q
                    == dest)) && !(ep && q == victim) ==> #[trigger] bfin.pieces@[q]
                    == bold.pieces@[q],
            bfin.pieces@[from as int] == Piece::Empty,
            bfin.pieces@[to as int] == (if promo {
                Piece::Empty
            } else {
                p
            }),
            little || big ==> bfin.pieces@[dest as int] == combine_of(Piece::Rook, color_of(p))
                && bfin.pieces@[corner as int] == Piece::Empty,
            ep ==> bfin.pieces@[victim as int] == Piece::Empty,
            bfin.pieces@[s] == king,
        ensures
            s == to ==> !promo && p == king,
            s != to ==> bold.pieces@[s] == king,
    {
    }

    /// The endpoint marks only grow: a square marked on the old board is
    /// marked on the final one.
    proof fn lemma_moved_monotone(
        bold: Board,
        bfin: Board,
        from: usize,
        to: usize,
        little: bool,
        big: bool,
        ep: bool,
        corner: usize,
        victim: usize,
        s: int,
    )
        requires
            0 <= s < 64,
            bold.moved@.len() == 64,
            bfin.moved@.len() == 64,
            from < 64,
            to < 64,
            forall|q: int|
                0 <= q < 64 && q != from && q != to && !((little || big) && q == corner) && !(ep
                    && q == victim) ==> #[trigger] bfin.moved@[q] == bold.moved@[q],
            bfin.moved@[from as int],
            bfin.moved@[to as int],
            little || big ==> bfin.moved@[corner as int],
            ep ==> bfin.moved@[victim as int],
            bold.moved@[s],
        ensures
            bfin.moved@[s],
    {
    }
}

/// The intermediate results of one executor run: the special-move
/// flags it detected, the piece codes and squares its index updates
/// touched, and whether it captured a piece.
struct MoveStep {
    ate: bool,
    little: bool,
    big: bool,
    ep: bool,
    promo: bool,
    code_p: usize,
    code_t: usize,
    code_r: usize,
    code_v: usize,
    corner: usize,
    dest: usize,
    victim: usize,
}


impl Board {
    /// The executor's board, mark, record and index updates: everything a
    /// committed move changes except the cache, which the caller clears.
    /// The contract describes every field of the outcome relative to the
    /// starting state, in the vocabulary of [`Board::lemma_inv_after_move`].
    #[verifier::rlimit(100)]
    #[verifier::spinoff_prover]
    fn move_step(&mut self, from: usize, to: usize) -> (d: MoveStep)
        requires
            old(self).inv(),
            old(self)@ == old(self).model(),
            from < 64,
            to < 64,
            is_full_piece(old(self).pieces@[from as int]),
            pseudo_seq(old(self).model(), from as int).contains(to as int),
            kind_of(old(self).pieces@[to as int]) != Piece::King,
        ensures
            ({
                let b0 = *old(self);
                let bfin = *final(self);
                let p = b0.pieces@[from as int];
                let target = b0.pieces@[to as int];
                &&& from != to
                &&& color_of(target) != color_of(p)
                &&& d.little == (kind_of(p) == Piece::King && to == from + 2)
                &&& d.big == (kind_of(p) == Piece::King && to + 2 == from)
                &&& d.ep == (kind_of(p) == Piece::Pawn && to % 8 != from % 8 && target
                    == Piece::Empty)
                &&& d.promo == (kind_of(p) == Piece::Pawn && (to / 8 == 0 || to / 8 == 7))
                &&& d.ate == crate::model::move_captures(b0.model(), from as int, to as int)
                &&& d.code_p == crate::piece::code_of(p) && d.code_p < 24
                &&& target != Piece::Empty ==> d.code_t == crate::piece::code_of(target)
                    && d.code_t < 24 && d.code_t != d.code_p
                &&& d.little || d.big ==> d.corner as int == (if d.little {
                    from + 3
                } else {
                    from - 4
                }) && d.dest as int == (if d.little {
                    from + 1
                } else {
                    from - 1
                }) && (from == 60 || from == 4)
                &&& d.little || d.big ==> b0.pieces@[d.corner as int] == combine_of(
                    Piece::Rook,
                    color_of(p),
                ) && b0.pieces@[d.dest as int] == Piece::Empty
                &&& d.little || d.big ==> d.code_r == crate::piece::code_of(
                    combine_of(Piece::Rook, color_of(p)),
                ) && d.code_r < 24 && d.code_r != d.code_p && (target != Piece::Empty
                    ==> d.code_r != d.code_t)
                &&& d.ep ==> d.victim as int == crate::model::ep_victim(from as int, to as int)
                    && 0 <= d.victim < 64 && d.victim != from && d.victim != to
                &&& d.ep ==> kind_of(b0.pieces@[d.victim as int]) == Piece::Pawn && color_of(
                    b0.pieces@[d.victim as int],
                ) == enemy_of(p)
                &&& d.ep ==> d.code_v == crate::piece::code_of(b0.pieces@[d.victim as int])
                    && d.code_v < 24 && d.code_v != d.code_p
                &&& bfin.locations@.len() == 24
                &&& forall|k: int|
                    0 <= k < 24 && k != d.code_p && !(target != Piece::Empty && k == d.code_t)
                        && !((d.little || d.big) && k == d.code_r) && !(d.ep && k == d.code_v)
                        ==> #[trigger] bfin.locations@[k] == b0.locations@[k]
                &&& forall|x: usize|
                    #[trigger] bfin.locations@[d.code_p as int]@.contains(x) <==> (if d.promo {
                        b0.locations@[d.code_p as int]@.contains(x) && x != from && x != to
                    } else {
                        (b0.locations@[d.code_p as int]@.contains(x) && x != from) || x == to
                    })
                &&& target != Piece::Empty ==> forall|x: usize|
                    #[trigger] bfin.locations@[d.code_t as int]@.contains(x) <==> (
                    b0.locations@[d.code_t as int]@.contains(x) && x != to)
                &&& d.little || d.big ==> forall|x: usize|
                    #[trigger] bfin.locations@[d.code_r as int]@.contains(x) <==> ((
                    b0.locations@[d.code_r as int]@.contains(x) && x != d.corner) || x == d.dest)
                &&& d.ep ==> forall|x: usize|
                    #[trigger] bfin.locations@[d.code_v as int]@.contains(x) <==> (
                    b0.locations@[d.code_v as int]@.contains(x) && x != d.victim)
                &&& forall|c: int, j1: int, j2: int|
                    0 <= c < 24 && 0 <= j1 < j2 < bfin.locations@[c]@.len()
                        ==> #[trigger] bfin.locations@[c]@[j1] != #[trigger] bfin.locations@[c]@[j2]
                &&& bfin.pieces@.len() == 64
                &&& forall|s: int|
                    0 <= s < 64 && s != from && s != to && !((d.little || d.big) && (s == d.corner
                        || s == d.dest)) && !(d.ep && s == d.victim) ==> #[trigger] bfin.pieces@[s]
                        == b0.pieces@[s]
                &&& bfin.pieces@[from as int] == Piece::Empty
                &&& bfin.pieces@[to as int] == (if d.promo {
                    Piece::Empty
                } else {
                    p
                })
                &&& d.little || d.big ==> bfin.pieces@[d.dest as int] == combine_of(
                    Piece::Rook,
                    color_of(p),
                ) && bfin.pieces@[d.corner as int] == Piece::Empty
                &&& d.ep ==> bfin.pieces@[d.victim as int] == Piece::Empty
                &&& bfin.moved@.len() == 64
                &&& forall|s: int|
                    0 <= s < 64 && s != from && s != to && !((d.little || d.big) && s == d.corner)
                        && !(d.ep && s == d.victim) ==> #[trigger] bfin.moved@[s] == b0.moved@[s]
                &&& bfin.moved@[from as int]
                &&& bfin.moved@[to as int]
                &&& d.little || d.big ==> bfin.moved@[d.corner as int]
                &&& d.ep ==> bfin.moved@[d.victim as int]
                &&& bfin.last_move@[0] == from && bfin.last_move@[1] == to
                &&& bfin.cache == b0.cache
                &&& bfin.current_turn == (if d.promo {
                    b0.current_turn
                } else {
                    enemy_of(b0.current_turn)
                })
                &&& bfin.square_in_promotion == (if d.promo {
                    Option::Some(to)
                } else {
                    b0.square_in_promotion
                })
                &&& bfin.white_opponent == b0.white_opponent
                &&& bfin.black_opponent == b0.black_opponent
                &&& bfin.status == b0.status
            }),
    {
        let ghost m0 = self.model();
        let ghost b0 = *self;
        let p = self.pieces[from];
        proof {
            crate::model::lemma_pseudo_elements(m0, p, from as int);
            assert(to != from);
            assert(color_of(m0.squares[to as int]) != color_of(p));
        }
        let kind = p.kind();
        let is_little_castle = kind == Piece::King && to == from + 2;
        let is_big_castle = kind == Piece::King && to + 2 == from;
        let target = self.pieces[to];
        let is_en_passant = kind == Piece::Pawn && to % 8 != from % 8 && target.is_none();
        let is_promotion = kind == Piece::Pawn && (to / 8 == 0 || to / 8 == 7);
        let ate = !target.is_none() || is_en_passant;

        // The mover leaves `from` and lands on `to` in the location index.
        let code_p = p.code();
        proof {
            assert(self.locs(code_p as int).contains(from));
            if self.locs(code_p as int).contains(to) {
                let j = choose|j: int|
                    0 <= j < self.locs(code_p as int).len() && self.locs(code_p as int)[j] == to;
                assert(self.locs(code_p as int)[j] == to);
                crate::piece::lemma_code_injective(m0.squares[to as int], p);
                assert(false);
            }
        }
        locs_remove(&mut self.locations, code_p, from);
        proof {
            assert(!self.locations@[code_p as int]@.contains(to));
        }
        locs_push(&mut self.locations, code_p, to);

        // A captured piece leaves the index.
        let mut code_t: usize = 0;
        if !target.is_none() {
            code_t = target.code();
            proof {
                if code_t == code_p {
                    crate::piece::lemma_code_injective(target, p);
                    assert(false);
                }
                assert(self.locations@[code_t as int]@ == b0.locations@[code_t as int]@);
                assert(self.locs(code_t as int).contains(to));
            }
            locs_remove(&mut self.locations, code_t, to);
        }

        // The board swap, the move record, and the endpoint marks.
        self.pieces[to] = p;
        self.pieces[from] = Piece::Empty;
        self.last_move = [from, to];
        self.moved[from] = true;
        self.moved[to] = true;

        // A castling move also relocates the corresponding rook.
        let ghost rook_piece = combine_of(Piece::Rook, color_of(p));
        let mut code_r: usize = 0;
        let mut corner: usize = 0;
        let mut dest: usize = 0;
        if is_little_castle || is_big_castle {
            proof {
                crate::model::lemma_pseudo_castle(m0, p, from as int, to as int);
                assert(p == Piece::WhiteKing || p == Piece::BlackKing);
                if p == Piece::WhiteKing {
                    assert(from == 60);
                } else {
                    assert(from == 4);
                }
            }
            corner = if is_little_castle {
                from + 3
            } else {
                from - 4
            };
            dest = if is_little_castle {
                from + 1
            } else {
                from - 1
            };
            proof {
                assert(m0.squares[corner as int] == rook_piece);
                assert(m0.squares[dest as int] == Piece::Empty);
            }
            let rook = self.pieces[corner];
            code_r = rook.code();
            proof {
                assert(rook == rook_piece);
                assert(code_r != code_p);
                if target != Piece::Empty && code_r == code_t {
                    crate::piece::lemma_code_injective(rook_piece, target);
                    assert(false);
                }
                assert(self.locations@[code_r as int]@ == b0.locations@[code_r as int]@);
                assert(self.locs(code_r as int).contains(corner));
                if self.locations@[code_r as int]@.contains(dest) {
                    let j = choose|j: int|
                        0 <= j < self.locs(code_r as int).len() && self.locs(code_r as int)[j]
                            == dest;
                    assert(b0.locs(code_r as int)[j] == dest);
                    assert(false);
                }
            }
            locs_remove(&mut self.locations, code_r, corner);
            locs_push(&mut self.locations, code_r, dest);
            self.pieces[dest] = rook;
            self.pieces[corner] = Piece::Empty;
            self.moved[corner] = true;
        }

        // An en-passant capture removes the passed pawn.
        let mut code_v: usize = 0;
        let mut victim: usize = 0;
        if is_en_passant {
            proof {
                crate::model::lemma_pseudo_ep(m0, p, from as int, to as int);
            }
            victim = from + to % 8 - from % 8;
            proof {
                assert(victim as int == crate::model::ep_victim(from as int, to as int));
            }
            let vp = self.pieces[victim];
            code_v = vp.code();
            proof {
                assert(vp == m0.squares[victim as int]);
                if code_v == code_p {
                    crate::piece::lemma_code_injective(vp, p);
                    assert(false);
                }
                assert(self.locations@[code_v as int]@ == b0.locations@[code_v as int]@);
                assert(self.locs(code_v as int).contains(victim));
            }
            locs_remove(&mut self.locations, code_v, victim);
            self.pieces[victim] = Piece::Empty;
            self.moved[victim] = true;
        }

        // A promotion suspends the pawn and the turn; any other move
        // passes the turn.
        if is_promotion {
            proof {
                assert(self.locations@[code_p as int]@.contains(to));
            }
            locs_remove(&mut self.locations, code_p, to);
            self.pieces[to] = Piece::Empty;
            self.square_in_promotion = Option::Some(to);
        } else {
            self.current_turn = self.current_turn.ennemy();
        }

        proof {
            assert forall|x: usize|
                #[trigger] self.locations@[code_p as int]@.contains(x) <==> (if is_promotion {
                    b0.locations@[code_p as int]@.contains(x) && x != from && x != to
                } else {
                    (b0.locations@[code_p as int]@.contains(x) && x != from) || x == to
                }) by {}
            assert forall|c: int, j1: int, j2: int|
                0 <= c < 24 && 0 <= j1 < j2 < self.locations@[c]@.len()
                    implies #[trigger] self.locations@[c]@[j1]
                    != #[trigger] self.locations@[c]@[j2] by {
                let untouched = c != code_p && !(target != Piece::Empty && c == code_t) && !((
                is_little_castle || is_big_castle) && c == code_r) && !(is_en_passant && c
                    == code_v);
                if untouched {
                    assert(self.locations@[c] == b0.locations@[c]);
                    assert(b0.locs(c)[j1] != b0.locs(c)[j2]);
                }
            }
        }
        MoveStep {
            ate,
            little: is_little_castle,
            big: is_big_castle,
            ep: is_en_passant,
            promo: is_promotion,
            code_p,
            code_t,
            code_r,
            code_v,
            corner,
            dest,
            victim,
        }
    }

    /// Commit the move `from` -> `to` without checking its legality: the
    /// internal silent-simulation entry point of the legality filter, and
    /// the forced entry point below it.  `silent` marks a simulation; the
    /// returned flag says whether the move captured a piece, so that the
    /// caller may produce its effects (the engine itself has none).
    ///
    /// The precondition asks exactly for what the move executor's steps
    /// presuppose: a real piece on a valid origin, a destination the raw
    /// generator offers, and no king on the destination (kings are never
    /// captured).
    #[verifier::rlimit(100)]
    #[verifier::spinoff_prover]
    pub fn force_move_piece(&mut self, from: usize, to: usize, silent: bool) -> (ate: bool)
        requires
            old(self).wf(),
            from < 64,
            to < 64,
            is_full_piece(old(self)@.squares[from as int]),
            pseudo_seq(old(self)@, from as int).contains(to as int),
            kind_of(old(self)@.squares[to as int]) != Piece::King,
        ensures
            final(self).wf(),
            final(self)@ == crate::model::apply_move(old(self)@, from as int, to as int),
            ate == crate::model::move_captures(old(self)@, from as int, to as int),
    {
        let _ = silent;
        proof {
            self.reveal_wf();
            self.reveal_view();
        }
        let ghost m0 = self@;
        let ghost b0 = *self;
        let d = self.move_step(from, to);

        // Every committed move invalidates the whole legal-move cache.
        self.cache = Self::fresh_cache();

        proof {
            let ghost p = b0.pieces@[from as int];
            let ghost target = b0.pieces@[to as int];
            Self::lemma_inv_after_move(
                b0,
                *self,
                from,
                to,
                p,
                target,
                d.little,
                d.big,
                d.ep,
                d.promo,
                d.code_p,
                d.code_t,
                d.code_r,
                d.code_v,
                d.corner,
                d.dest,
                d.victim,
            );
            self.reveal_wf();
            self.reveal_view();
            let mf = crate::model::apply_move(m0, from as int, to as int);
            assert(self.pieces@ =~= mf.squares);
            assert(self@.moved =~= mf.moved);
            assert(self@ == mf);
        }
        d.ate
    }


    /// An element-wise copy of a square-index list.
    fn copy_idx_vec(v: &Vec<usize>) -> (r: Vec<usize>)
        ensures
            r@ == v@,
    {
        let mut r: Vec<usize> = Vec::new();
        let mut i: usize = 0;
        while i < v.len()
            invariant
                i <= v@.len(),
                r@.len() == i,
                forall|k: int| 0 <= k < i ==> #[trigger] r@[k] == v@[k],
            decreases v@.len() - i,
        {
            r.push(v[i]);
            i = i + 1;
        }
        proof {
            assert(r@ =~= v@);
        }
        r
    }

    /// The legal destinations of the piece on `square_index`, as square
    /// indices: the raw pseudo-legal destinations that survive the
    /// king-safety filter, answered from the cache when it holds them and
    /// cached afterwards otherwise.  An off-board origin yields nothing.
    #[verifier::rlimit(100)]
    #[verifier::spinoff_prover]
    pub fn get_legal_moves_square_indices(&mut self, square_index: usize) -> (r: Vec<usize>)
        requires
            old(self).wf(),
        ensures
            final(self).wf(),
            final(self)@ == old(self)@,
            square_index < 64 ==> idxs_match(
                r@,
                crate::model::legal_seq(old(self)@, square_index as int),
            ),
            square_index >= 64 ==> r@.len() == 0,
    {
        if square_index >= 64 {
            return Vec::new();
        }
        proof {
            self.reveal_wf();
            self.reveal_view();
        }
        let ghost m = self@;
        if let Option::Some(v) = &self.cache[square_index] {
            proof {
                assert(crate::model::cache_entry_ok(
                    self@,
                    self.cache@[square_index as int],
                    square_index as int,
                ));
            }
            return Self::copy_idx_vec(v);
        }
        let cand = self.get_sub_legal_moves_square_indices(square_index);
        let ghost pseudo = pseudo_seq(m, square_index as int);
        let ghost pr = crate::model::legal_pred(m, square_index as int);
        let turn = self.current_turn;
        let mut result: Vec<usize> = Vec::new();
        let n = cand.len();
        let mut i: usize = 0;
        while i < n
            invariant
                self.wf(),
                self@ == m,
                self.current_turn == turn,
                self@ == self.model(),
                square_index < 64,
                n == cand@.len(),
                idxs_match(cand@, pseudo),
                pseudo == pseudo_seq(m, square_index as int),
                pr == crate::model::legal_pred(m, square_index as int),
                i <= n,
                idxs_match(result@, pseudo.take(i as int).filter(pr)),
            decreases n - i,
        {
            let t = cand[i];
            proof {
                self.reveal_wf();
                self.reveal_view();
                assert(pseudo[i as int] == t);
                assert(pseudo.contains(pseudo[i as int]));
                if m.squares[square_index as int] == Piece::Empty {
                    assert(pseudo =~= Seq::<int>::empty());
                    assert(false);
                }
                assert(is_full_piece(m.squares[square_index as int]));
                crate::model::lemma_pseudo_elements(
                    m,
                    m.squares[square_index as int],
                    square_index as int,
                );
                assert(t < 64);
            }
            let tp = self.pieces[t];
            let mut keep = false;
            if !(tp.kind() == Piece::King) {
                let mut sim = self.snapshot();
                let _ = sim.force_move_piece(square_index, t, true);
                let chk = sim.is_check(turn);
                if !chk {
                    keep = true;
                }
                proof {
                    assert(sim@ == crate::model::apply_move(m, square_index as int, t as int));
                    assert(chk == crate::model::in_check(sim@, m.turn));
                }
            }
            proof {
                assert(keep == pr(t as int));
            }
            if keep {
                result.push(t);
            }
            proof {
                crate::model::lemma_filter_take_step(pseudo, pr, i as int);
                assert(idxs_match(result@, pseudo.take(i as int + 1).filter(pr)));
            }
            i = i + 1;
        }
        proof {
            assert(pseudo.take(n as int) =~= pseudo);
        }
        let stored = Self::copy_idx_vec(&result);
        let ghost bpre = *self;
        self.cache[square_index] = Option::Some(stored);
        proof {
            bpre.reveal_wf();
            bpre.reveal_view();
            self.reveal_wf();
            self.reveal_view();
            assert(self@ == m);
            assert forall|s: int|
                0 <= s < 64 implies crate::model::cache_entry_ok(
                self@,
                #[trigger] self.cache@[s],
                s,
            ) by {}
            Board::lemma_inv_preserved(&bpre, self);
            assert(self.inv());
        }
        result
    }

    /// The legal destinations of the piece on `square_index`, as
    /// `[file, rank]` pairs.
    pub fn get_legal_moves(&mut self, square_index: usize) -> (r: Vec<[usize; 2]>)
        requires
            old(self).wf(),
        ensures
            final(self).wf(),
            final(self)@ == old(self)@,
            square_index < 64 ==> crate::model::coords_match(
                r@,
                crate::model::legal_seq(old(self)@, square_index as int),
            ),
            square_index >= 64 ==> r@.len() == 0,
    {
        let idxs = self.get_legal_moves_square_indices(square_index);
        let ghost ls = crate::model::legal_seq(old(self)@, square_index as int);
        let mut r: Vec<[usize; 2]> = Vec::new();
        let n = idxs.len();
        let mut i: usize = 0;
        proof {
            if square_index < 64 {
                self.reveal_wf();
                self.reveal_view();
                crate::model::lemma_legal_in_range(old(self)@, square_index as int);
            }
        }
        while i < n
            invariant
                n == idxs@.len(),
                square_index < 64 ==> idxs_match(idxs@, ls) && (forall|j: int|
                    0 <= j < ls.len() ==> 0 <= #[trigger] ls[j] < 64),
                square_index >= 64 ==> n == 0,
                i <= n,
                r@.len() == i,
                forall|j: int| 0 <= j < i ==> crate::model::is_coord(#[trigger] r@[j], ls[j]),
            decreases n - i,
        {
            let t = idxs[i];
            proof {
                assert(ls[i as int] == t);
            }
            r.push([t % 8, t / 8]);
            i = i + 1;
        }
        r
    }

    /// Whether the board, besides the kings, holds nothing or exactly one
    /// minor piece: insufficient mating material.
    fn material_dead(&self) -> (r: bool)
        requires
            self.wf(),
        ensures
            r == crate::model::dead_material(self@.squares),
    {
        proof {
            self.reveal_wf();
            self.reveal_view();
            assert(self.pieces@.len() == 64);
        }
        let mut count: usize = 0;
        let mut minors_only = true;
        let mut sq: usize = 0;
        while sq < 64
            invariant
                self.wf(),
                self@ == self.model(),
                self.pieces@.len() == 64,
                sq <= 64,
                count <= sq,
                count == crate::model::count_nonking(self@.squares, sq as int),
                minors_only == (forall|j: int|
                    0 <= j < sq && self@.squares[j] != Piece::Empty && kind_of(
                        #[trigger] self@.squares[j],
                    ) != Piece::King ==> crate::model::is_minor(self@.squares[j])),
            decreases 64 - sq,
        {
            let p = self.pieces[sq];
            if !p.is_none() && !(p.kind() == Piece::King) {
                count = count + 1;
                let k = p.kind();
                if !(k == Piece::Bishop || k == Piece::LeftKnight || k == Piece::RightKnight) {
                    minors_only = false;
                }
            }
            sq = sq + 1;
        }
        count == 0 || (count == 1 && minors_only)
    }

    /// Attempt the move `from` -> `to`: commit it when it is legal and
    /// re-derive the status tag for the resulting position; an illegal or
    /// out-of-range request is tolerated as a no-op that leaves the whole
    /// board unchanged, status tag included.
    #[verifier::rlimit(100)]
    #[verifier::spinoff_prover]
    pub fn move_piece(&mut self, from: usize, to: usize)
        requires
            old(self).wf(),
        ensures
            final(self).wf(),
            final(self)@ == crate::model::move_piece_spec(old(self)@, from as int, to as int),
    {
        if from >= 64 || to >= 64 {
            return ;
        }
        let ghost m = self@;
        let legal = self.get_legal_moves_square_indices(from);
        let n = legal.len();
        let mut i: usize = 0;
        let mut found = false;
        while i < n
            invariant
                n == legal@.len(),
                i <= n,
                found == (exists|k: int| 0 <= k < i && legal@[k] == to),
            decreases n - i,
        {
            if legal[i] == to {
                found = true;
            }
            i = i + 1;
        }
        let ghost ls = crate::model::legal_seq(m, from as int);
        proof {
            if found {
                let k = choose|k: int| 0 <= k < n && legal@[k] == to;
                assert(ls[k] == to);
                assert(ls.contains(to as int));
            } else {
                if ls.contains(to as int) {
                    let k = choose|k: int| 0 <= k < ls.len() && ls[k] == to;
                    assert(legal@[k] == to);
                    assert(false);
                }
            }
        }
        if found {
            proof {
                self.reveal_wf();
                self.reveal_view();
                crate::model::lemma_filter_elems(
                    pseudo_seq(m, from as int),
                    crate::model::legal_pred(m, from as int),
                );
                if m.squares[from as int] == Piece::Empty {
                    pseudo_seq(m, from as int).lemma_filter_len(
                        crate::model::legal_pred(m, from as int),
                    );
                    assert(false);
                }
                assert(is_full_piece(m.squares[from as int]));
            }
            let _ = self.force_move_piece(from, to, false);
            let ghost m1 = self@;
            let all = self.get_all_legal_moves();
            proof {
                self.reveal_wf();
                self.reveal_view();
            }
            let no_moves = all.len() == 0;
            let chk = if no_moves {
                self.is_check(self.current_turn)
            } else {
                false
            };
            let dead = if self.square_in_promotion.is_none() {
                self.material_dead()
            } else {
                false
            };
            // The evaluator read fresh legal-move lists; the status change
            // makes the board a new position, so leave the cache empty.
            let ghost bpre = *self;
            self.cache = Self::fresh_cache();
            if no_moves {
                if chk {
                    self.status = Status::Checkmate;
                } else {
                    self.status = Status::Stalemate;
                }
            }
            if dead {
                self.status = Status::Dead;
            }
            proof {
                bpre.reveal_wf();
                bpre.reveal_view();
                self.reveal_wf();
                self.reveal_view();
                assert(self.pieces == bpre.pieces && self.moved == bpre.moved && self.locations
                    == bpre.locations && self.current_turn == bpre.current_turn
                    && self.square_in_promotion == bpre.square_in_promotion);
                Board::lemma_inv_preserved(&bpre, self);
                assert(self.inv());
                assert(self@ == BoardModel { status: crate::model::eval_status(m1), ..m1 });
            }
        }
    }

    /// Every legal (origin, destination) pair of the side to move, as
    /// `[origin, destination]` square-index pairs by increasing origin.
    #[verifier::rlimit(100)]
    pub fn get_all_legal_moves(&mut self) -> (r: Vec<[usize; 2]>)
        requires
            old(self).wf(),
        ensures
            final(self).wf(),
            final(self)@ == old(self)@,
            crate::model::pairs_match(r@, crate::model::all_legal(old(self)@)),
    {
        proof {
            self.reveal_wf();
            self.reveal_view();
        }
        let ghost m = self@;
        let mut r: Vec<[usize; 2]> = Vec::new();
        let mut from: usize = 0;
        let turn = self.current_turn;
        while from < 64
            invariant
                self.wf(),
                self@ == m,
                self.current_turn == turn,
                turn == m.turn,
                from <= 64,
                crate::model::pairs_match(r@, crate::model::all_legal_upto(m, from as int)),
            decreases 64 - from,
        {
            let x = from % 8;
            let y = from / 8;
            let p = self.get_piece(x, y);
            proof {
                self.reveal_wf();
                self.reveal_view();
                assert(sq_of(x as int, y as int) == from as int);
            }
            let ghost r0 = r@;
            let ghost up1 = crate::model::all_legal_upto(m, from as int + 1);
            let ghost up0 = crate::model::all_legal_upto(m, from as int);
            let ghost ls = crate::model::legal_seq(m, from as int);
            let ghost mapped = ls.map_values(|t: int| (from as int, t));
            proof {
                assert(forall|k: int| 0 <= k < ls.len() ==> #[trigger] mapped[k] == (
                from as int,
                ls[k],
                ));
            }
            if p.color() == turn {
                let idxs = self.get_legal_moves_square_indices(from);
                proof {
                    self.reveal_view();
                    assert(self.current_turn == turn);
                }
                let n = idxs.len();
                let mut j: usize = 0;
                while j < n
                    invariant
                        n == idxs@.len(),
                        idxs_match(idxs@, crate::model::legal_seq(m, from as int)),
                        ls == crate::model::legal_seq(m, from as int),
                        j <= n,
                        r@.len() == r0.len() + j,
                        forall|k: int| 0 <= k < r0.len() ==> #[trigger] r@[k] == r0[k],
                        forall|k: int|
                            0 <= k < j ==> #[trigger] r@[r0.len() + k]@[0] == from
                                && r@[r0.len() + k]@[1] == idxs@[k],
                    decreases n - j,
                {
                    r.push([from, idxs[j]]);
                    j = j + 1;
                }
                proof {
                    assert(up1 == up0 + mapped);
                    assert forall|k: int| 0 <= k < up1.len() implies #[trigger] r@[k]@[0] as int
                        == up1[k].0 && r@[k]@[1] as int == up1[k].1 by {
                        if k < up0.len() {
                            assert(up1[k] == up0[k]);
                            assert(r@[k] == r0[k]);
                        } else {
                            let k2 = k - r0.len();
                            assert(up1[k] == mapped[k2]);
                            assert(r@[r0.len() + k2]@[0] == from && r@[r0.len() + k2]@[1]
                                == idxs@[k2]);
                        }
                    }
                    assert(crate::model::pairs_match(r@, up1));
                }
            } else {
                proof {
                    assert(up1 == up0 + Seq::<(int, int)>::empty());
                    assert(up1 =~= up0);
                    assert(crate::model::pairs_match(r@, up1));
                }
            }
            from = from + 1;
        }
        proof {
            assert(crate::model::all_legal_upto(m, 64) == crate::model::all_legal(m));
        }
        r
    }

    /// Resolve a pending promotion: place the chosen bare kind, combined
    /// with the mover's colour, on the pending square, clear the marker
    /// and pass the turn.  With no promotion pending the board is
    /// unchanged, and so is it in the degenerate state where something
    /// else came to stand on the pending square (invalid input is
    /// tolerated as a no-op).
    #[verifier::rlimit(100)]
    #[verifier::spinoff_prover]
    pub fn promote(&mut self, piece: Piece)
        requires
            old(self).wf(),
            piece == Piece::Queen || piece == Piece::Rook || piece == Piece::Bishop || piece
                == Piece::LeftKnight || piece == Piece::RightKnight,
        ensures
            final(self).wf(),
            final(self)@ == crate::model::apply_promotion(old(self)@, piece),
    {
        proof {
            self.reveal_wf();
            self.reveal_view();
        }
        let ghost m0 = self@;
        let ghost b0 = *self;
        if let Option::Some(sq) = self.square_in_promotion {
            if !self.pieces[sq].is_none() {
                return ;
            }
            let new_piece = piece.combine(self.current_turn);
            proof {
                assert(is_full_piece(new_piece));
                assert(m0.squares[sq as int] == Piece::Empty);
            }
            let code_n = new_piece.code();
            proof {
                if self.locs(code_n as int).contains(sq) {
                    let j = choose|j: int|
                        0 <= j < self.locs(code_n as int).len() && self.locs(code_n as int)[j]
                            == sq;
                    assert(self.locs(code_n as int)[j] == sq);
                    assert(false);
                }
            }
            locs_push(&mut self.locations, code_n, sq);
            self.pieces[sq] = new_piece;
            self.square_in_promotion = Option::None;
            self.current_turn = self.current_turn.ennemy();
            // The new piece changes the position: leave the cache empty.
            self.cache = Self::fresh_cache();
            proof {
                assert forall|c: int, j: int|
                    0 <= c < 24 && 0 <= j < self.locs(c).len() implies #[trigger] self.locs(c)[j]
                        < 64 && is_full_piece(self.pieces@[self.locs(c)[j] as int])
                        && crate::piece::code_of(self.pieces@[self.locs(c)[j] as int]) == c by {
                    let x = self.locs(c)[j];
                    if c == code_n {
                        assert(self.locs(c).contains(x));
                        if x == sq {
                        } else {
                            assert(b0.locs(c).contains(x));
                            assert(self.pieces@[x as int] == b0.pieces@[x as int]);
                        }
                    } else {
                        assert(self.locs(c) == b0.locs(c));
                        assert(b0.locs(c)[j] == x);
                        assert(x != sq);
                        assert(self.pieces@[x as int] == b0.pieces@[x as int]);
                    }
                }
                assert forall|s: int|
                    0 <= s < 64 && is_full_piece(#[trigger] self.pieces@[s]) implies self.locs(
                    crate::piece::code_of(self.pieces@[s]),
                ).contains(s as usize) by {
                    let q = self.pieces@[s];
                    let cq = crate::piece::code_of(q);
                    if s == sq {
                        assert(q == new_piece && cq == code_n);
                        assert(self.locations@[code_n as int]@.contains(sq));
                    } else {
                        assert(b0.pieces@[s] == q);
                        assert(b0.locs(cq).contains(s as usize));
                        if cq == code_n {
                            assert(self.locations@[code_n as int]@.contains(s as usize));
                        } else {
                            assert(self.locs(cq) == b0.locs(cq));
                        }
                    }
                }
                assert forall|c: int, j1: int, j2: int|
                    0 <= c < 24 && 0 <= j1 < j2 < self.locs(c).len() implies #[trigger] self.locs(
                    c,
                )[j1] != #[trigger] self.locs(c)[j2] by {
                    if c != code_n {
                        assert(self.locs(c) == b0.locs(c));
                        assert(b0.locs(c)[j1] != b0.locs(c)[j2]);
                    }
                }
                assert(kind_of(new_piece) != Piece::King);
                assert forall|s: int|
                    0 <= s < 64 && crate::model::is_royal_home(s) && !self.moved@[s]
                        implies #[trigger] self.pieces@[s] == crate::model::initial_piece(s) by {
                    if s == sq {
                        assert(b0.pieces@[s] == crate::model::initial_piece(s));
                        assert(crate::model::initial_piece(s) == Piece::Empty);
                        assert(crate::model::is_royal_home(s));
                        assert(false);
                    }
                }
                {
                    let ws = choose|s: int| 0 <= s < 64 && b0.pieces@[s] == Piece::WhiteKing;
                    assert(ws != sq);
                    assert(self.pieces@[ws] == Piece::WhiteKing);
                    let bs = choose|s: int| 0 <= s < 64 && b0.pieces@[s] == Piece::BlackKing;
                    assert(bs != sq);
                    assert(self.pieces@[bs] == Piece::BlackKing);
                }
                assert(forall|s: int|
                    0 <= s < 64 && s != sq ==> #[trigger] self.pieces@[s] == b0.pieces@[s]);
                assert(self.inv());
                self.reveal_wf();
                self.reveal_view();
                assert(self@ == crate::model::apply_promotion(m0, piece));
            }
        }
    }


    /// The piece the standard starting position places on file `x`,
    /// rank `y`.
    fn initial_piece_at(x: usize, y: usize) -> (r: Piece)
        requires
            x < 8,
            y < 8,
        ensures
            r == crate::model::initial_piece(sq_of(x as int, y as int)),
    {
        proof {
            crate::model::lemma_sq_coords(x as int, y as int);
        }
        let kind = if x == 0 {
            Piece::Rook
        } else if x == 1 {
            Piece::LeftKnight
        } else if x == 2 {
            Piece::Bishop
        } else if x == 3 {
            Piece::Queen
        } else if x == 4 {
            Piece::King
        } else if x == 5 {
            Piece::Bishop
        } else if x == 6 {
            Piece::RightKnight
        } else {
            Piece::Rook
        };
        if y == 0 {
            kind.combine(Piece::Black)
        } else if y == 1 {
            Piece::BlackPawn
        } else if y == 6 {
            Piece::WhitePawn
        } else if y == 7 {
            kind.combine(Piece::White)
        } else {
            Piece::Empty
        }
    }

    /// Build the piece-location index of a square array: for each piece
    /// code, the squares holding that piece, in increasing order.
    fn build_locations(pieces: &Vec<Piece>) -> (r: Vec<Vec<usize>>)
        requires
            pieces@.len() == 64,
        ensures
            r@.len() == 24,
            forall|c: int, x: usize|
                0 <= c < 24 ==> (#[trigger] r@[c]@.contains(x) <==> (x < 64 && is_full_piece(
                    pieces@[x as int],
                ) && crate::piece::code_of(pieces@[x as int]) == c)),
            forall|c: int, j1: int, j2: int|
                0 <= c < 24 && 0 <= j1 < j2 < r@[c]@.len() ==> #[trigger] r@[c]@[j1]
                    != #[trigger] r@[c]@[j2],
    {
        let mut r: Vec<Vec<usize>> = Vec::new();
        let mut c: usize = 0;
        while c < 24
            invariant
                c <= 24,
                r@.len() == c,
                forall|k: int| 0 <= k < c ==> #[trigger] r@[k]@.len() == 0,
            decreases 24 - c,
        {
            r.push(Vec::new());
            c = c + 1;
        }
        let mut sq: usize = 0;
        while sq < 64
            invariant
                pieces@.len() == 64,
                sq <= 64,
                r@.len() == 24,
                forall|c: int, x: usize|
                    0 <= c < 24 ==> (#[trigger] r@[c]@.contains(x) <==> (x < sq && is_full_piece(
                        pieces@[x as int],
                    ) && crate::piece::code_of(pieces@[x as int]) == c)),
                forall|c: int, j: int|
                    0 <= c < 24 && 0 <= j < r@[c]@.len() ==> #[trigger] r@[c]@[j] < sq,
                forall|c: int, j1: int, j2: int|
                    0 <= c < 24 && 0 <= j1 < j2 < r@[c]@.len() ==> #[trigger] r@[c]@[j1]
                        != #[trigger] r@[c]@[j2],
            decreases 64 - sq,
        {
            let p = pieces[sq];
            let ghost r0 = r@;
            if !(p.kind() == Piece::Empty) && !(p.color() == Piece::Empty) {
                let code = p.code();
                proof {
                    if r@[code as int]@.contains(sq) {
                        assert(false);
                    }
                }
                r[code].push(sq);
            }
            proof {
                assert forall|c: int, x: usize|
                    0 <= c < 24 implies (#[trigger] r@[c]@.contains(x) <==> (x < sq + 1
                        && is_full_piece(pieces@[x as int]) && crate::piece::code_of(
                        pieces@[x as int],
                    ) == c)) by {
                    if is_full_piece(p) && c == crate::piece::code_of(p) {
                        assert forall|y: usize| #[trigger] r@[c]@.contains(y) implies (
                        r0[c]@.contains(y) || y == sq) by {
                            let j = choose|j: int| 0 <= j < r@[c]@.len() && r@[c]@[j] == y;
                            if j < r0[c]@.len() {
                                assert(r0[c]@[j] == y);
                            }
                        }
                        assert(r@[c]@ == r0[c]@.push(sq));
                        assert(r@[c]@[r@[c]@.len() - 1] == sq);
                        assert(r@[c]@.contains(sq));
                        assert forall|y: usize|
                            r0[c]@.contains(y) implies #[trigger] r@[c]@.contains(y) by {
                            let j = choose|j: int| 0 <= j < r0[c]@.len() && r0[c]@[j] == y;
                            assert(r@[c]@[j] == y);
                        }
                    } else {
                        assert(r@[c]@ == r0[c]@);
                    }
                }
            }
            sq = sq + 1;
        }
        r
    }

    /// Build a board from a given square array and side to move: 64
    /// squares each empty or holding a full piece, with exactly one king
    /// of each colour.  Every square deviating from the standard starting
    /// position counts as already moved, so castling stays available
    /// exactly where kings and rooks stand untouched on their home
    /// squares.  An invalid layout yields nothing.
    #[verifier::rlimit(100)]
    #[verifier::spinoff_prover]
    pub fn from_layout(layout: Vec<Piece>, turn: Piece) -> (r: Option<Board>)
        ensures
            r is Some <==> crate::model::valid_layout(layout@, turn),
            r matches Option::Some(b) ==> b.wf() && b@ == crate::model::layout_model(
                layout@,
                turn,
            ),
    {
        if layout.len() != 64 {
            return Option::None;
        }
        if !(turn == Piece::White || turn == Piece::Black) {
            return Option::None;
        }
        let mut sq: usize = 0;
        let mut ok = true;
        let mut wk: usize = 64;
        let mut bk: usize = 64;
        let mut wk_many = false;
        let mut bk_many = false;
        while sq < 64
            invariant
                layout@.len() == 64,
                sq <= 64,
                ok == (forall|s: int|
                    0 <= s < sq ==> #[trigger] layout@[s] == Piece::Empty || is_full_piece(
                        layout@[s],
                    )),
                wk == 64 <==> !(exists|s: int| 0 <= s < sq && layout@[s] == Piece::WhiteKing),
                wk != 64 ==> wk < sq && layout@[wk as int] == Piece::WhiteKing,
                bk == 64 <==> !(exists|s: int| 0 <= s < sq && layout@[s] == Piece::BlackKing),
                bk != 64 ==> bk < sq && layout@[bk as int] == Piece::BlackKing,
                wk_many == (exists|s1: int, s2: int|
                    0 <= s1 < s2 < sq && layout@[s1] == Piece::WhiteKing && layout@[s2]
                        == Piece::WhiteKing),
                bk_many == (exists|s1: int, s2: int|
                    0 <= s1 < s2 < sq && layout@[s1] == Piece::BlackKing && layout@[s2]
                        == Piece::BlackKing),
            decreases 64 - sq,
        {
            let p = layout[sq];
            if !(p.is_none() || (!(p.kind() == Piece::Empty) && !(p.color() == Piece::Empty))) {
                ok = false;
            }
            if p == Piece::WhiteKing {
                if wk != 64 {
                    wk_many = true;
                } else {
                    wk = sq;
                }
            }
            if p == Piece::BlackKing {
                if bk != 64 {
                    bk_many = true;
                } else {
                    bk = sq;
                }
            }
            sq = sq + 1;
        }
        if !ok || wk == 64 || bk == 64 || wk_many || bk_many {
            proof {
                if crate::model::valid_layout(layout@, turn) {
                    assert(ok);
                    assert(wk != 64 && bk != 64);
                    if wk_many {
                        let (s1, s2) = choose|s1: int, s2: int|
                            0 <= s1 < s2 < 64 && layout@[s1] == Piece::WhiteKing && layout@[s2]
                                == Piece::WhiteKing;
                        assert(layout@[s1] == Piece::WhiteKing && layout@[s2] == Piece::WhiteKing);
                        assert(false);
                    }
                    if bk_many {
                        let (s1, s2) = choose|s1: int, s2: int|
                            0 <= s1 < s2 < 64 && layout@[s1] == Piece::BlackKing && layout@[s2]
                                == Piece::BlackKing;
                        assert(layout@[s1] == Piece::BlackKing && layout@[s2] == Piece::BlackKing);
                        assert(false);
                    }
                }
            }
            return Option::None;
        }
        proof {
            assert forall|s1: int, s2: int|
                0 <= s1 < 64 && 0 <= s2 < 64 && layout@[s1] == Piece::WhiteKing && layout@[s2]
                    == Piece::WhiteKing implies s1 == s2 by {
                if s1 < s2 {
                    assert(false);
                } else if s2 < s1 {
                    assert(false);
                }
            }
            assert forall|s1: int, s2: int|
                0 <= s1 < 64 && 0 <= s2 < 64 && layout@[s1] == Piece::BlackKing && layout@[s2]
                    == Piece::BlackKing implies s1 == s2 by {
                if s1 < s2 {
                    assert(false);
                } else if s2 < s1 {
                    assert(false);
                }
            }
            assert(crate::model::valid_layout(layout@, turn));
        }
        let mut moved: Vec<bool> = Vec::new();
        let mut i: usize = 0;
        while i < 64
            invariant
                layout@.len() == 64,
                i <= 64,
                moved@.len() == i,
                forall|k: int|
                    0 <= k < i ==> #[trigger] moved@[k] == (layout@[k]
                        != crate::model::initial_piece(k)),
            decreases 64 - i,
        {
            let x = i % 8;
            let y = i / 8;
            proof {
                assert(sq_of(x as int, y as int) == i as int);
            }
            let ini = Self::initial_piece_at(x, y);
            moved.push(!(layout[i] == ini));
            i = i + 1;
        }
        let locations = Self::build_locations(&layout);
        let b = Board {
            pieces: layout,
            last_move: [0, 0],
            moved,
            cache: Self::fresh_cache(),
            current_turn: turn,
            white_opponent: crate::board::Opponent::Computer,
            black_opponent: crate::board::Opponent::Computer,
            square_in_promotion: Option::None,
            status: Status::Playing,
            locations,
        };
        proof {
            assert forall|c: int, j: int|
                0 <= c < 24 && 0 <= j < b.locs(c).len() implies #[trigger] b.locs(c)[j] < 64
                    && is_full_piece(b.pieces@[b.locs(c)[j] as int]) && crate::piece::code_of(
                b.pieces@[b.locs(c)[j] as int],
            ) == c by {
                let x = b.locs(c)[j];
                assert(b.locs(c).contains(x));
            }
            assert forall|s: int|
                0 <= s < 64 && is_full_piece(#[trigger] b.pieces@[s]) implies b.locs(
                crate::piece::code_of(b.pieces@[s]),
            ).contains(s as usize) by {
                assert(0 <= crate::piece::code_of(b.pieces@[s]) < 24);
            }
            assert forall|s: int|
                0 <= s < 64 && crate::model::is_royal_home(s) && !b.moved@[s]
                    implies #[trigger] b.pieces@[s] == crate::model::initial_piece(s) by {}
            assert forall|s: int|
                0 <= s < 64 && #[trigger] b.pieces@[s] == Piece::WhiteKing && s != 60
                    implies b.moved@[s] by {
                crate::model::lemma_initial_king_homes();
            }
            assert forall|s: int|
                0 <= s < 64 && #[trigger] b.pieces@[s] == Piece::BlackKing && s != 4
                    implies b.moved@[s] by {
                crate::model::lemma_initial_king_homes();
            }
            assert(b.inv());
            b.reveal_wf();
            b.reveal_view();
            assert(b@.moved =~= crate::model::layout_model(b.pieces@, turn).moved);
            assert(b@ == crate::model::layout_model(b.pieces@, turn));
        }
        Option::Some(b)
    }
}

impl core::default::Default for Board {
    /// The starting board: the standard layout, White to move, nothing
    /// moved, no promotion pending, status `Playing`.
    fn default() -> (r: Board)
        ensures
            r.wf(),
            r@ == crate::model::initial_model(),
    {
        let mut layout: Vec<Piece> = Vec::new();
        let mut i: usize = 0;
        while i < 64
            invariant
                i <= 64,
                layout@.len() == i,
                forall|k: int|
                    0 <= k < i ==> #[trigger] layout@[k] == crate::model::initial_piece(k),
            decreases 64 - i,
        {
            let x = i % 8;
            let y = i / 8;
            proof {
                assert(sq_of(x as int, y as int) == i as int);
            }
            layout.push(Board::initial_piece_at(x, y));
            i = i + 1;
        }
        proof {
            crate::model::lemma_initial_layout_valid(layout@);
        }
        let ghost lv = layout@;
        match Board::from_layout(layout, Piece::White) {
            Option::Some(b) => {
                proof {
                    let lm = crate::model::layout_model(lv, Piece::White);
                    let im = crate::model::initial_model();
                    assert(lm.squares =~= im.squares);
                    assert(lm.moved =~= im.moved);
                    assert(b@ == im);
                }
                b
            },
            Option::None => vstd::pervasive::unreached(),
        }
    }
}

impl Board {
    /// The first square listed for piece code `code`.
    fn locations_first(&self, code: usize) -> (r: usize)
        requires
            self.wf(),
            code < 24,
            self.locs(code as int).len() > 0,
        ensures
            r == self.locs(code as int)[0],
            r < 64,
            is_full_piece(self@.squares[r as int]),
            crate::piece::code_of(self@.squares[r as int]) == code,
    {
        proof {
            self.reveal_wf();
            self.reveal_view();
        }
        self.locations[code][0]
    }
}

} // verus!
