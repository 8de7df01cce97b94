use vstd::prelude::*;
use crate::board::dynamic_state::DynamicState;
use crate::board::bit_array::{BitArray, bit, lemma_nonzero, lemma_set_squares_has, lemma_set_squares_are_set, set_squares, lemma_bit_and, lemma_bit_or, lemma_bit_xor, lemma_bit_not, lemma_bit_single};
use crate::board::piece_board::PieceBoard;
use crate::board::piece_type::{ColoredPieceType, PieceType, colored_piece, color_of, piece_type_of};
use crate::board::player_color::{PlayerColor, other};
use crate::board::square::{Square, file_of};
use crate::board::bit_array_lookup::{between, knight_step, king_step, pawn_attack, diagonal_line, orthogonal_line, knight_moves, king_moves, diagonal_moves, orthogonal_moves, in_between};
use crate::board::piece_board::{castle_squares, en_passant_square};
use crate::moves::chess_move::ChessMove;
use crate::moves::slider_gen::{bishop_target, rook_target, gen_bishop_moves_kogge, gen_rook_moves_kogge, lemma_bishop_kogge_attacks, lemma_rook_kogge_attacks};
use crate::board::bit_array_lookup::{lemma_translate_any, file_diff, rank_diff};
use crate::board::bit_array::{lemma_bit_zero, translated_bit};

verus! {

/// A position as seven bitboards: one per side and one per kind of piece, where a queen is
/// both a diagonal and an orthogonal slider.
#[derive(Clone, Copy, PartialEq, Eq, Structural)]
pub struct BitBoard {
    pub white_piece: u64,
    pub black_piece: u64,
    pub pawn: u64,
    pub knight: u64,
    pub diagonal_slider: u64,
    pub orthogonal_slider: u64,
    pub king: u64,
}

impl BitBoard {
    /// The kind of piece that the type bitboards show on square `s`.
    pub open spec fn type_at(&self, s: int) -> PieceType {
        if bit(self.pawn, s) {
            PieceType::Pawn
        } else if bit(self.knight, s) {
            PieceType::Knight
        } else if bit(self.diagonal_slider, s) && bit(self.orthogonal_slider, s) {
            PieceType::Queen
        } else if bit(self.diagonal_slider, s) {
            PieceType::Bishop
        } else if bit(self.orthogonal_slider, s) {
            PieceType::Rook
        } else if bit(self.king, s) {
            PieceType::King
        } else {
            PieceType::Empty
        }
    }

    /// The piece on square `s`.
    pub open spec fn piece_at(&self, s: int) -> ColoredPieceType {
        if bit(self.white_piece, s) {
            colored_piece(self.type_at(s), PlayerColor::White)
        } else if bit(self.black_piece, s) {
            colored_piece(self.type_at(s), PlayerColor::Black)
        } else {
            ColoredPieceType::Empty
        }
    }

    /// Square `s` holds at most one side and one kind of piece, and a side exactly where a kind is.
    pub open spec fn square_wf(&self, s: int) -> bool {
        let p = bit(self.pawn, s);
        let n = bit(self.knight, s);
        let sl = bit(self.diagonal_slider, s) || bit(self.orthogonal_slider, s);
        let k = bit(self.king, s);
        &&& !(bit(self.white_piece, s) && bit(self.black_piece, s))
        &&& (bit(self.white_piece, s) || bit(self.black_piece, s)) == (p || n || sl || k)
        &&& !(p && n) && !(p && sl) && !(p && k) && !(n && sl) && !(n && k) && !(sl && k)
    }

    pub open spec fn wf(&self) -> bool {
        forall|s: int| 0 <= s < 64 ==> #[trigger] self.square_wf(s)
    }

    /// Whether the bitboards of a square are those that show piece `pt` (or nothing).
    pub open spec fn square_shows(&self, s: int, pt: ColoredPieceType) -> bool {
        let t = piece_type_of(pt);
        &&& bit(self.white_piece, s) == (pt != ColoredPieceType::Empty && color_of(pt) == PlayerColor::White)
        &&& bit(self.black_piece, s) == (pt != ColoredPieceType::Empty && color_of(pt) == PlayerColor::Black)
        &&& bit(self.pawn, s) == (t == PieceType::Pawn)
        &&& bit(self.knight, s) == (t == PieceType::Knight)
        &&& bit(self.diagonal_slider, s) == (t == PieceType::Bishop || t == PieceType::Queen)
        &&& bit(self.orthogonal_slider, s) == (t == PieceType::Rook || t == PieceType::Queen)
        &&& bit(self.king, s) == (t == PieceType::King)
    }

    pub proof fn lemma_square_shows(&self, s: int)
        requires
            0 <= s < 64,
            self.square_wf(s),
        ensures
            self.square_shows(s, self.piece_at(s)),
    {
    }

    pub proof fn lemma_shows_wf(&self, s: int, pt: ColoredPieceType)
        requires
            0 <= s < 64,
            self.square_shows(s, pt),
        ensures
            self.square_wf(s),
            self.piece_at(s) == pt,
    {
    }

    pub open spec fn occupied(&self) -> u64 {
        self.white_piece | self.black_piece
    }

    /// The bitboard of one side.
    pub open spec fn side(&self, c: PlayerColor) -> u64 {
        match c {
            PlayerColor::White => self.white_piece,
            PlayerColor::Black => self.black_piece,
        }
    }
}

/// A pawn of the side other than `color` stands next to square `s` on its rank.
pub open spec fn pawn_neighbour(v: Seq<ColoredPieceType>, color: PlayerColor, s: int) -> bool {
    let opp = colored_piece(PieceType::Pawn, other(color));
    (file_of(s) < 7 && v[s + 1] == opp) || (file_of(s) > 0 && v[s - 1] == opp)
}


/// No piece stands strictly between `s` and `t`.
pub open spec fn path_clear(v: Seq<ColoredPieceType>, s: int, t: int) -> bool {
    forall|u: int| #[trigger] between(s, t, u) ==> v[u] == ColoredPieceType::Empty
}

/// The piece on square `a` attacks square `t`.
pub open spec fn attacks_from(v: Seq<ColoredPieceType>, a: int, t: int) -> bool {
    let p = v[a];
    match piece_type_of(p) {
        PieceType::Pawn => pawn_attack(color_of(p), a, t),
        PieceType::Knight => knight_step(a, t),
        PieceType::King => king_step(a, t),
        PieceType::Bishop => diagonal_line(a, t) && path_clear(v, a, t),
        PieceType::Rook => orthogonal_line(a, t) && path_clear(v, a, t),
        PieceType::Queen => (diagonal_line(a, t) || orthogonal_line(a, t)) && path_clear(v, a, t),
        PieceType::Empty => false,
    }
}

/// A piece of side `c` attacks square `t`.
pub open spec fn attacked_by(v: Seq<ColoredPieceType>, t: int, c: PlayerColor) -> bool {
    exists|a: int| 0 <= a < 64 && v[a] != ColoredPieceType::Empty && color_of(v[a]) == c && #[trigger] attacks_from(v, a, t)
}

/// The square of the king of side `c`: the lowest square of its kings.
pub open spec fn king_of(b: BitBoard, c: PlayerColor) -> int {
    set_squares(b.side(c) & b.king)[0]
}

impl BitBoard {
    /// With a king of side `c` on the board, its lowest king stands on `king_of`.
    pub proof fn lemma_king_of_bit(&self, c: PlayerColor)
        requires
            self.wf(),
            exists|k: int| 0 <= k < 64 && self@[k] == colored_piece(PieceType::King, c),
        ensures
            king_square(self@, c, king_of(*self, c)),
            bit(self.side(c) & self.king, king_of(*self, c)),
    {
        let x = self.side(c) & self.king;
        assert forall|t: int| 0 <= t < 64 implies #[trigger] bit(x, t) == (self@[t] == colored_piece(PieceType::King, c)) by {
            self.lemma_bits_of(t);
            lemma_bit_and(self.side(c), self.king, t);
        }
        let k0 = choose|k: int| 0 <= k < 64 && self@[k] == colored_piece(PieceType::King, c);
        assert(bit(x, k0));
        lemma_nonzero(x);
        lemma_set_squares_are_set(x);
        lemma_set_squares_has(x, k0);
        let k = set_squares(x)[0];
        assert(bit(x, k));
        assert forall|j: int| 0 <= j < k implies self@[j] != colored_piece(PieceType::King, c) by {
            if bit(x, j) {
                crate::board::bit_array::lemma_set_squares_sorted_first(x, j);
            }
        }
    }
}

/// The position with the king of side `c` taken off the board.
pub open spec fn without_king(v: Seq<ColoredPieceType>, c: PlayerColor) -> Seq<ColoredPieceType> {
    Seq::new(64, |s: int| if v[s] == colored_piece(PieceType::King, c) {
        ColoredPieceType::Empty
    } else {
        v[s]
    })
}

/// The square of the king of side `c`, the lowest one if there are several.
pub open spec fn king_square(v: Seq<ColoredPieceType>, c: PlayerColor, k: int) -> bool {
    0 <= k < 64 && v[k] == colored_piece(PieceType::King, c) && forall|j: int| 0 <= j < k ==> v[j] != colored_piece(PieceType::King, c)
}

impl View for BitBoard {
    type V = Seq<ColoredPieceType>;

    open spec fn view(&self) -> Seq<ColoredPieceType> {
        Seq::new(64, |s: int| self.piece_at(s))
    }
}

impl BitBoard {



    /// Puts piece `pt` on square `square` if it is empty, and takes it away if it stands there.
    pub fn toggle_piece(&mut self, pt: ColoredPieceType, square: i8)
        requires
            old(self).wf(),
            0 <= square < 64,
            pt != ColoredPieceType::Empty,
            old(self)@[square as int] == ColoredPieceType::Empty || old(self)@[square as int] == pt,
        ensures
            final(self).wf(),
            final(self)@ == old(self)@.update(
                square as int,
                if old(self)@[square as int] == ColoredPieceType::Empty {
                    pt
                } else {
                    ColoredPieceType::Empty
                },
            ),
    {
        match pt.color() {
            PlayerColor::White => self.white_piece.flip_bit(square),
            PlayerColor::Black => self.black_piece.flip_bit(square),
        }
        match pt.piece_type() {
            PieceType::Pawn => self.pawn.flip_bit(square),
            PieceType::Knight => self.knight.flip_bit(square),
            PieceType::Bishop => self.diagonal_slider.flip_bit(square),
            PieceType::Rook => self.orthogonal_slider.flip_bit(square),
            PieceType::Queen => {
                self.diagonal_slider.flip_bit(square);
                self.orthogonal_slider.flip_bit(square);
            },
            PieceType::King => self.king.flip_bit(square),
            PieceType::Empty => {},
        }
        proof {
            let new_pt = if old(self)@[square as int] == ColoredPieceType::Empty {
                pt
            } else {
                ColoredPieceType::Empty
            };
            old(self).lemma_square_shows(square as int);
            assert(self.square_shows(square as int, new_pt));
            self.lemma_shows_wf(square as int, new_pt);
            assert forall|s: int| 0 <= s < 64 && s != square implies #[trigger] self.square_wf(s)
                && self.piece_at(s) == old(self).piece_at(s) by {
                assert(old(self).square_wf(s));
            }
            assert(self@ =~= old(self)@.update(square as int, new_pt));
        }
    }

    /// Moves piece `pt` from `start` to the empty square `end`.
    pub fn move_piece(&mut self, pt: ColoredPieceType, start: i8, end: i8)
        requires
            old(self).wf(),
            0 <= start < 64,
            0 <= end < 64,
            start != end,
            pt != ColoredPieceType::Empty,
            old(self)@[start as int] == pt,
            old(self)@[end as int] == ColoredPieceType::Empty,
        ensures
            final(self).wf(),
            final(self)@ == old(self)@.update(start as int, ColoredPieceType::Empty).update(end as int, pt),
    {
        let start_bit = start.bit_array();
        let end_bit = end.bit_array();
        let mask = start_bit | end_bit;
        match pt.color() {
            PlayerColor::White => self.white_piece = self.white_piece ^ mask,
            PlayerColor::Black => self.black_piece = self.black_piece ^ mask,
        }
        match pt.piece_type() {
            PieceType::Pawn => self.pawn = self.pawn ^ mask,
            PieceType::Knight => self.knight = self.knight ^ mask,
            PieceType::Bishop => self.diagonal_slider = self.diagonal_slider ^ mask,
            PieceType::Rook => self.orthogonal_slider = self.orthogonal_slider ^ mask,
            PieceType::Queen => {
                self.orthogonal_slider = self.orthogonal_slider ^ mask;
                self.diagonal_slider = self.diagonal_slider ^ mask;
            },
            PieceType::King => self.king = self.king ^ mask,
            PieceType::Empty => {},
        }
        proof {
            let o = *old(self);
            assert forall|s: int| 0 <= s < 64 implies #[trigger] bit(mask, s) == (s == start || s == end) by {
                lemma_bit_or(start_bit, end_bit, s);
            }
            assert forall|s: int| #![trigger bit(self.white_piece, s)] 0 <= s < 64 implies ({
                &&& bit(self.white_piece, s) == (bit(o.white_piece, s) != bit(mask, s) && color_of(pt) == PlayerColor::White || bit(o.white_piece, s) && color_of(pt) != PlayerColor::White)
                &&& bit(self.black_piece, s) == (bit(o.black_piece, s) != bit(mask, s) && color_of(pt) == PlayerColor::Black || bit(o.black_piece, s) && color_of(pt) != PlayerColor::Black)
            }) by {
                lemma_bit_xor(o.white_piece, mask, s);
                lemma_bit_xor(o.black_piece, mask, s);
            }
            assert forall|s: int| #![trigger bit(self.pawn, s)] 0 <= s < 64 implies ({
                let t = piece_type_of(pt);
                &&& bit(self.pawn, s) == (bit(o.pawn, s) != (bit(mask, s) && t == PieceType::Pawn))
                &&& bit(self.knight, s) == (bit(o.knight, s) != (bit(mask, s) && t == PieceType::Knight))
                &&& bit(self.king, s) == (bit(o.king, s) != (bit(mask, s) && t == PieceType::King))
                &&& bit(self.diagonal_slider, s) == (bit(o.diagonal_slider, s) != (bit(mask, s) && (t == PieceType::Bishop || t == PieceType::Queen)))
                &&& bit(self.orthogonal_slider, s) == (bit(o.orthogonal_slider, s) != (bit(mask, s) && (t == PieceType::Rook || t == PieceType::Queen)))
            }) by {
                lemma_bit_xor(o.pawn, mask, s);
                lemma_bit_xor(o.knight, mask, s);
                lemma_bit_xor(o.king, mask, s);
                lemma_bit_xor(o.diagonal_slider, mask, s);
                lemma_bit_xor(o.orthogonal_slider, mask, s);
            }
            o.lemma_square_shows(start as int);
            o.lemma_square_shows(end as int);
            assert(self.square_shows(start as int, ColoredPieceType::Empty));
            assert(self.square_shows(end as int, pt));
            self.lemma_shows_wf(start as int, ColoredPieceType::Empty);
            self.lemma_shows_wf(end as int, pt);
            assert forall|s: int| 0 <= s < 64 && s != start && s != end implies #[trigger] self.square_wf(s)
                && self.piece_at(s) == o.piece_at(s) by {
                assert(o.square_wf(s));
            }
            assert forall|s: int| 0 <= s < 64 implies #[trigger] self.square_wf(s) by {
                if s != start && s != end {
                    assert(self.square_wf(s) && self.piece_at(s) == o.piece_at(s));
                }
            }
            assert(self@ =~= o@.update(start as int, ColoredPieceType::Empty).update(end as int, pt));
        }
    }


    /// Whether a pawn of the other side stands next to `square` on its rank.
    pub fn pawn_has_neighbour(&self, color: PlayerColor, square: i8) -> (r: bool)
        requires
            self.wf(),
            0 <= square < 64,
        ensures
            r == pawn_neighbour(self@, color, square as int),
    {
        let opponents = match color {
            PlayerColor::White => self.black_piece,
            PlayerColor::Black => self.white_piece,
        };
        let mask = square.bit_array();
        let right = mask.translate(1, 0);
        let left = mask.translate(-1, 0);
        let r = self.pawn & opponents & (right | left);
        proof {
            let opp = colored_piece(PieceType::Pawn, other(color));
            assert forall|t: int| 0 <= t < 64 implies #[trigger] bit(r, t) == ((t == square + 1 && file_of(square as int) < 7 || t == square - 1 && file_of(square as int) > 0) && self@[t] == opp) by {
                lemma_bit_and(self.pawn & opponents, right | left, t);
                lemma_bit_and(self.pawn, opponents, t);
                lemma_bit_or(right, left, t);
                assert(self.square_wf(t));
            }
            lemma_nonzero(r);
            if file_of(square as int) < 7 && self@[square + 1] == opp {
                assert(bit(r, square + 1));
            }
            if file_of(square as int) > 0 && self@[square - 1] == opp {
                assert(bit(r, square - 1));
            }
        }
        r != 0
    }


    pub proof fn lemma_bits_of(&self, a: int)
        requires
            self.wf(),
            0 <= a < 64,
        ensures
            bit(self.white_piece, a) == (self@[a] != ColoredPieceType::Empty && color_of(self@[a]) == PlayerColor::White),
            bit(self.black_piece, a) == (self@[a] != ColoredPieceType::Empty && color_of(self@[a]) == PlayerColor::Black),
            bit(self.pawn, a) == (piece_type_of(self@[a]) == PieceType::Pawn),
            bit(self.knight, a) == (piece_type_of(self@[a]) == PieceType::Knight),
            bit(self.king, a) == (piece_type_of(self@[a]) == PieceType::King),
            bit(self.diagonal_slider, a) == (piece_type_of(self@[a]) == PieceType::Bishop || piece_type_of(self@[a]) == PieceType::Queen),
            bit(self.orthogonal_slider, a) == (piece_type_of(self@[a]) == PieceType::Rook || piece_type_of(self@[a]) == PieceType::Queen),
    {
        assert(self.square_wf(a));
        self.lemma_square_shows(a);
    }

    /// Whether a piece of side `color` attacks `target` in position `w`, where `occupied` holds
    /// exactly the occupied squares of `w`, and `w` differs from this position only on squares
    /// that hold no piece of side `color`.
    #[verifier::rlimit(50)]
    fn attacked_in(&self, target: i8, color: PlayerColor, occupied: u64, Ghost(w): Ghost<Seq<ColoredPieceType>>) -> (r: bool)
        requires
            self.wf(),
            0 <= target < 64,
            w.len() == 64,
            forall|u: int| 0 <= u < 64 ==> (#[trigger] bit(occupied, u) == (w[u] != ColoredPieceType::Empty)),
            forall|u: int| 0 <= u < 64 ==> (#[trigger] w[u] == self@[u] || (w[u] == ColoredPieceType::Empty
                && (self@[u] == ColoredPieceType::Empty || color_of(self@[u]) != color))),
        ensures
            r == attacked_by(w, target as int, color),
    {
        let opponent = match color {
            PlayerColor::White => self.white_piece,
            PlayerColor::Black => self.black_piece,
        };
        let ghost v = self@;
        proof {
            assert forall|a: int| 0 <= a < 64 implies #[trigger] bit(opponent, a) == (w[a] != ColoredPieceType::Empty && color_of(w[a]) == color) by {
                self.lemma_bits_of(a);
            }
        }
        // Knights
        let knight_targets = knight_moves(target);
        let knights = self.knight & opponent & knight_targets;
        proof {
            assert forall|a: int| 0 <= a < 64 implies #[trigger] bit(knights, a) == (w[a] == colored_piece(PieceType::Knight, color) && knight_step(a, target as int)) by {
                self.lemma_bits_of(a);
                lemma_bit_and(self.knight & opponent, knight_targets, a);
                lemma_bit_and(self.knight, opponent, a);
            }
            lemma_nonzero(knights);
        }
        if knights != 0 {
            proof {
                let a = choose|a: int| 0 <= a < 64 && #[trigger] bit(knights, a);
                assert(attacks_from(w, a, target as int));
            }
            return true;
        }
        // Diagonal sliders
        let diagonal_lines = diagonal_moves(target);
        let diagonal_sliders = self.diagonal_slider & opponent & diagonal_lines;
        proof {
            assert forall|a: int| 0 <= a < 64 implies #[trigger] bit(diagonal_sliders, a) == (w[a] != ColoredPieceType::Empty
                && color_of(w[a]) == color && (piece_type_of(w[a]) == PieceType::Bishop || piece_type_of(w[a]) == PieceType::Queen)
                && diagonal_line(target as int, a)) by {
                self.lemma_bits_of(a);
                lemma_bit_and(self.diagonal_slider & opponent, diagonal_lines, a);
                lemma_bit_and(self.diagonal_slider, opponent, a);
            }
            lemma_set_squares_are_set(diagonal_sliders);
        }
        let list = diagonal_sliders.iterate_squares();
        let mut i: usize = 0;
        while i < list.len()
            invariant
                i <= list@.len(),
                list@.len() == set_squares(diagonal_sliders).len(),
                forall|k: int| 0 <= k < list@.len() ==> list@[k] == set_squares(diagonal_sliders)[k],
                forall|k: int| 0 <= k < set_squares(diagonal_sliders).len() ==> 0 <= #[trigger] set_squares(diagonal_sliders)[k] < 64
                    && bit(diagonal_sliders, set_squares(diagonal_sliders)[k]),
                forall|k: int| 0 <= k < i ==> !path_clear(w, #[trigger] list@[k] as int, target as int),
                0 <= target < 64,
                w.len() == 64,
                forall|a: int| 0 <= a < 64 ==> #[trigger] bit(diagonal_sliders, a) == (w[a] != ColoredPieceType::Empty
                    && color_of(w[a]) == color && (piece_type_of(w[a]) == PieceType::Bishop || piece_type_of(w[a]) == PieceType::Queen)
                    && diagonal_line(target as int, a)),
                forall|u: int| 0 <= u < 64 ==> (#[trigger] bit(occupied, u) == (w[u] != ColoredPieceType::Empty)),
            decreases list@.len() - i,
        {
            let attacker = list[i];
            let between_bits = in_between(attacker, target);
            let blockers = between_bits & occupied;
            proof {
                assert forall|u: int| 0 <= u < 64 implies #[trigger] bit(blockers, u) == (between(attacker as int, target as int, u) && w[u] != ColoredPieceType::Empty) by {
                    lemma_bit_and(between_bits, occupied, u);
                }
                lemma_nonzero(blockers);
            }
            if blockers == 0 {
                proof {
                    assert forall|u: int| #[trigger] between(attacker as int, target as int, u) implies w[u] == ColoredPieceType::Empty by {
                        assert(bit(blockers, u) == false);
                    }
                    assert(attacks_from(w, attacker as int, target as int));
                }
                return true;
            }
            proof {
                let u = choose|u: int| 0 <= u < 64 && #[trigger] bit(blockers, u);
                assert(between(attacker as int, target as int, u));
            }
            i = i + 1;
        }
        // Orthogonal sliders
        let orthogonal_lines = orthogonal_moves(target);
        let orthogonal_sliders = self.orthogonal_slider & opponent & orthogonal_lines;
        proof {
            assert forall|a: int| 0 <= a < 64 implies #[trigger] bit(orthogonal_sliders, a) == (w[a] != ColoredPieceType::Empty
                && color_of(w[a]) == color && (piece_type_of(w[a]) == PieceType::Rook || piece_type_of(w[a]) == PieceType::Queen)
                && orthogonal_line(target as int, a)) by {
                self.lemma_bits_of(a);
                lemma_bit_and(self.orthogonal_slider & opponent, orthogonal_lines, a);
                lemma_bit_and(self.orthogonal_slider, opponent, a);
            }
            lemma_set_squares_are_set(orthogonal_sliders);
        }
        let list2 = orthogonal_sliders.iterate_squares();
        let mut j: usize = 0;
        while j < list2.len()
            invariant
                j <= list2@.len(),
                list2@.len() == set_squares(orthogonal_sliders).len(),
                forall|k: int| 0 <= k < list2@.len() ==> list2@[k] == set_squares(orthogonal_sliders)[k],
                forall|k: int| 0 <= k < set_squares(orthogonal_sliders).len() ==> 0 <= #[trigger] set_squares(orthogonal_sliders)[k] < 64
                    && bit(orthogonal_sliders, set_squares(orthogonal_sliders)[k]),
                forall|k: int| 0 <= k < j ==> !path_clear(w, #[trigger] list2@[k] as int, target as int),
                0 <= target < 64,
                w.len() == 64,
                forall|a: int| 0 <= a < 64 ==> #[trigger] bit(orthogonal_sliders, a) == (w[a] != ColoredPieceType::Empty
                    && color_of(w[a]) == color && (piece_type_of(w[a]) == PieceType::Rook || piece_type_of(w[a]) == PieceType::Queen)
                    && orthogonal_line(target as int, a)),
                forall|u: int| 0 <= u < 64 ==> (#[trigger] bit(occupied, u) == (w[u] != ColoredPieceType::Empty)),
            decreases list2@.len() - j,
        {
            let attacker = list2[j];
            let between_bits = in_between(attacker, target);
            let blockers = between_bits & occupied;
            proof {
                assert forall|u: int| 0 <= u < 64 implies #[trigger] bit(blockers, u) == (between(attacker as int, target as int, u) && w[u] != ColoredPieceType::Empty) by {
                    lemma_bit_and(between_bits, occupied, u);
                }
                lemma_nonzero(blockers);
            }
            if blockers == 0 {
                proof {
                    assert forall|u: int| #[trigger] between(attacker as int, target as int, u) implies w[u] == ColoredPieceType::Empty by {
                        assert(bit(blockers, u) == false);
                    }
                    assert(attacks_from(w, attacker as int, target as int));
                }
                return true;
            }
            proof {
                let u = choose|u: int| 0 <= u < 64 && #[trigger] bit(blockers, u);
                assert(between(attacker as int, target as int, u));
            }
            j = j + 1;
        }
        // Pawns
        let dy: i8 = match color {
            PlayerColor::White => -1,
            PlayerColor::Black => 1,
        };
        let target_bit = target.bit_array();
        let from_right = target_bit.translate(-1, dy);
        let from_left = target_bit.translate(1, dy);
        let pawn_sources = from_right | from_left;
        let pawns = self.pawn & opponent & pawn_sources;
        proof {
            assert forall|a: int| 0 <= a < 64 implies #[trigger] bit(pawns, a) == (w[a] == colored_piece(PieceType::Pawn, color) && pawn_attack(color, a, target as int)) by {
                self.lemma_bits_of(a);
                lemma_bit_and(self.pawn & opponent, pawn_sources, a);
                lemma_bit_and(self.pawn, opponent, a);
                lemma_bit_or(from_right, from_left, a);
                if 0 <= a - (-1) - 8 * dy < 64 {
                    crate::board::bit_array::lemma_bit_single(target as int, a - (-1) - 8 * dy);
                }
                if 0 <= a - 1 - 8 * dy < 64 {
                    crate::board::bit_array::lemma_bit_single(target as int, a - 1 - 8 * dy);
                }
            }
            lemma_nonzero(pawns);
        }
        if pawns != 0 {
            proof {
                let a = choose|a: int| 0 <= a < 64 && #[trigger] bit(pawns, a);
                assert(attacks_from(w, a, target as int));
            }
            return true;
        }
        // King
        let king_targets = king_moves(target);
        let kings = self.king & opponent & king_targets;
        proof {
            assert forall|a: int| 0 <= a < 64 implies #[trigger] bit(kings, a) == (w[a] == colored_piece(PieceType::King, color) && king_step(a, target as int)) by {
                self.lemma_bits_of(a);
                lemma_bit_and(self.king & opponent, king_targets, a);
                lemma_bit_and(self.king, opponent, a);
            }
            lemma_nonzero(kings);
        }
        if kings != 0 {
            proof {
                let a = choose|a: int| 0 <= a < 64 && #[trigger] bit(kings, a);
                assert(attacks_from(w, a, target as int));
            }
            return true;
        }
        proof {
            assert forall|a: int| 0 <= a < 64 && w[a] != ColoredPieceType::Empty && color_of(w[a]) == color implies !#[trigger] attacks_from(w, a, target as int) by {
                let p = piece_type_of(w[a]);
                if p == PieceType::Knight {
                    assert(!bit(knights, a));
                } else if p == PieceType::Pawn {
                    assert(!bit(pawns, a));
                } else if p == PieceType::King {
                    assert(!bit(kings, a));
                } else if p == PieceType::Bishop || p == PieceType::Queen {
                    if diagonal_line(a, target as int) {
                        assert(bit(diagonal_sliders, a));
                        lemma_set_squares_has(diagonal_sliders, a);
                        let k = choose|k: int| 0 <= k < set_squares(diagonal_sliders).len() && set_squares(diagonal_sliders)[k] == a;
                        assert(list@[k] == a);
                    }
                    if p == PieceType::Queen && orthogonal_line(a, target as int) {
                        assert(bit(orthogonal_sliders, a));
                        lemma_set_squares_has(orthogonal_sliders, a);
                        let k = choose|k: int| 0 <= k < set_squares(orthogonal_sliders).len() && set_squares(orthogonal_sliders)[k] == a;
                        assert(list2@[k] == a);
                    }
                } else if p == PieceType::Rook {
                    if orthogonal_line(a, target as int) {
                        assert(bit(orthogonal_sliders, a));
                        lemma_set_squares_has(orthogonal_sliders, a);
                        let k = choose|k: int| 0 <= k < set_squares(orthogonal_sliders).len() && set_squares(orthogonal_sliders)[k] == a;
                        assert(list2@[k] == a);
                    }
                }
            }
        }
        false
    }

    /// Whether a piece of side `opponent_color` attacks `target_square`.
    pub fn square_is_attacked_by(&self, target_square: i8, opponent_color: PlayerColor) -> (r: bool)
        requires
            self.wf(),
            0 <= target_square < 64,
        ensures
            r == attacked_by(self@, target_square as int, opponent_color),
    {
        let occupied = self.white_piece | self.black_piece;
        proof {
            assert forall|u: int| 0 <= u < 64 implies (#[trigger] bit(occupied, u) == (self@[u] != ColoredPieceType::Empty)) by {
                self.lemma_bits_of(u);
                lemma_bit_or(self.white_piece, self.black_piece, u);
            }
        }
        self.attacked_in(target_square, opponent_color, occupied, Ghost(self@))
    }

    /// Whether a piece of side `attacker_color` attacks `target_square` once the king of the
    /// other side is taken off the board (so that a king cannot hide behind itself).
    pub fn square_is_attacked_through_king(&self, target_square: i8, attacker_color: PlayerColor) -> (r: bool)
        requires
            self.wf(),
            0 <= target_square < 64,
        ensures
            r == attacked_by(without_king(self@, other(attacker_color)), target_square as int, attacker_color),
    {
        let allied = match attacker_color {
            PlayerColor::White => self.black_piece,
            PlayerColor::Black => self.white_piece,
        };
        let occupied = (self.white_piece | self.black_piece) & !(self.king & allied);
        let ghost w = without_king(self@, other(attacker_color));
        proof {
            assert forall|u: int| 0 <= u < 64 implies (#[trigger] bit(occupied, u) == (w[u] != ColoredPieceType::Empty)) by {
                self.lemma_bits_of(u);
                lemma_bit_or(self.white_piece, self.black_piece, u);
                lemma_bit_and(self.white_piece | self.black_piece, !(self.king & allied), u);
                lemma_bit_not(self.king & allied, u);
                lemma_bit_and(self.king, allied, u);
            }
        }
        self.attacked_in(target_square, attacker_color, occupied, Ghost(w))
    }

    /// The square of the king of side `color` (the lowest, should there be several).
    pub fn king_position(&self, color: PlayerColor) -> (r: i8)
        requires
            self.wf(),
            exists|k: int| 0 <= k < 64 && self@[k] == colored_piece(PieceType::King, color),
        ensures
            king_square(self@, color, r as int),
            r == king_of(*self, color),
    {
        let side = match color {
            PlayerColor::White => self.white_piece,
            PlayerColor::Black => self.black_piece,
        };
        let kings = side & self.king;
        proof {
            assert forall|a: int| 0 <= a < 64 implies #[trigger] bit(kings, a) == (self@[a] == colored_piece(PieceType::King, color)) by {
                self.lemma_bits_of(a);
                lemma_bit_and(side, self.king, a);
            }
            let k = choose|k: int| 0 <= k < 64 && self@[k] == colored_piece(PieceType::King, color);
            assert(bit(kings, k));
            lemma_nonzero(kings);
        }
        let r = kings.lowest_square_index();
        proof {
            assert forall|j: int| 0 <= j < r implies self@[j] != colored_piece(PieceType::King, color) by {
                assert(!bit(kings, j));
            }
        }
        r as i8
    }

    /// Whether the king of side `color` is attacked.
    pub fn is_in_check(&self, color: PlayerColor) -> (r: bool)
        requires
            self.wf(),
            exists|k: int| 0 <= k < 64 && self@[k] == colored_piece(PieceType::King, color),
        ensures
            exists|k: int| king_square(self@, color, k) && r == attacked_by(self@, k, other(color)),
    {
        let k = self.king_position(color);
        self.square_is_attacked_by(k, core::ops::Not::not(color))
    }

    /// The kind of piece on `square`.
    pub fn get_piecetype(&self, square: i8) -> (r: PieceType)
        requires
            self.wf(),
            0 <= square < 64,
        ensures
            r == piece_type_of(self@[square as int]),
    {
        proof {
            assert(self.square_wf(square as int));
        }
        if !(self.white_piece | self.black_piece).get_bit(square) {
            proof {
                lemma_bit_or(self.white_piece, self.black_piece, square as int);
            }
            return PieceType::Empty;
        }
        proof {
            lemma_bit_or(self.white_piece, self.black_piece, square as int);
        }
        if self.pawn.get_bit(square) {
            return PieceType::Pawn;
        }
        if self.knight.get_bit(square) {
            return PieceType::Knight;
        }
        match (self.diagonal_slider.get_bit(square), self.orthogonal_slider.get_bit(square)) {
            (false, false) => PieceType::King,
            (true, false) => PieceType::Bishop,
            (false, true) => PieceType::Rook,
            (true, true) => PieceType::Queen,
        }
    }

    /// The piece on `square`.
    pub fn get_colored_piecetype(&self, square: i8) -> (r: ColoredPieceType)
        requires
            self.wf(),
            0 <= square < 64,
        ensures
            r == self@[square as int],
    {
        proof {
            assert(self.square_wf(square as int));
        }
        let white = self.white_piece.get_bit(square);
        let black = self.black_piece.get_bit(square);
        if white {
            return self.get_piecetype(square).colored(PlayerColor::White);
        }
        if black {
            return self.get_piecetype(square).colored(PlayerColor::Black);
        }
        ColoredPieceType::Empty
    }




    /// The bitboards of a position given as the piece on each square.
    pub fn from_piece_board(piece_board: &PieceBoard) -> (r: BitBoard)
        ensures
            r.wf(),
            r@ == piece_board@,
    {
        let mut bit_board = BitBoard::empty();
        let mut s: i8 = 0;
        proof {
            piece_board.lemma_len();
        }
        while s < 64
            invariant
                0 <= s <= 64,
                bit_board.wf(),
                piece_board@.len() == 64,
                forall|t: int| 0 <= t < s ==> #[trigger] bit_board@[t] == piece_board@[t],
                forall|t: int| s <= t < 64 ==> #[trigger] bit_board@[t] == ColoredPieceType::Empty,
            decreases 64 - s,
        {
            let pt = piece_board.get(s);
            if pt != ColoredPieceType::Empty {
                bit_board.add_piece(pt, s);
            }
            s = s + 1;
        }
        assert(bit_board@ =~= piece_board@);
        bit_board
    }
}

/// Turning a position into bitboards and back gives the same position.
pub proof fn law_board_roundtrip(pb: Seq<ColoredPieceType>, bb: BitBoard)
    requires
        bb.wf(),
        bb@ == pb,
    ensures
        pb.len() == 64,
        forall|s: int| 0 <= s < 64 ==> #[trigger] pb[s] == bb.piece_at(s),
{
}



/// The occupied squares of `b` without the king of the side other than `attacker`.
pub open spec fn occupied_through_king(b: BitBoard, attacker: PlayerColor) -> u64 {
    (b.white_piece | b.black_piece) & !(b.king & b.side(other(attacker)))
}

/// Square `t` is attacked by a piece of side `attacker` once the other side's king is off the
/// board.
pub open spec fn attacked_through_king(b: BitBoard, attacker: PlayerColor, t: int) -> bool {
    let opp = b.side(attacker);
    let occ = occupied_through_king(b, attacker);
    ||| exists|a: int| 0 <= a < 64 && bit(b.knight & opp, a) && #[trigger] knight_step(a, t)
    ||| exists|a: int| 0 <= a < 64 && bit(b.king & opp, a) && #[trigger] king_step(a, t)
    ||| exists|a: int| 0 <= a < 64 && bit(b.diagonal_slider & opp, a) && #[trigger] bishop_target(a, t, 0, occ)
    ||| exists|a: int| 0 <= a < 64 && bit(b.orthogonal_slider & opp, a) && #[trigger] rook_target(a, t, 0, occ)
    ||| exists|a: int| 0 <= a < 64 && bit(b.pawn & opp, a) && #[trigger] pawn_attack(attacker, a, t)
}

impl BitBoard {
    /// The squares that side `attacker_color` attacks once the other side's king is off the
    /// board, so that the king cannot step back along the line of a slider's check.
    pub fn attacked_bits_through_king(&self, attacker_color: PlayerColor) -> (r: u64)
        requires
            self.wf(),
        ensures
            forall|t: int| 0 <= t < 64 ==> #[trigger] bit(r, t) == attacked_through_king(*self, attacker_color, t),
    {
        let opponent = match attacker_color {
            PlayerColor::White => self.white_piece,
            PlayerColor::Black => self.black_piece,
        };
        let allied = match attacker_color {
            PlayerColor::White => self.black_piece,
            PlayerColor::Black => self.white_piece,
        };
        let occupied = (self.white_piece | self.black_piece) & !(self.king & allied);
        let ghost b = *self;
        assert(opponent == b.side(attacker_color));
        assert(allied == b.side(other(attacker_color)));
        assert(occupied == occupied_through_king(b, attacker_color));

        //Knights
        let knights = self.knight & opponent;
        let squares = knights.iterate_set_bits_indices();
        let ghost sq = set_squares(knights);
        let mut knight_bits: u64 = 0;
        let mut i: usize = 0;
        proof {
            lemma_set_squares_are_set(knights);
            assert forall|t: int| 0 <= t < 64 implies !#[trigger] bit(knight_bits, t) by {
                lemma_bit_zero(t);
            }
        }
        while i < squares.len()
            invariant
                sq == set_squares(knights),
                squares@.len() == sq.len(),
                forall|j: int| 0 <= j < squares@.len() ==> squares@[j] == sq[j],
                forall|j: int| 0 <= j < sq.len() ==> 0 <= #[trigger] sq[j] < 64 && bit(knights, sq[j]),
                i <= squares@.len(),
                forall|t: int| 0 <= t < 64 ==> #[trigger] bit(knight_bits, t) == exists|j: int| 0 <= j < i
                    && knight_step(#[trigger] sq[j], t),
            decreases squares@.len() - i,
        {
            let square = squares[i];
            assert(square == sq[i as int]);
            let moves = knight_moves(square as i8);
            let ghost old_bits = knight_bits;
            knight_bits = knight_bits | moves;
            proof {
                assert forall|t: int| 0 <= t < 64 implies #[trigger] bit(knight_bits, t) == exists|j: int| 0 <= j < i + 1
                    && knight_step(#[trigger] sq[j], t) by {
                    lemma_bit_or(old_bits, moves, t);
                    if exists|j: int| 0 <= j < i + 1 && knight_step(#[trigger] sq[j], t) {
                        let j = choose|j: int| 0 <= j < i + 1 && knight_step(#[trigger] sq[j], t);
                        if j < i {
                            assert(bit(old_bits, t));
                        }
                    }
                    if bit(moves, t) {
                        assert(knight_step(sq[i as int], t));
                    }
                }
            }
            i = i + 1;
        }

        //Kings
        let kings = self.king & opponent;
        let king_squares = kings.iterate_set_bits_indices();
        let ghost ksq = set_squares(kings);
        let mut king_bits: u64 = 0;
        let mut i: usize = 0;
        proof {
            lemma_set_squares_are_set(kings);
            assert forall|t: int| 0 <= t < 64 implies !#[trigger] bit(king_bits, t) by {
                lemma_bit_zero(t);
            }
        }
        while i < king_squares.len()
            invariant
                ksq == set_squares(kings),
                king_squares@.len() == ksq.len(),
                forall|j: int| 0 <= j < king_squares@.len() ==> king_squares@[j] == ksq[j],
                forall|j: int| 0 <= j < ksq.len() ==> 0 <= #[trigger] ksq[j] < 64 && bit(kings, ksq[j]),
                i <= king_squares@.len(),
                forall|t: int| 0 <= t < 64 ==> #[trigger] bit(king_bits, t) == exists|j: int| 0 <= j < i
                    && king_step(#[trigger] ksq[j], t),
            decreases king_squares@.len() - i,
        {
            let square = king_squares[i];
            assert(square == ksq[i as int]);
            let moves = king_moves(square as i8);
            let ghost old_bits = king_bits;
            king_bits = king_bits | moves;
            proof {
                assert forall|t: int| 0 <= t < 64 implies #[trigger] bit(king_bits, t) == exists|j: int| 0 <= j < i + 1
                    && king_step(#[trigger] ksq[j], t) by {
                    lemma_bit_or(old_bits, moves, t);
                    if exists|j: int| 0 <= j < i + 1 && king_step(#[trigger] ksq[j], t) {
                        let j = choose|j: int| 0 <= j < i + 1 && king_step(#[trigger] ksq[j], t);
                        if j < i {
                            assert(bit(old_bits, t));
                        }
                    }
                    if bit(moves, t) {
                        assert(king_step(ksq[i as int], t));
                    }
                }
            }
            i = i + 1;
        }

        //Sliders
        let diagonal_sliders = self.diagonal_slider & opponent;
        let diagonal_bits = gen_bishop_moves_kogge(diagonal_sliders, 0, occupied);
        let orthogonal_sliders = self.orthogonal_slider & opponent;
        let orthogonal_bits = gen_rook_moves_kogge(orthogonal_sliders, 0, occupied);

        //Pawns
        let dy: i8 = match attacker_color {
            PlayerColor::White => 1,
            PlayerColor::Black => -1,
        };
        let pawns = self.pawn & opponent;
        let pawn_right = pawns.translate(1, dy);
        let pawn_left = pawns.translate(-1, dy);
        let attacked_bits = (knight_bits | king_bits) | diagonal_bits | orthogonal_bits | (pawn_right | pawn_left);
        proof {
            assert forall|a: int| 0 <= a < 64 && #[trigger] bit(diagonal_sliders, a) implies bit(occupied, a) by {
                self.lemma_bits_of(a);
                lemma_bit_and(self.diagonal_slider, opponent, a);
                lemma_bit_and(self.white_piece | self.black_piece, !(self.king & allied), a);
                lemma_bit_or(self.white_piece, self.black_piece, a);
                lemma_bit_not(self.king & allied, a);
                lemma_bit_and(self.king, allied, a);
            }
            assert forall|a: int| 0 <= a < 64 && #[trigger] bit(orthogonal_sliders, a) implies bit(occupied, a) by {
                self.lemma_bits_of(a);
                lemma_bit_and(self.orthogonal_slider, opponent, a);
                lemma_bit_and(self.white_piece | self.black_piece, !(self.king & allied), a);
                lemma_bit_or(self.white_piece, self.black_piece, a);
                lemma_bit_not(self.king & allied, a);
                lemma_bit_and(self.king, allied, a);
            }
            assert forall|t: int| 0 <= t < 64 implies #[trigger] bit(attacked_bits, t) == attacked_through_king(b, attacker_color, t) by {
                lemma_bit_or((knight_bits | king_bits) | diagonal_bits | orthogonal_bits, pawn_right | pawn_left, t);
                lemma_bit_or((knight_bits | king_bits) | diagonal_bits, orthogonal_bits, t);
                lemma_bit_or(knight_bits | king_bits, diagonal_bits, t);
                lemma_bit_or(knight_bits, king_bits, t);
                lemma_bit_or(pawn_right, pawn_left, t);
                lemma_bishop_kogge_attacks(diagonal_sliders, occupied, t);
                lemma_rook_kogge_attacks(orthogonal_sliders, occupied, t);
                lemma_translate_any(pawns, 1, dy as int, t);
                lemma_translate_any(pawns, -1, dy as int, t);
                if exists|a: int| 0 <= a < 64 && bit(knights, a) && #[trigger] knight_step(a, t) {
                    let a = choose|a: int| 0 <= a < 64 && bit(knights, a) && #[trigger] knight_step(a, t);
                    lemma_set_squares_has(knights, a);
                    let j = choose|j: int| 0 <= j < sq.len() && sq[j] == a;
                    assert(knight_step(sq[j], t));
                }
                if bit(knight_bits, t) {
                    let j = choose|j: int| 0 <= j < sq.len() && knight_step(#[trigger] sq[j], t);
                    assert(bit(knights, sq[j]));
                }
                if exists|a: int| 0 <= a < 64 && bit(kings, a) && #[trigger] king_step(a, t) {
                    let a = choose|a: int| 0 <= a < 64 && bit(kings, a) && #[trigger] king_step(a, t);
                    lemma_set_squares_has(kings, a);
                    let j = choose|j: int| 0 <= j < ksq.len() && ksq[j] == a;
                    assert(king_step(ksq[j], t));
                }
                if bit(king_bits, t) {
                    let j = choose|j: int| 0 <= j < ksq.len() && king_step(#[trigger] ksq[j], t);
                    assert(bit(kings, ksq[j]));
                }
                if exists|a: int| 0 <= a < 64 && bit(pawns, a) && #[trigger] pawn_attack(attacker_color, a, t) {
                    let a = choose|a: int| 0 <= a < 64 && bit(pawns, a) && #[trigger] pawn_attack(attacker_color, a, t);
                    if file_diff(a, t) == 1 {
                        assert(translated_bit(pawns, 1, dy as int, t));
                    } else {
                        assert(translated_bit(pawns, -1, dy as int, t));
                    }
                }
                if translated_bit(pawns, 1, dy as int, t) {
                    let a = choose|a: int| 0 <= a < 64 && #[trigger] bit(pawns, a) && file_diff(a, t) == 1 && rank_diff(a, t) == dy;
                    assert(pawn_attack(attacker_color, a, t));
                }
                if translated_bit(pawns, -1, dy as int, t) {
                    let a = choose|a: int| 0 <= a < 64 && #[trigger] bit(pawns, a) && file_diff(a, t) == -1 && rank_diff(a, t) == dy;
                    assert(pawn_attack(attacker_color, a, t));
                }
                if bit(knight_bits, t) { assert(attacked_through_king(b, attacker_color, t)); }
                if bit(king_bits, t) { assert(attacked_through_king(b, attacker_color, t)); }
                if bit(diagonal_bits, t) {
                    let a = choose|a: int| 0 <= a < 64 && bit(diagonal_sliders, a) && #[trigger] bishop_target(a, t, 0, occupied);
                    assert(bishop_target(a, t, 0, occupied_through_king(b, attacker_color)));
                }
                if bit(orthogonal_bits, t) {
                    let a = choose|a: int| 0 <= a < 64 && bit(orthogonal_sliders, a) && #[trigger] rook_target(a, t, 0, occupied);
                    assert(rook_target(a, t, 0, occupied_through_king(b, attacker_color)));
                }
                if bit(pawn_right, t) { assert(attacked_through_king(b, attacker_color, t)); }
                if bit(pawn_left, t) { assert(attacked_through_king(b, attacker_color, t)); }
            }
        }
        attacked_bits
    }
}

impl DynamicState for BitBoard {
    open spec fn squares(&self) -> Seq<ColoredPieceType> {
        self@
    }

    open spec fn valid(&self) -> bool {
        self.wf()
    }

    fn empty() -> (r: BitBoard)
    {
        let r = BitBoard {
            white_piece: 0,
            black_piece: 0,
            pawn: 0,
            knight: 0,
            diagonal_slider: 0,
            orthogonal_slider: 0,
            king: 0,
        };
        proof {
            assert forall|s: int| 0 <= s < 64 implies #[trigger] r.square_wf(s) by {
                crate::board::bit_array::lemma_bit_zero(s);
            }
            assert forall|s: int| 0 <= s < 64 implies #[trigger] r.piece_at(s) == ColoredPieceType::Empty by {
                crate::board::bit_array::lemma_bit_zero(s);
            }
            assert(r@ =~= Seq::new(64, |s: int| ColoredPieceType::Empty));
        }
        r
    }
    /// Puts piece `pt` on the empty square `square`.
    fn add_piece(&mut self, pt: ColoredPieceType, square: i8)
    {
        match pt.color() {
            PlayerColor::White => {
                self.white_piece.set_bit(square);
                self.black_piece.clear_bit(square);
            },
            PlayerColor::Black => {
                self.black_piece.set_bit(square);
                self.white_piece.clear_bit(square);
            },
        }
        match pt.piece_type() {
            PieceType::Pawn => self.pawn.set_bit(square),
            PieceType::Knight => self.knight.set_bit(square),
            PieceType::Bishop => self.diagonal_slider.set_bit(square),
            PieceType::Rook => self.orthogonal_slider.set_bit(square),
            PieceType::Queen => {
                self.diagonal_slider.set_bit(square);
                self.orthogonal_slider.set_bit(square);
            },
            PieceType::King => self.king.set_bit(square),
            PieceType::Empty => {},
        }
        proof {
            old(self).lemma_square_shows(square as int);
            assert(self.square_shows(square as int, pt));
            self.lemma_shows_wf(square as int, pt);
            assert forall|s: int| 0 <= s < 64 && s != square implies #[trigger] self.square_wf(s)
                && self.piece_at(s) == old(self).piece_at(s) by {
                assert(old(self).square_wf(s));
            }
            assert(self@ =~= old(self)@.update(square as int, pt));
        }
    }
    /// Takes piece `pt` from square `square`.
    fn remove_piece(&mut self, pt: ColoredPieceType, square: i8)
    {
        match pt.color() {
            PlayerColor::White => self.white_piece.clear_bit(square),
            PlayerColor::Black => self.black_piece.clear_bit(square),
        }
        match pt.piece_type() {
            PieceType::Pawn => self.pawn.clear_bit(square),
            PieceType::Knight => self.knight.clear_bit(square),
            PieceType::Bishop => self.diagonal_slider.clear_bit(square),
            PieceType::Rook => self.orthogonal_slider.clear_bit(square),
            PieceType::Queen => {
                self.diagonal_slider.clear_bit(square);
                self.orthogonal_slider.clear_bit(square);
            },
            PieceType::King => self.king.clear_bit(square),
            PieceType::Empty => {},
        }
        proof {
            old(self).lemma_square_shows(square as int);
            assert(self.square_shows(square as int, ColoredPieceType::Empty));
            self.lemma_shows_wf(square as int, ColoredPieceType::Empty);
            assert forall|s: int| 0 <= s < 64 && s != square implies #[trigger] self.square_wf(s)
                && self.piece_at(s) == old(self).piece_at(s) by {
                assert(old(self).square_wf(s));
            }
            assert(self@ =~= old(self)@.update(square as int, ColoredPieceType::Empty));
        }
    }

    fn make_move(&mut self, m: ChessMove) {
        if m.is_castle() {
            let (rook_start, rook_end) = castle_squares(m);
            self.remove_piece(PieceType::Rook.colored(m.move_piece.color()), rook_start);
            self.add_piece(PieceType::Rook.colored(m.move_piece.color()), rook_end);
        }
        if m.is_direct_capture() {
            self.remove_piece(m.captured_piece, m.end);
        }
        self.remove_piece(m.move_piece, m.start);
        if m.is_en_passant() {
            let victim = en_passant_square(m);
            self.remove_piece(m.move_piece.opposite(), victim);
        }
        if m.is_promotion() {
            self.add_piece(m.promotion_piece, m.end);
        } else {
            self.add_piece(m.move_piece, m.end);
        }
    }

    fn undo_move(&mut self, m: ChessMove) {
        if m.is_castle() {
            let (rook_start, rook_end) = castle_squares(m);
            self.remove_piece(PieceType::Rook.colored(m.move_piece.color()), rook_end);
            self.add_piece(PieceType::Rook.colored(m.move_piece.color()), rook_start);
        }
        if m.is_promotion() {
            self.remove_piece(m.promotion_piece, m.end);
        } else {
            self.remove_piece(m.move_piece, m.end);
        }
        if m.is_direct_capture() {
            self.add_piece(m.captured_piece, m.end);
        }
        if m.is_en_passant() {
            let victim = en_passant_square(m);
            self.add_piece(m.move_piece.opposite(), victim);
        }
        self.add_piece(m.move_piece, m.start);
    }
}

} // verus!
