use vstd::prelude::*;
use crate::board::bit_array::bit;
use crate::board::square::Square;
use crate::board::bit_array_lookup::{king_moves, king_step, knight_moves, knight_step, pawn_attack, pawn_attacks};
use crate::board::bit_board::BitBoard;
use crate::board::field_counter::FieldCounter;
use crate::board::piece_type::{color_of, is_diagonal_slider_type, is_orthogonal_slider_type, piece_type_of, ColoredPieceType, PieceType};
use crate::board::player_color::PlayerColor;
use crate::moves::slider_gen::{bishop_kogge, gen_bishop_moves_kogge, gen_rook_moves_kogge, rook_kogge};

verus! {

/// The squares attacked by each side, kept up to date as pieces come and go.
pub struct AttackBoard {
    white: ColoredAttackBoard<true>,
    black: ColoredAttackBoard<false>,
}

/// The squares attacked by one side (white where `WHITE` holds): how many of its pawns,
/// knights and kings attack each square, and the squares that sliders attack.
pub struct ColoredAttackBoard<const WHITE: bool> {
    direct: FieldCounter,
    orthogonal: u64,
    diagonal: u64,
}

/// The squares that a piece of `pt` on `s` attacks directly when it belongs to the side that
/// `white` names: a pawn's two captures, a knight's jumps, a king's steps.
pub open spec fn direct_attack(pt: ColoredPieceType, white: bool, s: int, t: int) -> bool {
    let c = if white { PlayerColor::White } else { PlayerColor::Black };
    match piece_type_of(pt) {
        PieceType::Pawn => pawn_attack(c, s, t),
        PieceType::Knight => knight_step(s, t),
        PieceType::King => king_step(s, t),
        _ => false,
    }
}

/// The piece `pt` belongs to the side that `white` names.
pub open spec fn owned(pt: ColoredPieceType, white: bool) -> bool {
    (color_of(pt) == PlayerColor::White) == white
}

impl<const WHITE: bool> ColoredAttackBoard<WHITE> {
    /// How many pawns, knights and kings of the side attack square `t`.
    pub closed spec fn direct_count(&self, t: int) -> int {
        self.direct.value_at(t)
    }

    /// The squares that the orthogonal sliders attack, as last computed.
    pub closed spec fn orthogonal_attacks(&self) -> u64 {
        self.orthogonal
    }

    /// The squares that the diagonal sliders attack, as last computed.
    pub closed spec fn diagonal_attacks(&self) -> u64 {
        self.diagonal
    }

    /// `after` is `before` once a piece `pt` has come to or left `s` (as `added` says) on the
    /// board `b`: the slider attacks are computed anew where `s` was attacked or the piece is a
    /// slider of the side (from the white sliders), and the direct counts of its attacks go up
    /// or down by one (wrapping past 7) where the piece is the side's.
    pub open spec fn changed(before: Self, after: Self, pt: ColoredPieceType, s: int, b: BitBoard, added: bool) -> bool {
        let occupied = b.white_piece | b.black_piece;
        let own = owned(pt, WHITE);
        &&& after.orthogonal_attacks() == if bit(before.orthogonal_attacks(), s) || (own && is_orthogonal_slider_type(
            piece_type_of(pt),
        )) {
            rook_kogge(b.orthogonal_slider & b.white_piece, 0, occupied)
        } else {
            before.orthogonal_attacks()
        }
        &&& after.diagonal_attacks() == if bit(before.diagonal_attacks(), s) || (own && is_diagonal_slider_type(
            piece_type_of(pt),
        )) {
            bishop_kogge(b.diagonal_slider & b.white_piece, 0, occupied)
        } else {
            before.diagonal_attacks()
        }
        &&& forall|t: int|
            0 <= t < 64 ==> #[trigger] after.direct_count(t) == if own && direct_attack(pt, WHITE, s, t) {
                if added {
                    (before.direct_count(t) + 1) % 8
                } else {
                    (before.direct_count(t) + 7) % 8
                }
            } else {
                before.direct_count(t)
            }
    }

    pub fn empty() -> (r: ColoredAttackBoard<WHITE>)
        ensures
            forall|t: int| #[trigger] r.direct_count(t) == 0,
            r.orthogonal_attacks() == 0,
            r.diagonal_attacks() == 0,
    {
        ColoredAttackBoard { direct: FieldCounter::empty(), orthogonal: 0, diagonal: 0 }
    }

    /// The squares that the side attacks.
    pub fn attacks(&self) -> (r: u64)
        ensures
            forall|t: int|
                0 <= t < 64 ==> #[trigger] bit(r, t) == (self.direct_count(t) > 0 || bit(self.orthogonal_attacks(), t)
                    || bit(self.diagonal_attacks(), t)),
    {
        let direct = self.direct.attacked();
        let r = direct | self.orthogonal | self.diagonal;
        proof {
            assert forall|t: int| 0 <= t < 64 implies #[trigger] bit(r, t) == (self.direct_count(t) > 0 || bit(
                self.orthogonal,
                t,
            ) || bit(self.diagonal, t)) by {
                crate::board::bit_array::lemma_bit_or(direct | self.orthogonal, self.diagonal, t);
                crate::board::bit_array::lemma_bit_or(direct, self.orthogonal, t);
            }
        }
        r
    }

    /// The squares that a piece of `pt` on `s` attacks directly when it is the side's.
    fn direct_mask(pt: ColoredPieceType, s: i8) -> (r: u64)
        requires
            0 <= s < 64,
        ensures
            forall|t: int| 0 <= t < 64 ==> #[trigger] bit(r, t) == direct_attack(pt, WHITE, s as int, t),
    {
        match pt.piece_type() {
            PieceType::Pawn => {
                if WHITE {
                    pawn_attacks(PlayerColor::White, s)
                } else {
                    pawn_attacks(PlayerColor::Black, s)
                }
            },
            PieceType::Knight => knight_moves(s),
            PieceType::King => king_moves(s),
            _ => {
                proof {
                    assert forall|t: int| 0 <= t < 64 implies !#[trigger] bit(0u64, t) by {
                        crate::board::bit_array::lemma_bit_zero(t);
                    }
                }
                0
            },
        }
    }

    /// Recomputes the slider attacks that square `s` may have changed, for a piece `pt` that
    /// came to or left it.
    fn update_sliders(&mut self, pt: ColoredPieceType, s: i8, bit_board: &BitBoard)
        requires
            0 <= s < 64,
            pt != ColoredPieceType::Empty,
        ensures
            final(self).direct == old(self).direct,
            final(self).orthogonal == if bit(old(self).orthogonal, s as int) || (owned(pt, WHITE) && is_orthogonal_slider_type(
                piece_type_of(pt),
            )) {
                rook_kogge(bit_board.orthogonal_slider & bit_board.white_piece, 0, bit_board.white_piece | bit_board.black_piece)
            } else {
                old(self).orthogonal
            },
            final(self).diagonal == if bit(old(self).diagonal, s as int) || (owned(pt, WHITE) && is_diagonal_slider_type(
                piece_type_of(pt),
            )) {
                bishop_kogge(bit_board.diagonal_slider & bit_board.white_piece, 0, bit_board.white_piece | bit_board.black_piece)
            } else {
                old(self).diagonal
            },
    {
        let bb = s.bit_array();
        let occupied = bit_board.white_piece | bit_board.black_piece;
        let own = pt.color().is_white() == WHITE;
        proof {
            crate::board::bit_array::lemma_bit_and(self.orthogonal, bb, s as int);
            crate::board::bit_array::lemma_bit_and(self.diagonal, bb, s as int);
            crate::board::bit_array::lemma_nonzero(self.orthogonal & bb);
            crate::board::bit_array::lemma_nonzero(self.diagonal & bb);
            assert forall|t: int| 0 <= t < 64 && t != s implies !bit(self.orthogonal & bb, t) by {
                crate::board::bit_array::lemma_bit_and(self.orthogonal, bb, t);
            }
            assert forall|t: int| 0 <= t < 64 && t != s implies !bit(self.diagonal & bb, t) by {
                crate::board::bit_array::lemma_bit_and(self.diagonal, bb, t);
            }
        }
        let white_orth_slider = bit_board.orthogonal_slider & bit_board.white_piece;
        if self.orthogonal & bb != 0 || own && pt.is_orthogonal_slider() {
            self.orthogonal = gen_rook_moves_kogge(white_orth_slider, 0, occupied);
        }
        let white_diag_slider = bit_board.diagonal_slider & bit_board.white_piece;
        if self.diagonal & bb != 0 || own && pt.is_diagonal_slider() {
            self.diagonal = gen_bishop_moves_kogge(white_diag_slider, 0, occupied);
        }
    }

    /// Counts a piece `pt` that has come to `s` on `bit_board`.
    pub fn add_piece(&mut self, pt: ColoredPieceType, s: i8, bit_board: &BitBoard)
        requires
            0 <= s < 64,
            pt != ColoredPieceType::Empty,
            bit_board.wf(),
            bit_board@[s as int] != ColoredPieceType::Empty,
        ensures
            Self::changed(*old(self), *final(self), pt, s as int, *bit_board, true),
    {
        let ghost before = *self;
        self.update_sliders(pt, s, bit_board);
        if pt.color().is_white() == WHITE {
            let mask = Self::direct_mask(pt, s);
            self.direct.increment(mask);
            proof {
                assert forall|t: int| 0 <= t < 64 implies #[trigger] self.direct_count(t) == if direct_attack(pt, WHITE, s as int, t) {
                    if true {
                        (before.direct_count(t) + 1) % 8
                    } else {
                        (before.direct_count(t) + 7) % 8
                    }
                } else {
                    before.direct_count(t)
                } by {
                    before.direct.lemma_value_range(t);
                    assert(bit(mask, t) == direct_attack(pt, WHITE, s as int, t));
                }
            }
        }
    }

    /// Counts a piece `pt` that has left `s` on `bit_board`.
    pub fn remove_piece(&mut self, pt: ColoredPieceType, s: i8, bit_board: &BitBoard)
        requires
            0 <= s < 64,
            pt != ColoredPieceType::Empty,
            bit_board.wf(),
            bit_board@[s as int] == ColoredPieceType::Empty,
        ensures
            Self::changed(*old(self), *final(self), pt, s as int, *bit_board, false),
    {
        let ghost before = *self;
        self.update_sliders(pt, s, bit_board);
        if pt.color().is_white() == WHITE {
            let mask = Self::direct_mask(pt, s);
            self.direct.decrement(mask);
            proof {
                assert forall|t: int| 0 <= t < 64 implies #[trigger] self.direct_count(t) == if direct_attack(pt, WHITE, s as int, t) {
                    if false {
                        (before.direct_count(t) + 1) % 8
                    } else {
                        (before.direct_count(t) + 7) % 8
                    }
                } else {
                    before.direct_count(t)
                } by {
                    before.direct.lemma_value_range(t);
                    assert(bit(mask, t) == direct_attack(pt, WHITE, s as int, t));
                }
            }
        }
    }
}

impl AttackBoard {
    /// The attacks of white's side.
    pub closed spec fn white_board(&self) -> ColoredAttackBoard<true> {
        self.white
    }

    /// The attacks of black's side.
    pub closed spec fn black_board(&self) -> ColoredAttackBoard<false> {
        self.black
    }

    pub fn empty() -> (r: AttackBoard)
        ensures
            forall|t: int| #[trigger] r.white_board().direct_count(t) == 0 && r.black_board().direct_count(t) == 0,
            r.white_board().orthogonal_attacks() == 0 && r.white_board().diagonal_attacks() == 0,
            r.black_board().orthogonal_attacks() == 0 && r.black_board().diagonal_attacks() == 0,
    {
        AttackBoard { white: ColoredAttackBoard::empty(), black: ColoredAttackBoard::empty() }
    }

    /// The squares that side `color` attacks.
    pub fn attacks(&self, color: PlayerColor) -> (r: u64)
        ensures
            color == PlayerColor::White ==> forall|t: int|
                0 <= t < 64 ==> #[trigger] bit(r, t) == (self.white_board().direct_count(t) > 0 || bit(
                    self.white_board().orthogonal_attacks(),
                    t,
                ) || bit(self.white_board().diagonal_attacks(), t)),
            color == PlayerColor::Black ==> forall|t: int|
                0 <= t < 64 ==> #[trigger] bit(r, t) == (self.black_board().direct_count(t) > 0 || bit(
                    self.black_board().orthogonal_attacks(),
                    t,
                ) || bit(self.black_board().diagonal_attacks(), t)),
    {
        if color.is_white() {
            self.white.attacks()
        } else {
            self.black.attacks()
        }
    }

    /// Counts a piece `pt` that has come to `s` on `bit_board`, in the attacks of its side.
    pub fn add_piece(&mut self, pt: ColoredPieceType, s: i8, bit_board: &BitBoard)
        requires
            0 <= s < 64,
            pt != ColoredPieceType::Empty,
            bit_board.wf(),
            bit_board@[s as int] != ColoredPieceType::Empty,
        ensures
            color_of(pt) == PlayerColor::White ==> ColoredAttackBoard::<true>::changed(old(self).white_board(), final(self).white_board(),
                pt, s as int, *bit_board, true) && final(self).black_board() == old(self).black_board(),
            color_of(pt) == PlayerColor::Black ==> ColoredAttackBoard::<false>::changed(old(self).black_board(), final(self).black_board(),
                pt, s as int, *bit_board, true) && final(self).white_board() == old(self).white_board(),
    {
        if pt.color().is_white() {
            self.white.add_piece(pt, s, bit_board);
        } else {
            self.black.add_piece(pt, s, bit_board);
        }
    }

    /// Counts a piece `pt` that has left `s` on `bit_board`, in the attacks of its side.
    pub fn remove_piece(&mut self, pt: ColoredPieceType, s: i8, bit_board: &BitBoard)
        requires
            0 <= s < 64,
            pt != ColoredPieceType::Empty,
            bit_board.wf(),
            bit_board@[s as int] == ColoredPieceType::Empty,
        ensures
            color_of(pt) == PlayerColor::White ==> ColoredAttackBoard::<true>::changed(old(self).white_board(), final(self).white_board(),
                pt, s as int, *bit_board, false) && final(self).black_board() == old(self).black_board(),
            color_of(pt) == PlayerColor::Black ==> ColoredAttackBoard::<false>::changed(old(self).black_board(), final(self).black_board(),
                pt, s as int, *bit_board, false) && final(self).white_board() == old(self).white_board(),
    {
        if pt.color().is_white() {
            self.white.remove_piece(pt, s, bit_board);
        } else {
            self.black.remove_piece(pt, s, bit_board);
        }
    }
}

} // verus!
