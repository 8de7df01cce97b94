use vstd::prelude::*;
use crate::board::dynamic_state::DynamicState;
use std::collections::HashSet;
use crate::board::dynamic_state::{after_move, before_move, law_undo_after_make, move_applicable};
use crate::board::piece_board::{start_position_board, PieceBoard};
use crate::board::piece_type::ColoredPieceType;
use crate::board::player_color::PlayerColor;
use crate::board::square::valid_square;
use crate::board::zobrist_hash::{law_hash_make_move, law_hash_undo_move, position_hash, ZobristHash};
use crate::fen::fen_helper::{fen_spec, fen_text};
use crate::game::board_state::BoardState;
use crate::game::game_flags::{double_push_passed, flags_after_move, initial_flags, is_double_push, GameFlags};
use crate::moves::chess_move::ChessMove;
use crate::moves::move_gen::{has_king, iterator_starts, iterator_targets, legal_masks_spec, legal_moves_spec};
use crate::moves::move_iterator::MoveIterator;
use crate::moves::pseudo_move_gen::in_check_spec;
use crate::game::playable_moves::flags_fit;
use crate::board::bit_board::king_square;
use crate::moves::slider_gen::SliderTables;
use crate::moves::move_vector::{copy_move_vector, move_items, MoveVector};

verus! {

broadcast use vstd::std_specs::hash::group_hash_axioms;

/// A game: the position, the moves made to reach it with the flags before and after each,
/// the hash of the position, and the hashes of the positions that the game has left.
pub struct GameState {
    pub board_state: BoardState,
    pub zobrist_hash: ZobristHash,
    pub visited_pos: HashSet<u64>,
    pub move_stack: Vec<ChessMove>,
    pub flag_stack: Vec<GameFlags>,
    pub legal_moves: Option<MoveVector>,
    pub history: Ghost<Seq<Seq<ColoredPieceType>>>,
}

/// The flags of a game are valid: each en passant square is a square or none.
pub open spec fn flags_ok(flags: Seq<GameFlags>) -> bool {
    forall|i: int| 0 <= i < flags.len() ==> 0 <= #[trigger] flags[i].en_passant_square <= 64
}

/// A move that a game can make in position `v`.
pub open spec fn playable(v: Seq<ColoredPieceType>, m: ChessMove) -> bool {
    &&& move_applicable(v, m)
    &&& is_double_push(m) ==> valid_square(double_push_passed(m))
}

impl GameState {
    /// The positions before each move of the game, in order.
    pub open spec fn positions(&self) -> Seq<Seq<ColoredPieceType>> {
        self.history@
    }

    /// The flags of the position reached.
    pub open spec fn flags(&self) -> GameFlags {
        self.flag_stack@.last()
    }

    /// The hashes of the positions that the game has left, in order.
    pub open spec fn left_hashes(&self) -> Seq<u64> {
        Seq::new(self.move_stack@.len(), |i: int| position_hash(self.positions()[i], self.flag_stack@[i]))
    }

    /// The position after the first `i` moves.
    pub open spec fn position_at(&self, i: int) -> Seq<ColoredPieceType> {
        if i < self.move_stack@.len() {
            self.positions()[i]
        } else {
            self.board_state@
        }
    }

    /// The game is consistent: each move was playable where it was made and led to the next
    /// position with the next flags, the hash is that of the position reached, the set of
    /// visited hashes holds the hashes of the positions left, no two of them the same, and kept
    /// legal moves are those of the position reached.
    pub open spec fn wf(&self) -> bool {
        let n = self.move_stack@.len();
        &&& self.board_state.wf()
        &&& self.flag_stack@.len() == n + 1
        &&& self.positions().len() == n
        &&& flags_ok(self.flag_stack@)
        &&& forall|i: int| 0 <= i < n ==> playable(#[trigger] self.positions()[i], self.move_stack@[i])
        &&& forall|i: int|
            0 <= i < n ==> after_move(#[trigger] self.positions()[i], self.move_stack@[i]) == self.position_at(i + 1)
        &&& forall|i: int|
            0 <= i < n ==> #[trigger] self.flag_stack@[i + 1] == flags_after_move(
                self.flag_stack@[i],
                self.move_stack@[i],
                self.position_at(i + 1),
            )
        &&& self.zobrist_hash.hash == position_hash(self.board_state@, self.flags())
        &&& self.visited_pos@ == self.left_hashes().to_set()
        &&& self.left_hashes().no_duplicates()
        &&& self.legal_moves matches Some(k) ==> move_items(k) == legal_moves_spec(
            self.board_state.bit_board,
            self.board_state@,
            self.flags(),
        )
    }

    /// A game at position `v` with flags `flags`, no move made yet.
    fn fresh(piece_board: &PieceBoard, flags: GameFlags) -> (r: GameState)
        requires
            0 <= flags.en_passant_square <= 64,
        ensures
            r.wf(),
            r.board_state@ == piece_board@,
            r.flag_stack@ == seq![flags],
            r.move_stack@ == Seq::<ChessMove>::empty(),
            r.visited_pos@ == Set::<u64>::empty(),
            r.legal_moves is None,
    {
        let r = GameState {
            board_state: BoardState::from_piece_board(piece_board),
            move_stack: Vec::new(),
            flag_stack: vec![flags],
            zobrist_hash: ZobristHash::from_position(piece_board, flags),
            legal_moves: None,
            visited_pos: HashSet::new(),
            history: Ghost(Seq::empty()),
        };
        proof {
            assert(r.left_hashes() =~= Seq::<u64>::empty());
            assert(r.left_hashes().to_set() =~= Set::<u64>::empty());
        }
        r
    }

    /// The game at the start position.
    pub fn start_position() -> (r: GameState)
        ensures
            r.wf(),
            r.board_state@ == start_position_board(),
            r.flag_stack@ == seq![initial_flags()],
            r.move_stack@ == Seq::<ChessMove>::empty(),
            r.visited_pos@ == Set::<u64>::empty(),
            r.legal_moves is None,
            flags_fit(r.board_state@, r.flags()),
    {
        let pb = PieceBoard::start_position();
        let r = GameState::fresh(&pb, GameFlags::start_flags());
        proof {
            let v = start_position_board();
            assert(v[4] == ColoredPieceType::WhiteKing && v[0] == ColoredPieceType::WhiteRook && v[7] == ColoredPieceType::WhiteRook);
            assert(v[60] == ColoredPieceType::BlackKing && v[56] == ColoredPieceType::BlackRook && v[63] == ColoredPieceType::BlackRook);
            assert(king_square(v, PlayerColor::White, 4));
            assert(king_square(v, PlayerColor::Black, 60));
        }
        r
    }

    /// The game at the position that `fen` describes.
    pub fn from_fen(fen: &str) -> (r: GameState)
        requires
            fen_spec(fen@) is Some,
        ensures
            r.wf(),
            fen_spec(fen@) == Some((r.board_state@, r.flags())),
            r.flag_stack@.len() == 1,
            r.move_stack@ == Seq::<ChessMove>::empty(),
            r.visited_pos@ == Set::<u64>::empty(),
            r.legal_moves is None,
    {
        let (pb, flags) = crate::fen::fen_helper::from_fen(fen);
        proof {
            crate::fen::fen_helper::lemma_fen_en_passant(fen@);
        }
        GameState::fresh(&pb, flags)
    }

    /// The flags of the position reached.
    pub fn get_flags(&self) -> (r: GameFlags)
        requires
            self.flag_stack@.len() > 0,
        ensures
            r == self.flags(),
    {
        self.flag_stack[self.flag_stack.len() - 1]
    }

    /// The last move made, if any.
    pub fn last_move(&self) -> (r: Option<ChessMove>)
        ensures
            r == (if self.move_stack@.len() == 0 {
                None
            } else {
                Some(self.move_stack@.last())
            }),
    {
        if self.move_stack.len() == 0 {
            None
        } else {
            Some(self.move_stack[self.move_stack.len() - 1])
        }
    }

    /// The side to move.
    pub fn active_color(&self) -> (r: PlayerColor)
        requires
            self.flag_stack@.len() > 0,
        ensures
            r == self.flags().active_color,
    {
        self.flag_stack[self.flag_stack.len() - 1].active_color
    }

    /// The FEN text of the position reached.
    pub fn to_fen(&self) -> (r: String)
        requires
            self.flag_stack@.len() > 0,
        ensures
            r@ == fen_text(self.board_state@, self.flags()),
    {
        crate::fen::fen_helper::to_fen(&self.board_state.piece_board, &self.get_flags())
    }

    /// Makes move `m`: the hash of the position left joins the visited hashes (the position
    /// must not have been visited before), the position and the flags follow the move, and the
    /// hash is updated piece by piece.
    pub fn make_move(&mut self, m: ChessMove)
        requires
            old(self).wf(),
            playable(old(self).board_state@, m),
            !old(self).visited_pos@.contains(old(self).zobrist_hash.hash),
        ensures
            final(self).wf(),
            final(self).board_state@ == after_move(old(self).board_state@, m),
            final(self).move_stack@ == old(self).move_stack@.push(m),
            final(self).flag_stack@ == old(self).flag_stack@.push(
                flags_after_move(old(self).flags(), m, after_move(old(self).board_state@, m)),
            ),
            final(self).visited_pos@ == old(self).visited_pos@.insert(old(self).zobrist_hash.hash),
            final(self).legal_moves is None,
    {
        let ghost before = *self;
        let ghost v = self.board_state@;
        self.legal_moves = None;
        let fresh = self.visited_pos.insert(self.zobrist_hash.hash);
        assert(fresh);
        self.board_state.make_move(m);
        self.move_stack.push(m);
        let old_flags = self.flag_stack[self.flag_stack.len() - 1];
        let mut new_flags = old_flags;
        self.zobrist_hash.make_move(m);
        self.zobrist_hash.toggle_flags(old_flags);
        new_flags.make_move(m, &self.board_state.bit_board);
        self.zobrist_hash.toggle_flags(new_flags);
        self.flag_stack.push(new_flags);
        proof {
            self.history = Ghost(before.positions().push(v));
            law_hash_make_move(v, m, old_flags, new_flags);
            let n = before.move_stack@.len();
            assert(self.left_hashes() =~= before.left_hashes().push(before.zobrist_hash.hash));
            before.left_hashes().lemma_push_to_set_commute(before.zobrist_hash.hash);
            assert(!before.left_hashes().contains(before.zobrist_hash.hash));
            assert forall|i: int| 0 <= i < n + 1 implies after_move(#[trigger] self.positions()[i], self.move_stack@[i])
                == self.position_at(i + 1) by {
                if i < n {
                    assert(before.position_at(i + 1) == self.position_at(i + 1));
                }
            }
            assert forall|i: int| 0 <= i < n + 1 implies #[trigger] self.flag_stack@[i + 1] == flags_after_move(
                self.flag_stack@[i],
                self.move_stack@[i],
                self.position_at(i + 1),
            ) by {
                if i < n {
                    assert(before.flag_stack@[i + 1] == self.flag_stack@[i + 1]);
                    assert(before.position_at(i + 1) == self.position_at(i + 1));
                }
            }
            assert(flags_ok(self.flag_stack@));
        }
    }

    /// Takes back the last move: the position, the flags and the hash return to what they
    /// were before it, and that position's hash leaves the visited hashes.
    pub fn undo_move(&mut self)
        requires
            old(self).wf(),
            old(self).move_stack@.len() > 0,
        ensures
            final(self).wf(),
            final(self).board_state@ == before_move(old(self).board_state@, old(self).move_stack@.last()),
            final(self).move_stack@ == old(self).move_stack@.drop_last(),
            final(self).flag_stack@ == old(self).flag_stack@.drop_last(),
            final(self).visited_pos@ == old(self).visited_pos@.remove(final(self).zobrist_hash.hash),
            final(self).legal_moves is None,
    {
        let ghost before = *self;
        let ghost n: int = before.move_stack@.len() as int;
        let ghost prev = before.positions()[n - 1];
        self.legal_moves = None;
        let m = self.move_stack.pop().unwrap();
        proof {
            assert(after_move(prev, m) == before.position_at(n));
            law_undo_after_make(prev, m);
        }
        self.board_state.undo_move(m);
        self.zobrist_hash.undo_move(m);
        let top_flag = self.flag_stack.pop().unwrap();
        proof {
            assert(0 <= before.flag_stack@[n].en_passant_square <= 64);
            assert(0 <= before.flag_stack@[n - 1].en_passant_square <= 64);
        }
        self.zobrist_hash.toggle_flags(top_flag);
        let prev_flags = self.flag_stack[self.flag_stack.len() - 1];
        self.zobrist_hash.toggle_flags(prev_flags);
        proof {
            law_hash_undo_move(before.board_state@, m, prev_flags, top_flag);
            assert(before.left_hashes()[n - 1] == self.zobrist_hash.hash);
        }
        let found = self.visited_pos.remove(&self.zobrist_hash.hash);
        proof {
            assert(before.left_hashes().contains(self.zobrist_hash.hash));
        }
        assert(found);
        proof {
            self.history = Ghost(before.positions().drop_last());
            let hs = before.left_hashes();
            assert(self.left_hashes() =~= hs.drop_last());
            assert forall|x: u64| #[trigger] hs.drop_last().contains(x) <==> (hs.contains(x) && x != hs[n - 1]) by {
                if hs.drop_last().contains(x) {
                    let j = choose|j: int| 0 <= j < n - 1 && hs.drop_last()[j] == x;
                    assert(hs[j] == x);
                }
                if hs.contains(x) && x != hs[n - 1] {
                    let j = choose|j: int| 0 <= j < n && hs[j] == x;
                    assert(hs.drop_last()[j] == x);
                }
            }
            assert(self.left_hashes().to_set() =~= hs.to_set().remove(hs[n - 1]));
            assert forall|i: int| 0 <= i < n - 1 implies after_move(#[trigger] self.positions()[i], self.move_stack@[i])
                == self.position_at(i + 1) by {
                assert(before.position_at(i + 1) == self.position_at(i + 1));
            }
            assert forall|i: int| 0 <= i < n - 1 implies #[trigger] self.flag_stack@[i + 1] == flags_after_move(
                self.flag_stack@[i],
                self.move_stack@[i],
                self.position_at(i + 1),
            ) by {
                assert(before.flag_stack@[i + 1] == self.flag_stack@[i + 1]);
                assert(before.position_at(i + 1) == self.position_at(i + 1));
            }
        }
    }

    /// The legal moves of the side to move, kept until the next move is made or taken back.
    pub fn gen_legal_moves(&mut self) -> (r: MoveVector)
        requires
            old(self).wf(),
            has_king(old(self).board_state.bit_board, old(self).flags().active_color),
            legal_moves_spec(old(self).board_state.bit_board, old(self).board_state@, old(self).flags()).len() <= 200,
        ensures
            final(self).wf(),
            final(self).board_state == old(self).board_state,
            final(self).move_stack@ == old(self).move_stack@,
            final(self).flag_stack@ == old(self).flag_stack@,
            final(self).visited_pos@ == old(self).visited_pos@,
            final(self).zobrist_hash == old(self).zobrist_hash,
            move_items(r) == legal_moves_spec(old(self).board_state.bit_board, old(self).board_state@, old(self).flags()),
            final(self).legal_moves matches Some(k) && move_items(k) == move_items(r),
    {
        let flags = self.get_flags();
        let moves = crate::moves::move_gen::gen_legal_moves(&self.board_state, &flags);
        let kept = copy_move_vector(&moves);
        self.legal_moves = Some(kept);
        moves
    }

    /// The legal moves of the side to move and whether its king is attacked, kept until the next
    /// move is made or taken back; where moves are kept already, those and `false`.
    pub fn gen_legal_moves_check(&mut self) -> (r: (MoveVector, bool))
        requires
            old(self).wf(),
            has_king(old(self).board_state.bit_board, old(self).flags().active_color),
            legal_moves_spec(old(self).board_state.bit_board, old(self).board_state@, old(self).flags()).len() <= 200,
        ensures
            final(self).wf(),
            final(self).board_state == old(self).board_state,
            final(self).move_stack@ == old(self).move_stack@,
            final(self).flag_stack@ == old(self).flag_stack@,
            final(self).visited_pos@ == old(self).visited_pos@,
            final(self).zobrist_hash == old(self).zobrist_hash,
            move_items(r.0) == legal_moves_spec(old(self).board_state.bit_board, old(self).board_state@, old(self).flags()),
            r.1 == (old(self).legal_moves is None && in_check_spec(old(self).board_state@, old(self).flags().active_color)),
            final(self).legal_moves matches Some(k) && move_items(k) == move_items(r.0),
    {
        let mut check = false;
        if self.legal_moves.is_none() {
            let flags = self.get_flags();
            let moves = crate::moves::move_gen::gen_legal_moves(&self.board_state, &flags);
            proof {
                let b = self.board_state.bit_board;
                b.lemma_king_of_bit(flags.active_color);
            }
            check = self.board_state.is_in_check(flags.active_color);
            proof {
                crate::moves::pseudo_move_gen::lemma_in_check(self.board_state@, flags.active_color, check);
            }
            self.legal_moves = Some(moves);
        }
        let kept = match &self.legal_moves {
            Some(k) => copy_move_vector(k),
            None => crate::moves::move_vector::new_move_vector(),
        };
        (kept, check)
    }

    /// The legal moves of the side to move, held as bitboards (slider moves read from
    /// `tables`).
    pub fn gen_legal_moves_iterator(&self, tables: &SliderTables) -> (r: MoveIterator)
        requires
            self.wf(),
            tables.wf(),
            has_king(self.board_state.bit_board, self.flags().active_color),
            iterator_starts(self.board_state.bit_board, self.flags()).len() <= 16,
            legal_masks_spec(self.board_state.bit_board, self.flags()).queen_castle ==> 2 <= legal_masks_spec(
                self.board_state.bit_board,
                self.flags(),
            ).king,
            legal_masks_spec(self.board_state.bit_board, self.flags()).king_castle ==> legal_masks_spec(
                self.board_state.bit_board,
                self.flags(),
            ).king < 62,
        ensures
            r.wf(),
            r.starts() == iterator_starts(self.board_state.bit_board, self.flags()),
            r.targets() == iterator_targets(self.board_state.bit_board, self.flags()),
            r.left() == legal_masks_spec(self.board_state.bit_board, self.flags()).left_pinned | legal_masks_spec(
                self.board_state.bit_board,
                self.flags(),
            ).left_free,
            r.right() == legal_masks_spec(self.board_state.bit_board, self.flags()).right_pinned | legal_masks_spec(
                self.board_state.bit_board,
                self.flags(),
            ).right_free,
            r.pushes() == legal_masks_spec(self.board_state.bit_board, self.flags()).push_pinned | legal_masks_spec(
                self.board_state.bit_board,
                self.flags(),
            ).push_free,
            r.doubles() == legal_masks_spec(self.board_state.bit_board, self.flags()).double_pinned | legal_masks_spec(
                self.board_state.bit_board,
                self.flags(),
            ).double_free,
    {
        let flags = self.get_flags();
        crate::moves::move_gen::gen_legal_moves_iterator(tables, &self.board_state, &flags)
    }
}

/// Making a move and taking it back leaves the game as it was: the same position, moves,
/// flags, hash and visited hashes.
pub proof fn law_undo_after_make_game(before: GameState, after: GameState, back: GameState, m: ChessMove)
    requires
        before.wf(),
        playable(before.board_state@, m),
        !before.visited_pos@.contains(before.zobrist_hash.hash),
        after.wf(),
        after.board_state@ == after_move(before.board_state@, m),
        after.move_stack@ == before.move_stack@.push(m),
        after.flag_stack@ == before.flag_stack@.push(flags_after_move(before.flags(), m, after_move(before.board_state@, m))),
        after.visited_pos@ == before.visited_pos@.insert(before.zobrist_hash.hash),
        back.wf(),
        back.board_state@ == before_move(after.board_state@, after.move_stack@.last()),
        back.move_stack@ == after.move_stack@.drop_last(),
        back.flag_stack@ == after.flag_stack@.drop_last(),
        back.visited_pos@ == after.visited_pos@.remove(back.zobrist_hash.hash),
    ensures
        back.board_state@ == before.board_state@,
        back.move_stack@ == before.move_stack@,
        back.flag_stack@ == before.flag_stack@,
        back.zobrist_hash == before.zobrist_hash,
        back.visited_pos@ == before.visited_pos@,
{
    law_undo_after_make(before.board_state@, m);
    assert(after.move_stack@.last() == m);
    assert(back.move_stack@ =~= before.move_stack@);
    assert(back.flag_stack@ =~= before.flag_stack@);
    assert(back.visited_pos@ =~= before.visited_pos@);
}

} // verus!
