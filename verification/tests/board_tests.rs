use barschbot::board::attack_board::AttackBoard;
use barschbot::board::bit_array::BitArray;
use barschbot::board::bit_board::BitBoard;
use barschbot::board::dynamic_state::DynamicState;
use barschbot::board::piece_type::ColoredPieceType;
use barschbot::board::player_color::PlayerColor;
use barschbot::board::field_counter::FieldCounter;
use barschbot::game::board_state::BoardState;
use barschbot::game::game_flags::GameFlags;
use barschbot::moves::move_gen::gen_legal_moves;
use rand::{Rng, RngCore, SeedableRng};
use rand_chacha::ChaCha8Rng;

fn boards_agree(board_state: &BoardState) -> bool {
    (0..64i8).all(|s| board_state.piece_board.get(s) == board_state.bit_board.get_colored_piecetype(s))
}

#[test]
fn translation_test() {
    let mut v = Vec::new();

    v.push(0);
    v.push(u64::MAX);

    let mut rng = ChaCha8Rng::seed_from_u64(0);

    for _ in 0..100 {
        let mut bb = 0;

        for _ in 0..32 {
            let i8 = rng.gen_range(0_i8..64);
            bb.set_bit(i8);
        }

        v.push(bb);
    }

    for bb in v {
        for dx in -7..=7 {
            for dy in -7..=7 {
                let translated = bb.translate(dx, dy);

                let mut expected = bb;
                for _ in 0..dx {
                    expected = expected.right();
                }
                for _ in 0..-dx {
                    expected = expected.left();
                }
                for _ in 0..dy {
                    expected = expected.up();
                }
                for _ in 0..-dy {
                    expected = expected.down();
                }

                assert_eq!(translated, expected, "Translation failed: ({}, {})", dx, dy);
            }
        }
    }
}

#[test]
fn test_field_increment() {
    let mut counter = FieldCounter::empty();
    let mut field = [0_u64; 64];

    let mut rng = rand::thread_rng();
    for _ in 0..7 {
        let bits = rng.next_u64();

        counter.increment(bits);

        for j in 0..64 {
            let val = (bits >> j) & 1;
            field[j] += val;
        }

        for j in 0..64 {
            assert_eq!(field[j], counter.count(j as i8));
        }
    }
}

#[test]
fn test_field_decrement() {
    let mut counter = FieldCounter::empty();
    for _ in 0..7 {
        counter.increment(u64::MAX);
    }

    let mut field = [7_u64; 64];

    let mut rng = rand::thread_rng();
    for _ in 0..7 {
        let bits = rng.next_u64();

        counter.decrement(bits);

        for j in 0..64 {
            let val = (bits >> j) & 1;
            field[j] -= val;
        }

        for j in 0..64 {
            assert_eq!(field[j], counter.count(j as i8));
        }
    }
}

#[test]
fn test_start_position() {
    let board_state = BoardState::start_position();

    for s in 0..64i8 {
        assert_eq!(board_state.piece_board.get(s), board_state.bit_board.get_colored_piecetype(s));
    }
}

#[test]
fn test_random_moves() {
    let mut board_state = BoardState::start_position();
    let mut game_flags = GameFlags::start_flags();

    let mut rng = ChaCha8Rng::seed_from_u64(0);
    for _ in 0..30 {
        let moves = gen_legal_moves(&board_state, &game_flags);
        if moves.is_empty() {
            break;
        }

        let m = moves[rng.gen_range(0..moves.len())];

        board_state.make_move(m);
        game_flags.make_move(m, &board_state.bit_board);

        if !boards_agree(&board_state) {
            panic!();
        }
    }
}

#[test]
fn test_undo_moves() {
    let mut board_state = BoardState::start_position();
    let mut game_flags = GameFlags::start_flags();

    let mut rng = ChaCha8Rng::seed_from_u64(1);
    for i in 0..60 {
        let moves = gen_legal_moves(&board_state, &game_flags);
        if moves.is_empty() {
            break;
        }

        let m = moves[rng.gen_range(0..moves.len())];

        board_state.make_move(m);

        if i % 2 == 0 {
            board_state.undo_move(m);
        } else {
            game_flags.make_move(m, &board_state.bit_board);
        }

        if !boards_agree(&board_state) {
            panic!();
        }
    }
}

#[test]
fn field_counter_counts_each_square() {
    let mut counter = FieldCounter::empty();
    for _ in 0..5 {
        counter.increment(0b1011);
    }
    counter.decrement(0b0001);
    assert_eq!(counter.count(0), 4);
    assert_eq!(counter.count(1), 5);
    assert_eq!(counter.count(2), 0);
    assert_eq!(counter.count(3), 5);
    assert_eq!(counter.attacked(), 0b1011);
}

#[test]
fn attack_board_follows_pieces() {
    let mut board = BitBoard::empty();
    let mut attacks = AttackBoard::empty();
    assert_eq!(attacks.attacks(PlayerColor::White), 0);

    board.add_piece(ColoredPieceType::WhiteKnight, 1);
    attacks.add_piece(ColoredPieceType::WhiteKnight, 1, &board);
    assert_eq!(attacks.attacks(PlayerColor::White), (1 << 16) | (1 << 18) | (1 << 11));
    assert_eq!(attacks.attacks(PlayerColor::Black), 0);

    board.add_piece(ColoredPieceType::WhiteRook, 0);
    attacks.add_piece(ColoredPieceType::WhiteRook, 0, &board);
    assert_eq!(
        attacks.attacks(PlayerColor::White),
        (1 << 16) | (1 << 18) | (1 << 11) | 0x0101_0101_0101_0100 | (1 << 1)
    );

    board.remove_piece(ColoredPieceType::WhiteKnight, 1);
    attacks.remove_piece(ColoredPieceType::WhiteKnight, 1, &board);
    assert_eq!(attacks.attacks(PlayerColor::White), 0x0101_0101_0101_01FE);
}

#[test]
fn field_counter_wraps_past_seven() {
    let mut counter = FieldCounter::empty();
    for _ in 0..8 {
        counter.increment(1);
    }
    assert_eq!(counter.count(0), 0);
    counter.decrement(1);
    assert_eq!(counter.count(0), 7);
}
