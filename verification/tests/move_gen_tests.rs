use barschbot::board::piece_type::ColoredPieceType;
use barschbot::game::playable_moves::move_playable;
use barschbot::board::bit_array::BitArray;
use barschbot::board::square::Square;
use barschbot::board::zobrist_hash::ZobristHash;
use barschbot::game::game_state::GameState;
use barschbot::moves::chess_move::ChessMove;
use barschbot::moves::move_gen::{count_moves, gen_legal_moves, gen_legal_moves_iterator};
use barschbot::moves::perft::count_positions;
use barschbot::moves::pseudo_move_gen::{gen_legal_moves_bitboard, gen_pseudo_legal_moves_bitboard};
use barschbot::moves::slider_gen::{
    gen_bishop_moves, gen_bishop_moves_kogge, gen_bishop_moves_pext, gen_rook_moves, gen_rook_moves_kogge,
    gen_rook_moves_pext, SliderTables,
};
use rand::{Rng, SeedableRng};
use rand_chacha::ChaCha8Rng;

const PERFT_FENS: [&str; 6] = [
    "rnbqkbnr/pppppppp/8/8/8/8/PPPPPPPP/RNBQKBNR w KQkq - 0 1 ",
    "r3k2r/p1ppqpb1/bn2pnp1/3PN3/1p2P3/2N2Q1p/PPPBBPPP/R3K2R w KQkq - ",
    "8/2p5/3p4/KP5r/1R3p1k/8/4P1P1/8 w - - ",
    "r3k2r/Pppp1ppp/1b3nbN/nP6/BBP1P3/q4N2/Pp1P2PP/R2Q1RK1 w kq - 0 1",
    "rnbq1k1r/pp1Pbppp/2p5/8/2B5/8/PPP1NnPP/RNBQK2R w KQ - 1 8  ",
    "r4rk1/1pp1qppp/p1np1n2/2b1p1B1/2B1P1b1/P1NP1N2/1PP1QPPP/R4RK1 w - - 0 10 ",
];

struct PerftRes {
    positions: u64,
    captures: u64,
    en_passants: u64,
    checks: u64,
    checkmates: u64,
}

fn count_move_types(game_state: &mut GameState, depth: u8, res: &mut PerftRes) {
    if depth == 0 {
        res.positions += 1;

        if game_state.board_state.is_in_check(game_state.active_color()) {
            res.checks += 1;

            if game_state.gen_legal_moves().len() == 0 {
                res.checkmates += 1;
            }
        }

        return;
    }

    let moves = game_state.gen_legal_moves();
    for m in moves {
        if depth == 1 {
            if m.is_direct_capture() || m.is_en_passant() {
                res.captures += 1;
            }
            if m.is_en_passant() {
                res.en_passants += 1;
            }
        }

        game_state.make_move(m);
        count_move_types(game_state, depth - 1, res);
        game_state.undo_move();
    }
}

#[test]
fn test_start_pos_move_types() {
    const POSITIONS: [u64; 4] = [1, 20, 400, 8902];
    const CAPTURES: [u64; 4] = [0, 0, 0, 34];
    const CHECKS: [u64; 4] = [0, 0, 0, 12];
    const CHECKMATES: [u64; 4] = [0, 0, 0, 0];
    const EN_PASSANTS: [u64; 4] = [0, 0, 0, 0];

    let mut game_state = GameState::start_position();

    for depth in 0..4 {
        let mut res = PerftRes { positions: 0, captures: 0, en_passants: 0, checks: 0, checkmates: 0 };

        count_move_types(&mut game_state, depth as u8, &mut res);

        assert_eq!(res.positions, POSITIONS[depth]);
        assert_eq!(res.captures, CAPTURES[depth]);
        assert_eq!(res.checks, CHECKS[depth]);
        assert_eq!(res.en_passants, EN_PASSANTS[depth]);
        assert_eq!(res.checkmates, CHECKMATES[depth]);
    }
}

#[test]
fn test_perft_pos_count() {
    const RESULTS: [&[u64]; 6] = [
        &[1, 20, 400, 8902],
        &[1, 48, 2039],
        &[1, 14, 191, 2812],
        &[1, 6, 264],
        &[1, 44, 1486],
        &[1, 46, 2079],
    ];

    for p in 0..RESULTS.len() {
        let fen = PERFT_FENS[p];

        for max_depth in 0..RESULTS[p].len() {
            let count = count_positions(&mut GameState::from_fen(fen), max_depth as u8);

            assert_eq!(count, RESULTS[p][max_depth as usize], "fen {} depth {}", fen, max_depth);
        }
    }
}

fn fill_board(rng: &mut ChaCha8Rng) -> (u64, u64) {
    let mut allied = 0;
    let mut opponent = 0;

    for x in 0..8 {
        for y in 0..8 {
            let square = (x + 8 * y) as i8;
            if rng.gen_bool(0.1) {
                allied.set_bit(square);
            } else if rng.gen_bool(0.1) {
                opponent.set_bit(square);
            }
        }
    }

    (allied, opponent)
}

#[test]
fn all_slider_test() {
    let tables = SliderTables::new();
    let mut rng = ChaCha8Rng::seed_from_u64(0);

    for _ in 0..1000 {
        let (allied, opponent) = fill_board(&mut rng);

        for s in 0..64i8 {
            let allied = allied | s.bit_array();
            let opponent = opponent & !allied;

            let m1 = gen_bishop_moves(s, allied, opponent);
            let m2 = gen_bishop_moves_pext(&tables, s, allied | opponent) & !allied;
            let m4 = gen_bishop_moves_kogge(s.bit_array(), allied, opponent);
            assert!(m1 == m2 && m1 == m4, "bishop on {}", s);

            let m1 = gen_rook_moves(s, allied, opponent);
            let m2 = gen_rook_moves_pext(&tables, s, allied | opponent) & !allied;
            let m4 = gen_rook_moves_kogge(s.bit_array(), allied, opponent);
            assert!(m1 == m2 && m1 == m4, "rook on {}", s);
        }
    }
}

#[test]
fn rook_moves_on_empty_board() {
    let moves = gen_rook_moves(0, 1, 0);
    assert_eq!(moves, 0x0101_0101_0101_01FE);
    let moves = gen_bishop_moves(0, 1, 0);
    assert_eq!(moves, 0x8040_2010_0804_0200);
}

#[test]
fn move_counts_agree() {
    let tables = SliderTables::new();
    for fen in PERFT_FENS {
        let game_state = GameState::from_fen(fen);
        let flags = game_state.get_flags();
        let listed = gen_legal_moves(&game_state.board_state, &flags);
        let counted = count_moves(&tables, &game_state.board_state, &flags);
        assert_eq!(listed.len() as u32, counted, "{}", fen);

        let iterator = gen_legal_moves_iterator(&tables, &game_state.board_state, &flags);
        assert_eq!(iterator.count_moves(), counted, "{}", fen);
        let all = iterator.iterate_all_moves(&game_state.board_state.piece_board, flags.active_color);
        assert_eq!(all.len() as u32, counted, "{}", fen);
        for m in listed.iter() {
            assert!(all.contains(m), "{} {}", fen, m.to_string());
        }
        let squares = iterator.iterate_uci_squares(flags.active_color);
        let square_moves = iterator.iterate_square_moves(&game_state.board_state.piece_board, flags.active_color);
        assert_eq!(square_moves.len() as u32, counted, "{}", fen);
        assert!(squares.len() <= all.len());
    }
}

#[test]
fn filtered_moves_are_the_legal_moves() {
    for fen in PERFT_FENS {
        let game_state = GameState::from_fen(fen);
        let flags = game_state.get_flags();
        let legal = gen_legal_moves(&game_state.board_state, &flags);
        let filtered = gen_legal_moves_bitboard(&game_state.board_state, &flags);
        let pseudo = gen_pseudo_legal_moves_bitboard(&game_state.board_state, &flags);
        assert_eq!(legal.len(), filtered.len(), "{}", fen);
        assert!(pseudo.len() >= filtered.len());
        for m in legal.iter() {
            assert!(filtered.contains(m), "{} {}", fen, m.to_string());
        }
    }
}

#[test]
fn start_position_has_twenty_moves() {
    let mut game_state = GameState::start_position();
    let moves = game_state.gen_legal_moves();
    assert_eq!(moves.len(), 20);
    let knight_moves: Vec<&ChessMove> = moves.iter().filter(|m| m.start == 1 || m.start == 6).collect();
    assert_eq!(knight_moves.len(), 4);
}

#[test]
fn incremental_hash_matches_full_hash() {
    let mut rng = ChaCha8Rng::seed_from_u64(3);
    for fen in PERFT_FENS {
        let mut game_state = GameState::from_fen(fen);
        for _ in 0..3 {
            let moves = game_state.gen_legal_moves();
            if moves.is_empty() {
                break;
            }
            let m = moves[rng.gen_range(0..moves.len())];
            game_state.make_move(m);
            let full = ZobristHash::from_position(&game_state.board_state.piece_board, game_state.get_flags());
            assert_eq!(full.hash, game_state.zobrist_hash.hash, "{}", fen);
        }
    }
}

#[test]
fn undo_restores_game() {
    let mut rng = ChaCha8Rng::seed_from_u64(4);
    for fen in PERFT_FENS {
        let mut game_state = GameState::from_fen(fen);
        let before_fen = game_state.to_fen();
        let before_hash = game_state.zobrist_hash.hash;
        let moves = game_state.gen_legal_moves();
        let m = moves[rng.gen_range(0..moves.len())];
        game_state.make_move(m);
        assert_eq!(game_state.visited_pos.len(), 1);
        assert_eq!(game_state.last_move(), Some(m));
        game_state.undo_move();
        assert_eq!(game_state.to_fen(), before_fen);
        assert_eq!(game_state.zobrist_hash.hash, before_hash);
        assert!(game_state.visited_pos.is_empty());
        assert_eq!(game_state.last_move(), None);
    }
}

fn find_move(moves: &[ChessMove], start: i8, end: i8) -> ChessMove {
    *moves.iter().find(|m| m.start == start && m.end == end).unwrap()
}

#[test]
fn san_names_moves() {
    let mut game_state = GameState::start_position();
    let moves = game_state.gen_legal_moves();
    assert_eq!(find_move(&moves, 12, 28).san_move(&moves), "e4");
    assert_eq!(find_move(&moves, 6, 21).san_move(&moves), "Nf3");

    let mut kiwipete = GameState::from_fen(PERFT_FENS[1]);
    let moves = kiwipete.gen_legal_moves();
    assert_eq!(find_move(&moves, 4, 6).san_move(&moves), "O-O");
    assert_eq!(find_move(&moves, 4, 2).san_move(&moves), "O-O-O");
    assert_eq!(find_move(&moves, 35, 44).san_move(&moves), "dxe6");

    let mut knights = GameState::from_fen("4k3/8/8/8/8/8/8/1N2KN2 w - - 0 1");
    let moves = knights.gen_legal_moves();
    assert_eq!(find_move(&moves, 1, 11).san_move(&moves), "Nb1d2");
    assert_eq!(find_move(&moves, 5, 11).san_move(&moves), "Nf1d2");
    assert_eq!(find_move(&moves, 1, 18).san_move(&moves), "Nc3");
}

#[test]
fn promotion_moves_come_in_fours() {
    let mut game_state = GameState::from_fen("8/P6k/8/8/8/8/8/K7 w - - 0 1");
    let moves = game_state.gen_legal_moves();
    let promotions: Vec<&ChessMove> = moves.iter().filter(|m| m.is_promotion()).collect();
    assert_eq!(promotions.len(), 4);
    assert_eq!(find_move(&moves, 48, 56).san_move(&moves), "a8Q");
}

#[test]
fn legal_moves_report_check() {
    let mut game_state = GameState::start_position();
    let (moves, check) = game_state.gen_legal_moves_check();
    assert_eq!(moves.len(), 20);
    assert!(!check);
    // The moves are kept: asking again gives them and no check.
    let (again, check_again) = game_state.gen_legal_moves_check();
    assert_eq!(again.len(), 20);
    assert!(!check_again);

    // The white king on e1 is attacked by the rook on h1.
    let mut checked = GameState::from_fen("4k3/8/8/8/8/8/8/4K2r w - - 0 1");
    let (evasions, in_check) = checked.gen_legal_moves_check();
    assert!(in_check);
    // The king leaves the first rank: d2, e2 or f2.
    assert_eq!(evasions.len(), 3);
}

#[test]
fn generated_moves_can_be_made() {
    let mut game_state = GameState::start_position();
    for m in game_state.gen_legal_moves() {
        assert!(move_playable(&game_state.board_state, m));
    }
    // A knight that does not stand on b1 cannot move from it.
    let wrong = ChessMove::new(1, 18, ColoredPieceType::WhiteBishop, ColoredPieceType::Empty);
    assert!(!move_playable(&game_state.board_state, wrong));
    // Castling short at the start: g1 holds a knight, not the empty square the move names.
    let castle = ChessMove::new(4, 6, ColoredPieceType::WhiteKing, ColoredPieceType::Empty);
    assert!(!move_playable(&game_state.board_state, castle));
}
