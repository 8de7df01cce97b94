use barschbot::board::square::{self, Square, A1, C4, H8};

#[test]
fn test_from_index() {
    for i in 0..65 {
        let square = i as i8;
        assert_eq!(square as u8, i as u8);
    }
}

#[test]
fn test_to_string() {
    assert_eq!(A1.square_string(), "a1");
    assert_eq!(C4.square_string(), "c4");
    assert_eq!(H8.square_string(), "h8");
}

#[test]
fn test_rank_file() {
    for x in 0..8 {
        for y in 0..8 {
            let square = square::from_file_rank(x, y);
            assert_eq!(square.file(), x);
            assert_eq!(square.rank(), y);
        }
    }
}

#[test]
fn test_flips() {
    for x in 0..8 {
        for y in 0..8 {
            let square = square::from_file_rank(x, y);
            assert_eq!(square.flip_x().flip_x(), square);
            assert_eq!(square.flip_y().flip_y(), square);
            assert_eq!(square.rotate_180().rotate_180(), square);

            assert_eq!(square.flip_x().file(), 7 - x);
            assert_eq!(square.flip_y().rank(), 7 - y);
            assert_eq!(square.rotate_180().file(), 7 - x);
            assert_eq!(square.rotate_180().rank(), 7 - y);
        }
    }
}

#[test]
fn square_names_and_parsing() {
    assert_eq!(square::from_str("e4"), square::E4);
    assert_eq!(square::from_str("h8"), H8);
    assert_eq!(square::NONE.square_string(), "None");
    assert!(A1.is_dark());
    assert!(square::H1.is_light());
    assert_eq!(square::E4.translate(1, 2), square::F6);
}
