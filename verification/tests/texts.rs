use arcade::tetromino::Tetromino;

fn every_piece() -> Vec<Tetromino> {
    vec![
        Tetromino::i(),
        Tetromino::o(),
        Tetromino::z(),
        Tetromino::s(),
        Tetromino::j(),
        Tetromino::l(),
        Tetromino::t(),
    ]
}

fn rows_are_square(piece: &Tetromino) {
    let text = piece.to_string();
    let size = piece.size() as usize;
    let rows: Vec<&str> = text.split('\n').collect();
    assert_eq!(rows.len(), size);
    for (row, line) in rows.iter().enumerate() {
        assert_eq!(line.chars().count(), size);
        for (column, c) in line.chars().enumerate() {
            assert!(c == '0' || c == '1');
            let y = (size - 1 - row) as u8;
            assert_eq!(c == '1', piece.check(column as u8, y));
        }
    }
    assert!(!text.ends_with('\n'));
}

#[test]
fn the_text_shows_the_named_pieces() {
    let expected = [
        "0100\n0100\n0100\n0100",
        "11\n11",
        "1100\n0110\n0000\n0000",
        "0011\n0110\n0000\n0000",
        "0010\n0010\n0110\n0000",
        "0100\n0100\n0110\n0000",
        "010\n111\n000",
    ];
    for (piece, text) in every_piece().iter().zip(expected.iter()) {
        assert_eq!(piece.to_string(), *text);
    }
}

#[test]
fn the_text_follows_a_clockwise_turn() {
    let expected = [
        "0000\n1111\n0000\n0000",
        "00\n00",
        "0001\n0011\n0010\n0000",
        "0000\n0010\n0011\n0001",
        "0000\n0100\n0111\n0000",
        "0000\n0111\n0100\n0000",
        "000\n000\n000",
    ];
    for (piece, text) in every_piece().iter_mut().zip(expected.iter()) {
        piece.turn_clockwise();
        assert_eq!(piece.to_string(), *text);
    }
}

#[test]
fn the_text_follows_a_counterclockwise_turn() {
    let mut line = Tetromino::i();
    line.turn_counterclockwise();
    assert_eq!(line.to_string(), "0000\n0000\n1111\n0000");
    let mut hook = Tetromino::l();
    hook.turn_counterclockwise();
    assert_eq!(hook.to_string(), "0000\n0010\n1110\n0000");
}

#[test]
fn the_text_has_as_many_rows_as_columns() {
    for piece in every_piece().iter_mut() {
        for _ in 0..6 {
            rows_are_square(piece);
            piece.turn_clockwise();
        }
    }
}

#[test]
fn the_text_of_a_named_piece_holds_four_ones() {
    for piece in every_piece().iter() {
        let text = piece.to_string();
        assert_eq!(text.chars().filter(|c| *c == '1').count(), 4);
    }
    let mut of_side_four =
        vec![Tetromino::i(), Tetromino::z(), Tetromino::s(), Tetromino::j(), Tetromino::l()];
    for piece in of_side_four.iter_mut() {
        for _ in 0..7 {
            piece.turn_clockwise();
            let text = piece.to_string();
            assert_eq!(text.chars().filter(|c| *c == '1').count(), 4);
            assert_eq!(text.chars().filter(|c| *c == '0').count(), 12);
            assert_eq!(text.chars().filter(|c| *c == '\n').count(), 3);
        }
    }
}
