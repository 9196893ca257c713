use arcade::form::Form;
use arcade::tetromino::Tetromino;

fn named() -> Vec<Tetromino> {
    vec![
        Tetromino::i(),
        Tetromino::o(),
        Tetromino::z(),
        Tetromino::s(),
        Tetromino::j(),
        Tetromino::l(),
        Tetromino::t(),
    ]
}

fn of_side_four() -> Vec<Tetromino> {
    vec![Tetromino::i(), Tetromino::z(), Tetromino::s(), Tetromino::j(), Tetromino::l()]
}

fn plane(piece: &Tetromino, k: u32) -> u64 {
    let stride = (piece.size() as u32) * (piece.size() as u32);
    (piece.value() >> (k * stride)) & ((1u64 << stride) - 1)
}

#[test]
fn line_packs_its_four_orientations() {
    let piece = Tetromino::i();
    assert_eq!(piece.size(), 4);
    assert_eq!(piece.value(), 0x0f00_2222_00f0_4444);
}

#[test]
fn named_pieces_have_their_sides_and_words() {
    let expected: [(u8, u64); 7] = [
        (4, 0x0f00_2222_00f0_4444),
        (2, 0x0000_0000_0003_ffff),
        (4, 0x1320_0063_04c8_c600),
        (4, 0x0231_006c_8c40_3600),
        (4, 0x0470_0644_0e20_2260),
        (4, 0x0740_0622_02e0_4460),
        (3, 0x0000_0009_a1d2_c970),
    ];
    for (piece, (size, value)) in named().iter().zip(expected.iter()) {
        assert_eq!(piece.size(), *size);
        assert_eq!(piece.value(), *value);
    }
}

#[test]
fn a_piece_packs_its_seed_and_three_turns() {
    let seed = Form(0x0272);
    let piece = Tetromino::from_form(seed, 3);
    let first = seed.clockwised(3);
    let second = first.clockwised(3);
    let third = second.clockwised(3);
    assert_eq!(piece.size(), 3);
    assert_eq!(
        piece.value(),
        (seed.0 as u64)
            | ((first.0 as u64) << 9)
            | ((second.0 as u64) << 18)
            | ((third.0 as u64) << 27)
    );
    assert_eq!(piece.value(), 0x0000_000d_69cb_5a72);
    assert_eq!(Tetromino::from_form(Form(0x8421), 4).value(), 0x1248_8421_1248_8421);
    assert_eq!(Tetromino::from_form(Form(0), 2).value(), 0);
}

#[test]
fn every_plane_of_a_piece_of_side_four_has_four_bits() {
    for piece in of_side_four().iter_mut() {
        for _ in 0..9 {
            for k in 0..4 {
                assert_eq!(plane(piece, k).count_ones(), 4);
            }
            piece.turn_clockwise();
        }
    }
}

#[test]
fn the_square_has_four_bits_in_every_plane_as_built_only() {
    let mut piece = Tetromino::o();
    for k in 0..4 {
        assert_eq!(plane(&piece, k), 0xf);
    }
    piece.turn_clockwise();
    assert_eq!(plane(&piece, 0), 0);
    assert_eq!(plane(&piece, 1), 0);
}

#[test]
fn the_t_has_four_bits_in_every_plane_as_built_only() {
    let mut piece = Tetromino::t();
    assert_eq!(plane(&piece, 0), 0x170);
    assert_eq!(plane(&piece, 1), 0x164);
    assert_eq!(plane(&piece, 2), 0x074);
    assert_eq!(plane(&piece, 3), 0x134);
    for k in 0..4 {
        assert_eq!(plane(&piece, k).count_ones(), 4);
    }
    piece.turn_clockwise();
    assert_eq!(plane(&piece, 0).count_ones(), 0);
    assert_eq!(plane(&piece, 1).count_ones(), 2);
}

#[test]
fn every_named_piece_has_four_bits_in_every_plane_as_built() {
    for piece in named().iter() {
        for k in 0..4 {
            assert_eq!(plane(piece, k).count_ones(), 4);
        }
    }
}

#[test]
fn the_t_is_a_row_of_three_with_one_cell_above_its_middle() {
    let piece = Tetromino::t();
    assert_eq!(piece.size(), 3);
    for y in 0..3u8 {
        for x in 0..3u8 {
            assert_eq!(piece.check(x, y), y == 1 || (x == 1 && y == 2));
        }
    }
}

#[test]
fn a_turn_back_restores_a_piece_of_side_four() {
    for piece in of_side_four().iter_mut() {
        for _ in 0..5 {
            let before = piece.value();
            piece.turn_clockwise();
            assert_ne!(piece.value(), before);
            piece.turn_counterclockwise();
            assert_eq!(piece.value(), before);
            piece.turn_counterclockwise();
            piece.turn_clockwise();
            assert_eq!(piece.value(), before);
            piece.turn_clockwise();
        }
    }
}

#[test]
fn a_turn_back_restores_the_t_one_way() {
    let mut piece = Tetromino::t();
    piece.turn_clockwise();
    assert_eq!(piece.value(), 0x0000_9a1d_2c97_0000);
    piece.turn_counterclockwise();
    assert_eq!(piece.value(), Tetromino::t().value());
    piece.turn_counterclockwise();
    assert_eq!(piece.value(), 0x000c_9700_009a_1d2c);
    piece.turn_clockwise();
    assert_eq!(piece.value(), 0xc970_0009_a1d3_8000);
    assert_ne!(piece.value(), Tetromino::t().value());
}

#[test]
fn a_turn_back_does_not_restore_the_square() {
    let mut piece = Tetromino::o();
    piece.turn_clockwise();
    assert_eq!(piece.value(), 0x0000_0000_03ff_ff00);
    piece.turn_counterclockwise();
    assert_eq!(piece.value(), 0x0000_00ff_0003_ffff);
}

#[test]
fn four_turns_bring_the_line_back() {
    let mut piece = Tetromino::i();
    let mut before = Vec::new();
    for y in 0..4 {
        for x in 0..4 {
            before.push(piece.check(x, y));
        }
    }
    let expected: [u64; 4] = [
        0x2222_00f0_4444_0f00,
        0x00f0_4444_0f00_2222,
        0x4444_0f00_2222_00f0,
        0x0f00_2222_00f0_4444,
    ];
    for value in expected.iter() {
        piece.turn_clockwise();
        assert_eq!(piece.value(), *value);
    }
    assert_eq!(piece.value(), Tetromino::i().value());
    let mut after = Vec::new();
    for y in 0..4 {
        for x in 0..4 {
            after.push(piece.check(x, y));
        }
    }
    assert_eq!(before, after);
}

#[test]
fn four_turns_bring_every_piece_of_side_four_back() {
    for piece in of_side_four().iter_mut() {
        let before = piece.value();
        for _ in 0..4 {
            piece.turn_counterclockwise();
        }
        assert_eq!(piece.value(), before);
        for _ in 0..4 {
            piece.turn_clockwise();
        }
        assert_eq!(piece.value(), before);
    }
}

#[test]
fn four_turns_do_not_bring_the_smaller_pieces_back() {
    let mut square = Tetromino::o();
    let mut three = Tetromino::t();
    for _ in 0..4 {
        square.turn_clockwise();
        three.turn_clockwise();
    }
    assert_eq!(square.value(), 0x0003_ffff_0000_0000);
    assert_eq!(three.value(), 0xc970_0009_a2d2_c000);
}

#[test]
fn the_line_stands_in_column_one() {
    let piece = Tetromino::i();
    for y in 0..4 {
        for x in 0..4 {
            assert_eq!(piece.check(x, y), x == 1);
        }
    }
}

#[test]
fn a_query_reads_the_current_orientation() {
    let mut piece = Tetromino::z();
    let mut shown = Vec::new();
    for y in 0..4u8 {
        for x in 0..4u8 {
            if piece.check(x, y) {
                shown.push((x, y));
            }
        }
    }
    assert_eq!(shown, vec![(1, 2), (2, 2), (0, 3), (1, 3)]);
    piece.turn_clockwise();
    shown.clear();
    for y in 0..4u8 {
        for x in 0..4u8 {
            if piece.check(x, y) {
                shown.push((x, y));
            }
        }
    }
    assert_eq!(shown, vec![(2, 1), (2, 2), (3, 2), (3, 3)]);
    let three = Tetromino::t();
    assert!(three.check(0, 1));
    assert!(three.check(1, 1));
    assert!(three.check(2, 1));
    assert!(three.check(1, 2));
    assert!(!three.check(0, 2));
    assert!(!three.check(2, 2));
    assert!(!three.check(1, 0));
}

#[test]
fn a_query_outside_the_square_gives_nothing() {
    for piece in named().iter_mut() {
        let size = piece.size();
        for _ in 0..3 {
            assert_eq!(piece.try_check(size, 0), None);
            assert_eq!(piece.try_check(0, size), None);
            assert_eq!(piece.try_check(size, size), None);
            assert_eq!(piece.try_check(255, 0), None);
            assert_eq!(piece.try_check(0, 255), None);
            for y in 0..size {
                for x in 0..size {
                    assert_eq!(piece.try_check(x, y), Some(piece.check(x, y)));
                }
            }
            piece.turn_clockwise();
        }
    }
}

#[test]
fn a_clockwise_turn_adds_the_top_of_the_word_below() {
    let mut square = Tetromino::o();
    let expected: [u64; 12] = [
        0x0000_0000_03ff_ff00,
        0x0000_0003_ffff_0000,
        0x0000_03ff_ff00_0000,
        0x0003_ffff_0000_0000,
        0x03ff_ff00_0300_0000,
        0xffff_0006_ff00_0000,
        0xff00_07fe_ff00_0000,
        0x0007_fffe_0000_0000,
        0x07ff_fe00_0700_0000,
        0xfffe_000e_ff00_0000,
        0xfe00_0ffe_fe00_0000,
        0x000f_fffc_0000_0000,
    ];
    for value in expected.iter() {
        square.turn_clockwise();
        assert_eq!(square.value(), *value);
    }
    let mut three = Tetromino::t();
    let expected: [u64; 8] = [
        0x0000_9a1d_2c97_0000,
        0x09a1_d2c9_7000_0000,
        0x1d2c_9700_009a_1000,
        0xc970_0009_a2d2_c000,
        0x0000_9a2d_3897_0000,
        0x09a2_d389_7000_0000,
        0x2d38_9700_009a_2000,
        0x8970_0009_a4d3_8000,
    ];
    for value in expected.iter() {
        three.turn_clockwise();
        assert_eq!(three.value(), *value);
    }
}

#[test]
fn a_counterclockwise_turn_sets_the_low_bits_above() {
    let expected: [u64; 7] = [
        0x4444_0f00_2222_00f0,
        0x0000_00ff_ff00_03ff,
        0xc600_1320_0063_04c8,
        0x3600_0231_006c_8c40,
        0x2260_0470_0644_0e20,
        0x4460_0740_0622_02e0,
        0x000c_9700_009a_1d2c,
    ];
    for (piece, value) in named().iter_mut().zip(expected.iter()) {
        piece.turn_counterclockwise();
        assert_eq!(piece.value(), *value);
    }
}
