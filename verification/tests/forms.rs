use arcade::form::Form;

fn cells(form: &Form, size: u8) -> Vec<(u8, u8)> {
    let mut found = Vec::new();
    for y in 0..size {
        for x in 0..size {
            if Form::check_block_exists(form, size, x, y) {
                found.push((x, y));
            }
        }
    }
    found
}

#[test]
fn a_cell_is_read_at_bit_y_times_size_plus_three_minus_x() {
    let form = Form(0x4444);
    for y in 0..4 {
        for x in 0..4 {
            assert_eq!(Form::check_block_exists(&form, 4, x, y), x == 1);
        }
    }
    // Side 3: the cell (2, 1) is bit 1 * 3 + 3 - 2 = 4.
    assert!(Form::check_block_exists(&Form(1 << 4), 3, 2, 1));
    assert!(!Form::check_block_exists(&Form(!(1 << 4)), 3, 2, 1));
    // Side 2: the cell (0, 1) is bit 1 * 2 + 3 - 0 = 5.
    assert!(Form::check_block_exists(&Form(1 << 5), 2, 0, 1));
    assert!(!Form::check_block_exists(&Form(!(1 << 5)), 2, 0, 1));
    // The corners of side 4 are the bits 3, 0, 15 and 12.
    assert!(Form::check_block_exists(&Form(1 << 3), 4, 0, 0));
    assert!(Form::check_block_exists(&Form(1 << 0), 4, 3, 0));
    assert!(Form::check_block_exists(&Form(1 << 15), 4, 0, 3));
    assert!(Form::check_block_exists(&Form(1 << 12), 4, 3, 3));
}

#[test]
fn clockwise_turn_of_a_grid_moves_every_cell() {
    assert_eq!(Form(0x4444).clockwised(4).0, 0x00f0);
    assert_eq!(Form(0xC600).clockwised(4).0, 0x04c8);
    assert_eq!(Form(0x04c8).clockwised(4).0, 0x0063);
    assert_eq!(Form(0x0063).clockwised(4).0, 0x1320);
    assert_eq!(Form(0x8421).clockwised(4).0, 0x1248);
    assert_eq!(Form(0x1248).clockwised(4).0, 0x8421);
    // The cell (0, 0), bit 3, goes to (3, 0), bit 0; the cell (0, 3), bit 15,
    // goes to (0, 0), bit 3.
    assert_eq!(Form(0x8001).clockwised(4).0, 0x1008);
    assert_eq!(Form(0x0008).clockwised(4).0, 0x0001);
}

#[test]
fn clockwise_turn_takes_each_cell_to_its_place() {
    for size in 2u8..=4 {
        for y in 0..size {
            for x in 0..size {
                let one = Form(1u16 << (y * size + 3 - x));
                assert_eq!(cells(&one, size), vec![(x, y)]);
                assert_eq!(cells(&one.clockwised(size), size), vec![(size - 1 - y, x)]);
                assert_eq!(cells(&one.counterclockwised(size), size), vec![(y, size - 1 - x)]);
            }
        }
    }
}

#[test]
fn counterclockwise_turn_of_a_grid_moves_every_cell() {
    assert_eq!(Form(0x4444).counterclockwised(4).0, 0x0f00);
    assert_eq!(Form(0xC600).counterclockwised(4).0, 0x1320);
    assert_eq!(Form(0x8421).counterclockwised(4).0, 0x1248);
    assert_eq!(Form(0x0170).counterclockwised(3).0, 0x0134);
    assert_eq!(Form(0xFFFF).counterclockwised(2).0, 0x003c);
}

#[test]
fn turns_of_the_smaller_grids_stay_in_the_grid() {
    assert_eq!(Form(0x0170).clockwised(3).0, 0x0164);
    assert_eq!(Form(0x0164).clockwised(3).0, 0x0074);
    assert_eq!(Form(0x0074).clockwised(3).0, 0x0134);
    assert_eq!(Form(0x0134).clockwised(3).0, 0x0170);
    // The corners of side 3 are the bits 3, 1, 9 and 7, and go round.
    assert_eq!(Form(1 << 3).clockwised(3).0, 1 << 1);
    assert_eq!(Form(1 << 1).clockwised(3).0, 1 << 7);
    assert_eq!(Form(1 << 7).clockwised(3).0, 1 << 9);
    assert_eq!(Form(1 << 9).clockwised(3).0, 1 << 3);
    assert_eq!(Form(0x0272).clockwised(3).0, 0x01ac);
    // Every bit is set in the seed of the square: the turn keeps the four
    // cells of the grid, the bits 2 to 5, and nothing else.
    assert_eq!(Form(0xFFFF).clockwised(2).0, 0x003c);
    assert_eq!(Form(0xFFFF).clockwised(3).0, 0x03fe);
    assert_eq!(Form(0xFFFF).clockwised(4).0, 0xffff);
    assert_eq!(Form(0).clockwised(2).0, 0);
    assert_eq!(Form(0).counterclockwised(4).0, 0);
}

#[test]
fn a_block_gathers_the_cells_from_its_start_to_the_last() {
    let z = Form(0xC600);
    assert_eq!(Form::get_clockwised_block(&z, 4, 0, 0), 0x04c8);
    assert_eq!(Form::get_clockwised_block(&z, 4, 2, 2), 0x0488);
    assert_eq!(Form::get_clockwised_block(&z, 4, 0, 3), 0x0088);
    assert_eq!(Form::get_clockwised_block(&z, 4, 2, 3), 0x0000);
    assert_eq!(Form::get_counterclockwised_block(&z, 4, 0, 0), 0x1320);
    assert_eq!(Form::get_counterclockwised_block(&z, 4, 2, 2), 0x1120);
    assert_eq!(Form::get_counterclockwised_block(&Form(0xFFFF), 3, 1, 1), 0x00b6);
    assert_eq!(Form::get_clockwised_block(&Form(0xFFFF), 3, 1, 1), 0x0368);
    assert_eq!(Form::get_clockwised_block(&Form(0xFFFF), 2, 1, 1), 0x0020);
}

#[test]
fn each_turn_undoes_the_other() {
    for size in 2u8..=4 {
        let side = size as u32;
        let grid: u32 = ((1u32 << (side * side)) - 1) << (4 - side);
        for bits in 0..=0xffffu32 {
            if bits & !grid != 0 {
                continue;
            }
            let form = Form(bits as u16);
            assert_eq!(form.clockwised(size).counterclockwised(size).0, form.0);
            assert_eq!(form.counterclockwised(size).clockwised(size).0, form.0);
        }
    }
}

#[test]
fn a_turn_keeps_the_number_of_cells_and_stays_in_the_grid() {
    for size in 2u8..=4 {
        let side = size as u32;
        let grid: u16 = (((1u32 << (side * side)) - 1) << (4 - side)) as u16;
        for bits in (0..=0xffffu32).step_by(7) {
            let form = Form(bits as u16);
            let there = form.clockwised(size);
            let back = form.counterclockwised(size);
            assert_eq!(there.0 & !grid, 0);
            assert_eq!(back.0 & !grid, 0);
            assert_eq!(there.0.count_ones(), (form.0 & grid).count_ones());
            assert_eq!(back.0.count_ones(), (form.0 & grid).count_ones());
        }
    }
}

#[test]
fn four_turns_of_a_grid_bring_it_back() {
    for bits in (0..=0xffffu32).step_by(3) {
        let form = Form(bits as u16);
        let turned = form.clockwised(4).clockwised(4).clockwised(4).clockwised(4);
        assert_eq!(turned.0, form.0);
        let other = form
            .counterclockwised(4)
            .counterclockwised(4)
            .counterclockwised(4)
            .counterclockwised(4);
        assert_eq!(other.0, form.0);
    }
}
