use arcade::snake::{
    check_gameover, game_ends, move_apple_randomly, positions, possible_positions, rolled_back,
    steer, try_move_apple_randomly, Direction, LastPosition, Position, FIELD_HEIGHT, FIELD_WIDTH,
};

fn at(x: i16, y: i16) -> Position {
    Position { x, y }
}

#[test]
fn a_direction_steps_by_one_cell() {
    assert_eq!(Direction::Up.delta(), at(0, 1));
    assert_eq!(Direction::Down.delta(), at(0, -1));
    assert_eq!(Direction::Left.delta(), at(-1, 0));
    assert_eq!(Direction::Right.delta(), at(1, 0));
}

#[test]
fn the_opposite_direction_leads_back() {
    assert_eq!(Direction::Up.opposite(), Direction::Down);
    assert_eq!(Direction::Down.opposite(), Direction::Up);
    assert_eq!(Direction::Left.opposite(), Direction::Right);
    assert_eq!(Direction::Right.opposite(), Direction::Left);
    for direction in [Direction::Up, Direction::Down, Direction::Left, Direction::Right] {
        assert_eq!(direction.opposite().opposite(), direction);
        let there = at(3, 3) + direction.delta();
        assert_eq!(there + direction.opposite().delta(), at(3, 3));
    }
}

#[test]
fn a_position_moves_by_a_step() {
    assert_eq!(at(2, 5) + at(1, -1), at(3, 4));
    assert_eq!(at(0, 0) + Direction::Left.delta(), at(-1, 0));
    assert_eq!(at(32766, -32767) + at(1, -1), at(32767, -32768));
    let mut head = at(5, 0);
    head += Direction::Up.delta();
    assert_eq!(head, at(5, 1));
    head += Direction::Right.delta();
    assert_eq!(head, at(6, 1));
}

#[test]
fn positions_and_last_positions_convert() {
    let last = LastPosition::from(&at(4, 2));
    assert_eq!(last, LastPosition(at(4, 2)));
    assert_eq!(Position::from(&last), at(4, 2));
}

#[test]
fn the_field_holds_six_by_six_cells() {
    assert_eq!(FIELD_WIDTH, 6);
    assert_eq!(FIELD_HEIGHT, 6);
    assert!(at(0, 0).in_field());
    assert!(at(5, 5).in_field());
    assert!(!at(6, 0).in_field());
    assert!(!at(0, 6).in_field());
    assert!(!at(-1, 3).in_field());
    assert!(!at(3, -1).in_field());
}

#[test]
fn a_position_is_found_among_others() {
    let others = vec![at(1, 1), at(2, 1), at(2, 2)];
    assert!(at(2, 1).is_among(&others));
    assert!(!at(1, 2).is_among(&others));
    assert!(!at(1, 1).is_among(&Vec::new()));
}

#[test]
fn a_snake_without_tail_turns_any_way() {
    for input in [Direction::Up, Direction::Down, Direction::Left, Direction::Right] {
        assert_eq!(steer(Direction::Right, Direction::Right, 0, input), input);
    }
}

#[test]
fn a_snake_with_a_tail_keeps_its_way_on_a_key_along_its_last_step() {
    assert_eq!(steer(Direction::Up, Direction::Right, 1, Direction::Right), Direction::Up);
    assert_eq!(steer(Direction::Up, Direction::Right, 1, Direction::Left), Direction::Up);
    assert_eq!(steer(Direction::Up, Direction::Right, 1, Direction::Down), Direction::Down);
    assert_eq!(steer(Direction::Up, Direction::Right, 1, Direction::Up), Direction::Up);
    assert_eq!(steer(Direction::Right, Direction::Right, -3, Direction::Left), Direction::Right);
    assert_eq!(steer(Direction::Right, Direction::Right, 7, Direction::Up), Direction::Up);
}

#[test]
fn the_game_ends_when_the_head_leaves_the_field_or_meets_the_tail() {
    let tails = vec![at(2, 2), at(2, 3)];
    assert!(!game_ends(false, &vec![at(1, 2)], &tails));
    assert!(game_ends(false, &vec![at(2, 3)], &tails));
    assert!(game_ends(false, &vec![at(6, 3)], &tails));
    assert!(game_ends(false, &vec![at(3, -1)], &Vec::new()));
    assert!(game_ends(false, &vec![at(1, 2), at(-1, 0)], &tails));
    assert!(!game_ends(false, &Vec::new(), &tails));
}

#[test]
fn a_game_that_has_ended_does_not_end_again() {
    let tails = vec![at(2, 2)];
    assert!(!game_ends(true, &vec![at(2, 2)], &tails));
    assert!(!game_ends(true, &vec![at(9, 9)], &tails));
}

fn part(x: i16, y: i16, last_x: i16, last_y: i16) -> (Position, LastPosition) {
    (at(x, y), LastPosition(at(last_x, last_y)))
}

#[test]
fn parts_have_their_places_and_their_last_places() {
    let parts = vec![part(3, 1, 2, 1), part(2, 1, 1, 1), part(1, 1, 1, 0)];
    assert_eq!(positions(&parts), vec![at(3, 1), at(2, 1), at(1, 1)]);
    assert_eq!(rolled_back(&parts), vec![at(2, 1), at(1, 1), at(1, 0)]);
    assert_eq!(positions(&Vec::new()), Vec::new());
    assert_eq!(rolled_back(&Vec::new()), Vec::new());
}

#[test]
fn a_game_that_goes_on_leaves_every_part_in_its_place() {
    let heads = vec![part(3, 1, 2, 1)];
    let tails = vec![part(2, 1, 1, 1), part(1, 1, 1, 0)];
    let after = check_gameover(false, &heads, &tails);
    assert!(!after.gameover);
    assert_eq!(after.heads, vec![at(3, 1)]);
    assert_eq!(after.tails, vec![at(2, 1), at(1, 1)]);
}

#[test]
fn a_game_that_ends_takes_every_part_back() {
    let heads = vec![part(6, 1, 5, 1)];
    let tails = vec![part(5, 1, 4, 1), part(4, 1, 3, 1)];
    let after = check_gameover(false, &heads, &tails);
    assert!(after.gameover);
    assert_eq!(after.heads, vec![at(5, 1)]);
    assert_eq!(after.tails, vec![at(4, 1), at(3, 1)]);
    let heads = vec![part(2, 2, 2, 1)];
    let tails = vec![part(2, 1, 1, 1), part(2, 2, 3, 2)];
    let after = check_gameover(false, &heads, &tails);
    assert!(after.gameover);
    assert_eq!(after.heads, vec![at(2, 1)]);
    assert_eq!(after.tails, vec![at(1, 1), at(3, 2)]);
}

#[test]
fn a_game_that_has_ended_stays_ended_and_moves_nothing() {
    let heads = vec![part(6, 1, 5, 1)];
    let tails = vec![part(5, 1, 4, 1)];
    let after = check_gameover(true, &heads, &tails);
    assert!(after.gameover);
    assert_eq!(after.heads, vec![at(6, 1)]);
    assert_eq!(after.tails, vec![at(5, 1)]);
}

#[test]
fn the_free_cells_come_column_by_column() {
    let free = possible_positions(&at(0, 0), &Vec::new());
    assert_eq!(free.len(), 35);
    assert_eq!(free[0], at(0, 1));
    assert_eq!(free[4], at(0, 5));
    assert_eq!(free[5], at(1, 0));
    assert_eq!(free[34], at(5, 5));
    let free = possible_positions(&at(1, 0), &vec![at(0, 1), at(0, 2), at(9, 9)]);
    assert_eq!(free.len(), 33);
    assert_eq!(&free[..5], &[at(0, 0), at(0, 3), at(0, 4), at(0, 5), at(1, 1)]);
    let free = possible_positions(&at(-1, 0), &Vec::new());
    assert_eq!(free.len(), 36);
}

fn all_but(free: &[Position]) -> Vec<Position> {
    let mut taken = Vec::new();
    for x in 0..6 {
        for y in 0..6 {
            if !free.contains(&at(x, y)) {
                taken.push(at(x, y));
            }
        }
    }
    taken
}

#[test]
fn the_apple_goes_to_a_free_cell() {
    let head = at(2, 2);
    let tails = vec![at(2, 1), at(2, 0), at(1, 0)];
    for _ in 0..200 {
        let mut apple = at(2, 2);
        move_apple_randomly(&mut apple, &head, &tails);
        assert!(apple.in_field());
        assert_ne!(apple, head);
        assert!(!tails.contains(&apple));
    }
}

#[test]
fn the_apple_goes_to_the_only_free_cell() {
    let head = at(0, 0);
    let tails: Vec<Position> =
        all_but(&[at(4, 3), head]).into_iter().collect();
    let mut apple = at(1, 1);
    move_apple_randomly(&mut apple, &head, &tails);
    assert_eq!(apple, at(4, 3));
    let mut apple = at(1, 1);
    assert!(try_move_apple_randomly(&mut apple, &head, &tails));
    assert_eq!(apple, at(4, 3));
}

#[test]
fn the_apple_reaches_every_free_cell() {
    let head = at(0, 0);
    let tails = all_but(&[at(1, 1), at(3, 4), at(5, 5), head]);
    let mut seen = Vec::new();
    for _ in 0..400 {
        let mut apple = at(0, 0);
        move_apple_randomly(&mut apple, &head, &tails);
        if !seen.contains(&apple) {
            seen.push(apple);
        }
    }
    seen.sort_by_key(|p| (p.x, p.y));
    assert_eq!(seen, vec![at(1, 1), at(3, 4), at(5, 5)]);
}

#[test]
fn the_apple_stays_when_no_cell_is_free() {
    let head = at(0, 0);
    let tails = all_but(&[head]);
    let mut apple = at(3, 3);
    assert!(!try_move_apple_randomly(&mut apple, &head, &tails));
    assert_eq!(apple, at(3, 3));
}
