use falling_blocks::bag::new_bag;
use falling_blocks::game::{
    change_mino, fall_mino, hold_mino, mino_operation, Direction, GameState, MinoOperation,
};
use falling_blocks::notify::redraw_needed;
use falling_blocks::piece::{Mino, MinoType, Rotation};

fn bag_starting_with(t: MinoType) -> Vec<MinoType> {
    let mut bag = vec![t];
    bag.extend(MinoType::all_minos().into_iter().filter(|m| *m != t));
    bag
}

fn started(t: MinoType) -> GameState {
    let mut g = GameState::from_bag(bag_starting_with(t));
    assert_eq!(g.apply(MinoOperation::Change, MinoType::all_minos()), Some(1000));
    g
}

fn unchanged(a: &GameState, b: &GameState) -> bool {
    let r = redraw_needed(a, b);
    !r.field
        && !r.hold
        && !r.next
        && a.can_hold == b.can_hold
        && a.soft_drop == b.soft_drop
        && a.game_over == b.game_over
        && a.falling_speed == b.falling_speed
}

#[test]
fn fresh_game() {
    let g = GameState::from_bag(MinoType::all_minos());
    assert!(g.current_mino.is_none());
    assert!(g.held_mino.is_none());
    assert_eq!(g.next_minos.len(), 7);
    assert_eq!(g.falling_speed, 1000);
    assert!(g.can_hold);
    assert!(!g.soft_drop);
    assert!(!g.game_over);
}

#[test]
fn spawn_takes_the_front_and_refills() {
    let g = started(MinoType::O);
    assert_eq!(g.current_mino, Some(Mino::new(MinoType::O)));
    // seven were queued, so a bag was appended before the front was taken
    assert_eq!(g.next_minos.len(), 13);
    assert_eq!(g.next_minos[6..], MinoType::all_minos()[..]);
}

#[test]
fn hard_drop_of_an_o_piece() {
    let mut g = started(MinoType::O);
    assert_eq!(g.apply(MinoOperation::HardDrop, MinoType::all_minos()), Some(1000));
    let rows = g.field.display_blocks();
    for r in 18..20 {
        for c in 0..10 {
            let expected = if c == 4 || c == 5 { Some(MinoType::O) } else { None };
            assert_eq!(rows[r][c], expected);
        }
    }
    assert!(rows[..18].iter().all(|r| r.iter().all(|c| c.is_none())));
    // the O piece is locked and the next piece of the queue is in flight
    assert_eq!(g.current_mino, Some(Mino::new(MinoType::I)));
    assert!(g.can_hold);
}

#[test]
fn gravity_moves_an_i_piece_one_row_per_tick() {
    let mut g = started(MinoType::I);
    for expected in 0..=18 {
        assert_eq!(g.apply(MinoOperation::Fall, MinoType::all_minos()), Some(1000));
        let m = g.current_mino.unwrap();
        assert_eq!(m.mino_type, MinoType::I);
        assert_eq!(m.row, expected);
    }
    assert!(g.field.on_ground(&g.current_mino.unwrap()));
    g.apply(MinoOperation::Fall, MinoType::all_minos());
    let rows = g.field.display_blocks();
    assert!(rows[19][3..7].iter().all(|c| *c == Some(MinoType::I)));
    assert_eq!(g.current_mino, Some(Mino::new(MinoType::J)));
}

#[test]
fn soft_drop_changes_the_interval_and_back() {
    let mut g = started(MinoType::T);
    assert_eq!(g.apply(MinoOperation::StartSoftDrop, MinoType::all_minos()), Some(50));
    assert!(g.soft_drop);
    assert_eq!(g.fall_interval(), 50);
    assert_eq!(g.apply(MinoOperation::EndSoftDrop, MinoType::all_minos()), Some(1000));
    assert!(!g.soft_drop);
    assert_eq!(g.fall_interval(), 1000);
}

#[test]
fn moves_are_rejected_at_the_wall() {
    let mut g = started(MinoType::T);
    for _ in 0..3 {
        assert_eq!(g.apply(MinoOperation::Move(Direction::Left), MinoType::all_minos()), None);
    }
    assert_eq!(g.current_mino.unwrap().column, 0);
    let before = g.clone();
    g.apply(MinoOperation::Move(Direction::Left), MinoType::all_minos());
    assert!(unchanged(&before, &g));
    g.apply(MinoOperation::Move(Direction::Right), MinoType::all_minos());
    assert_eq!(g.current_mino.unwrap().column, 1);
}

#[test]
fn rotation_kicks_off_the_wall() {
    let mut g = started(MinoType::I);
    g.current_mino = Some(Mino { mino_type: MinoType::I, row: 5, column: -2, rotation: Rotation::B });
    assert_eq!(g.apply(MinoOperation::RotateRight, MinoType::all_minos()), None);
    // in place and one column left do not fit; two columns right does
    assert_eq!(
        g.current_mino,
        Some(Mino { mino_type: MinoType::I, row: 5, column: 0, rotation: Rotation::C })
    );
}

#[test]
fn rotation_in_open_space_stays_in_place() {
    let mut g = started(MinoType::T);
    g.apply(MinoOperation::RotateLeft, MinoType::all_minos());
    assert_eq!(
        g.current_mino,
        Some(Mino { mino_type: MinoType::T, row: 0, column: 3, rotation: Rotation::D })
    );
}

#[test]
fn blocked_rotation_changes_nothing() {
    let mut g = started(MinoType::I);
    // a vertical I in a one-column well of stacked vertical I pieces
    for column in [-2, -1, 0, 1, 3, 4, 5, 6, 7] {
        for row in [16, 12, 8] {
            g.field.place_mino(&Mino { mino_type: MinoType::I, row, column, rotation: Rotation::B });
        }
    }
    let well = Mino { mino_type: MinoType::I, row: 8, column: 2, rotation: Rotation::B };
    assert!(g.field.can_move(&well));
    g.current_mino = Some(well);
    let before = g.clone();
    g.apply(MinoOperation::RotateRight, MinoType::all_minos());
    assert!(unchanged(&before, &g));
    g.apply(MinoOperation::RotateLeft, MinoType::all_minos());
    assert!(unchanged(&before, &g));
}

#[test]
fn second_hold_changes_nothing() {
    let mut g = started(MinoType::I);
    assert_eq!(g.apply(MinoOperation::Hold, MinoType::all_minos()), Some(1000));
    assert_eq!(g.held_mino, Some(MinoType::I));
    assert_eq!(g.current_mino.unwrap().mino_type, MinoType::J);
    assert!(!g.can_hold);
    let after_first = g.clone();
    assert_eq!(g.apply(MinoOperation::Hold, MinoType::all_minos()), None);
    assert!(unchanged(&after_first, &g));
}

#[test]
fn hold_swaps_after_a_lock() {
    let mut g = started(MinoType::I);
    g.apply(MinoOperation::Hold, MinoType::all_minos());
    g.apply(MinoOperation::HardDrop, MinoType::all_minos());
    assert!(g.can_hold);
    let flying = g.current_mino.unwrap().mino_type;
    g.apply(MinoOperation::Hold, MinoType::all_minos());
    assert_eq!(g.held_mino, Some(flying));
    assert_eq!(g.current_mino, Some(Mino::new(MinoType::I)));
    assert!(!g.can_hold);
}

#[test]
fn stacking_in_one_place_tops_out() {
    let mut g = started(MinoType::O);
    let mut drops = 0;
    while !g.game_over {
        g.apply(MinoOperation::HardDrop, MinoType::all_minos());
        drops += 1;
        assert!(drops < 200);
    }
    assert!(g.current_mino.is_none());
    let before = g.clone();
    for op in [MinoOperation::Fall, MinoOperation::Hold, MinoOperation::Change, MinoOperation::StartSoftDrop] {
        assert_eq!(g.apply(op, MinoType::all_minos()), None);
        assert!(unchanged(&before, &g));
    }
}

#[test]
fn fall_without_a_piece_does_nothing() {
    let mut g = GameState::from_bag(MinoType::all_minos());
    let before = g.clone();
    assert_eq!(g.apply(MinoOperation::Fall, MinoType::all_minos()), None);
    assert!(unchanged(&before, &g));
}

#[test]
fn seven_spawns_from_a_bag_boundary_bring_every_shape() {
    let mut rng = rand::rng();
    let mut g = GameState::new(&mut rng);
    assert_eq!(g.next_minos.len(), 7);
    for _ in 0..4 {
        let mut seen = Vec::new();
        for _ in 0..7 {
            assert_eq!(change_mino(&mut rng, &mut g), Some(1000));
            seen.push(g.current_mino.unwrap().mino_type);
        }
        for t in MinoType::all_minos() {
            assert_eq!(seen.iter().filter(|s| **s == t).count(), 1);
        }
    }
}

#[test]
fn operations_with_a_random_bag() {
    let mut rng = rand::rng();
    let mut g = GameState::new(&mut rng);
    change_mino(&mut rng, &mut g);
    let first = g.current_mino.unwrap().mino_type;
    assert_eq!(hold_mino(&mut rng, &mut g), Some(1000));
    assert_eq!(g.held_mino, Some(first));
    let row = g.current_mino.unwrap().row;
    assert_eq!(fall_mino(&mut rng, &mut g), Some(1000));
    assert_eq!(g.current_mino.unwrap().row, row + 1);
    assert_eq!(mino_operation(&mut rng, &mut g, MinoOperation::RotateLeft), None);
}

#[test]
fn new_bags_are_shuffled_permutations() {
    let mut rng = rand::rng();
    let catalog = MinoType::all_minos();
    let mut reordered = 0;
    for _ in 0..20 {
        let bag = new_bag(&mut rng);
        assert_eq!(bag.len(), 7);
        for t in &catalog {
            assert_eq!(bag.iter().filter(|b| *b == t).count(), 1);
        }
        if bag != catalog {
            reordered += 1;
        }
    }
    assert!(reordered > 0);
}
