use falling_blocks::field::Field;
use falling_blocks::piece::{Mino, MinoType, Rotation};

fn mino(t: MinoType, row: i16, column: i16, rotation: Rotation) -> Mino {
    Mino { mino_type: t, row, column, rotation }
}

#[test]
fn new_field_is_empty() {
    let f = Field::new();
    let rows = f.display_blocks();
    assert_eq!(rows.len(), 20);
    assert!(rows.iter().all(|r| r.len() == 10 && r.iter().all(|c| c.is_none())));
    assert!(f.is_empty(-20, 0));
    assert!(f.is_empty(19, 9));
}

#[test]
fn out_of_bounds_is_never_empty() {
    let f = Field::new();
    assert!(!f.is_empty(0, -1));
    assert!(!f.is_empty(0, 10));
    assert!(!f.is_empty(20, 4));
    assert!(!f.is_empty(-21, 4));
    assert!(!f.can_move(&mino(MinoType::O, 19, 4, Rotation::A)));
    assert!(!f.can_move(&mino(MinoType::O, 0, 9, Rotation::A)));
    assert!(!f.can_move(&mino(MinoType::O, 0, -1, Rotation::A)));
    assert!(f.can_move(&mino(MinoType::O, 18, 8, Rotation::A)));
}

#[test]
fn occupied_cells_block_placement() {
    let mut f = Field::new();
    f.place_mino(&mino(MinoType::O, 18, 0, Rotation::A));
    assert!(!f.is_empty(19, 0));
    assert!(!f.is_empty(18, 1));
    assert!(f.is_empty(17, 0));
    assert!(!f.can_move(&mino(MinoType::O, 17, 1, Rotation::A)));
    assert!(f.can_move(&mino(MinoType::O, 16, 1, Rotation::A)));
    assert!(f.can_move(&mino(MinoType::O, 18, 2, Rotation::A)));
}

#[test]
fn grounded_and_ghost() {
    let f = Field::new();
    let o = Mino::new(MinoType::O);
    assert!(!f.on_ground(&o));
    let g = f.ghost_mino(&o);
    assert_eq!(g, mino(MinoType::O, 18, 4, Rotation::A));
    assert!(f.on_ground(&g));
    let i = Mino::new(MinoType::I);
    assert_eq!(f.ghost_mino(&i).row, 18);
}

fn row_except_last_cell(f: &mut Field) {
    f.place_mino(&mino(MinoType::I, 18, 0, Rotation::A));
    f.place_mino(&mino(MinoType::I, 18, 4, Rotation::A));
    f.place_mino(&mino(MinoType::I, 16, 6, Rotation::B));
}

#[test]
fn completing_a_row_clears_it() {
    let mut f = Field::new();
    row_except_last_cell(&mut f);
    let before = f.display_blocks();
    assert!(before[19][..9].iter().all(|c| c.is_some()));
    assert!(before[19][9].is_none());
    assert!(before[16][8].is_some());
    f.place_mino(&mino(MinoType::I, 16, 7, Rotation::B));
    let after = f.display_blocks();
    // the full bottom row is gone; the columns above moved down one row
    assert!(after[19][..8].iter().all(|c| c.is_none()));
    assert_eq!(after[19][8], Some(MinoType::I));
    assert_eq!(after[19][9], Some(MinoType::I));
    assert_eq!(after[17][8], Some(MinoType::I));
    assert!(after[16][8].is_none());
    assert!(after[16][9].is_none());
    assert!(f.is_empty(-20, 8));
    let filled: usize = after.iter().map(|r| r.iter().filter(|c| c.is_some()).count()).sum();
    assert_eq!(filled, 6);
}

#[test]
fn clearing_twice_changes_nothing() {
    let mut f = Field::new();
    row_except_last_cell(&mut f);
    f.place_mino(&mino(MinoType::I, 16, 7, Rotation::B));
    let once = f.clone();
    f.clear_lines();
    assert!(f.same_cells(&once));
    f.clear_lines();
    assert!(f.same_cells(&once));
}

#[test]
fn ghost_after_placing_does_not_overlap() {
    let mut f = Field::new();
    let first = f.ghost_mino(&Mino::new(MinoType::T));
    f.place_mino(&first);
    let next = Mino::new(MinoType::T);
    assert!(f.can_move(&next));
    let g = f.ghost_mino(&next);
    assert!(f.can_move(&g));
    assert!(f.on_ground(&g));
    assert_eq!(g.row, 16);
    assert_eq!(g.column, next.column);
}

#[test]
fn same_cells_tells_fields_apart() {
    let a = Field::new();
    let mut b = Field::new();
    assert!(a.same_cells(&b));
    b.place_mino(&mino(MinoType::Z, 0, 0, Rotation::A));
    assert!(!a.same_cells(&b));
}
