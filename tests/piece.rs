use falling_blocks::piece::{Mino, MinoType, Rotation};

#[test]
fn all_minos_lists_each_shape_once() {
    let all = MinoType::all_minos();
    assert_eq!(all.len(), 7);
    for (i, a) in all.iter().enumerate() {
        for b in all.iter().skip(i + 1) {
            assert_ne!(a, b);
        }
    }
    assert_eq!(
        all,
        vec![
            MinoType::I,
            MinoType::J,
            MinoType::L,
            MinoType::O,
            MinoType::S,
            MinoType::T,
            MinoType::Z
        ]
    );
}

#[test]
fn block_offsets_match_the_catalog() {
    assert_eq!(MinoType::I.blocks(Rotation::A), [(1, 0), (1, 1), (1, 2), (1, 3)]);
    assert_eq!(MinoType::I.blocks(Rotation::B), [(0, 2), (1, 2), (2, 2), (3, 2)]);
    assert_eq!(MinoType::O.blocks(Rotation::C), [(0, 0), (0, 1), (1, 0), (1, 1)]);
    assert_eq!(MinoType::T.blocks(Rotation::D), [(0, 1), (1, 0), (1, 1), (2, 1)]);
    assert_eq!(MinoType::L.blocks(Rotation::A), [(0, 2), (1, 0), (1, 1), (1, 2)]);
}

#[test]
fn rotation_cycles_both_ways() {
    let mut r = Rotation::A;
    r.rotate_right();
    assert_eq!(r, Rotation::B);
    r.rotate_right();
    r.rotate_right();
    assert_eq!(r, Rotation::D);
    r.rotate_right();
    assert_eq!(r, Rotation::A);
    r.rotate_left();
    assert_eq!(r, Rotation::D);
    r.rotate_left();
    assert_eq!(r, Rotation::C);
}

#[test]
fn spawn_positions() {
    assert_eq!(MinoType::I.start_pos(), (-1, 3));
    assert_eq!(MinoType::O.start_pos(), (0, 4));
    assert_eq!(MinoType::S.start_pos(), (0, 3));
    let m = Mino::new(MinoType::T);
    assert_eq!(m.row, 0);
    assert_eq!(m.column, 3);
    assert_eq!(m.rotation, Rotation::A);
}

#[test]
fn mino_blocks_are_absolute() {
    let m = Mino { mino_type: MinoType::S, row: 5, column: 2, rotation: Rotation::A };
    assert_eq!(m.blocks(), vec![(5, 3), (5, 4), (6, 2), (6, 3)]);
    let i = Mino::new(MinoType::I);
    assert_eq!(i.blocks(), vec![(0, 3), (0, 4), (0, 5), (0, 6)]);
}

#[test]
fn kick_tables_start_in_place() {
    let t = Mino { mino_type: MinoType::T, row: 0, column: 0, rotation: Rotation::B };
    let k = t.super_rotation(Rotation::A);
    assert_eq!(k, vec![(0, 0), (0, -1), (-1, -1), (2, 0), (2, -1)]);
    let o = Mino { mino_type: MinoType::O, row: 0, column: 0, rotation: Rotation::B };
    assert_eq!(o.super_rotation(Rotation::A), vec![(0, 0)]);
    let i = Mino { mino_type: MinoType::I, row: 0, column: 0, rotation: Rotation::C };
    assert_eq!(i.super_rotation(Rotation::B).len(), 5);
}
