use falling_blocks::game::{Direction, Event, GameState, MinoOperation};
use falling_blocks::input::{command_for_key, key_pressed, Key, KeyAction, KeyKind};
use falling_blocks::notify::{display_cells, redraw_needed, Redraw, Shown};
use falling_blocks::piece::MinoType;

fn started() -> GameState {
    let mut g = GameState::from_bag(MinoType::all_minos());
    g.apply(MinoOperation::Change, MinoType::all_minos());
    g
}

#[test]
fn redraw_flags_follow_the_changes() {
    let mut g = started();
    let same = g.clone();
    assert_eq!(redraw_needed(&same, &g), Redraw { field: false, hold: false, next: false, game_over: false });
    g.apply(MinoOperation::Fall, MinoType::all_minos());
    assert_eq!(redraw_needed(&same, &g), Redraw { field: true, hold: false, next: false, game_over: false });
    let before_hold = g.clone();
    g.apply(MinoOperation::Hold, MinoType::all_minos());
    assert_eq!(redraw_needed(&before_hold, &g), Redraw { field: true, hold: true, next: true, game_over: false });
    let before_drop = g.clone();
    g.apply(MinoOperation::HardDrop, MinoType::all_minos());
    assert_eq!(redraw_needed(&before_drop, &g), Redraw { field: true, hold: false, next: true, game_over: false });
}

#[test]
fn display_shows_piece_ghost_and_blocks() {
    let mut g = started();
    let cells = display_cells(&g);
    assert_eq!(cells.len(), 20);
    for c in 3..7 {
        assert_eq!(cells[0][c], Shown::Block(MinoType::I));
        assert_eq!(cells[19][c], Shown::Shadow);
    }
    assert_eq!(cells[0][2], Shown::Empty);
    assert_eq!(cells[1][3], Shown::Empty);
    g.apply(MinoOperation::Fall, MinoType::all_minos());
    let cells = display_cells(&g);
    for c in 3..7 {
        assert_eq!(cells[0][c], Shown::Empty);
        assert_eq!(cells[1][c], Shown::Block(MinoType::I));
    }
    g.apply(MinoOperation::HardDrop, MinoType::all_minos());
    let cells = display_cells(&g);
    for c in 3..7 {
        assert_eq!(cells[19][c], Shown::Block(MinoType::I));
    }
    assert_eq!(cells[0][3], Shown::Block(MinoType::J));
    assert_eq!(cells[18][3], Shown::Shadow);
}

#[test]
fn keys_map_to_commands() {
    assert_eq!(command_for_key(Key::Esc), Some((Event::End, false)));
    assert_eq!(
        command_for_key(Key::Left),
        Some((Event::MinoOperation(MinoOperation::Move(Direction::Left)), true))
    );
    assert_eq!(
        command_for_key(Key::Char(' ')),
        Some((Event::MinoOperation(MinoOperation::HardDrop), false))
    );
    assert_eq!(
        command_for_key(Key::Char('c')),
        Some((Event::MinoOperation(MinoOperation::Hold), false))
    );
    assert_eq!(command_for_key(Key::Char('q')), None);
    assert_eq!(command_for_key(Key::Other), None);
}

#[test]
fn key_presses_fire_once_and_repeat_only_moves() {
    let press = key_pressed(KeyKind::Press, Key::Right, false);
    assert_eq!(
        press,
        KeyAction {
            send: Some(Event::MinoOperation(MinoOperation::Move(Direction::Right))),
            start_repeat: true,
            track: true,
            untrack: false,
        }
    );
    let again = key_pressed(KeyKind::Press, Key::Right, true);
    assert_eq!(again, KeyAction { send: None, start_repeat: false, track: false, untrack: false });
    let rot = key_pressed(KeyKind::Press, Key::Char('x'), false);
    assert_eq!(rot.send, Some(Event::MinoOperation(MinoOperation::RotateRight)));
    assert!(!rot.start_repeat);
    assert!(rot.track);
}

#[test]
fn key_release_stops_repeats_and_soft_drop() {
    let up = key_pressed(KeyKind::Release, Key::Down, true);
    assert_eq!(
        up,
        KeyAction {
            send: Some(Event::MinoOperation(MinoOperation::EndSoftDrop)),
            start_repeat: false,
            track: false,
            untrack: true,
        }
    );
    let left_up = key_pressed(KeyKind::Release, Key::Left, true);
    assert_eq!(left_up.send, None);
    assert!(left_up.untrack);
    let held = key_pressed(KeyKind::Repeat, Key::Left, true);
    assert_eq!(held, KeyAction { send: None, start_repeat: false, track: false, untrack: false });
}

#[test]
fn game_over_is_signalled_once() {
    let mut g = started();
    let mut prev = g.clone();
    let mut signals = 0;
    for _ in 0..200 {
        g.apply(MinoOperation::HardDrop, MinoType::all_minos());
        if redraw_needed(&prev, &g).game_over {
            signals += 1;
        }
        prev = g.clone();
    }
    assert!(g.game_over);
    assert_eq!(signals, 1);
}
