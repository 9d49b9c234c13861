use bootsplash::color::Resolution;
use bootsplash::menu::{
    find_mode, power_action, rows_for, visible_window, Key, MenuState, PowerAction, RowLayout, SelectionMenu,
    RESOLUTION_WINDOW,
};

#[test]
fn up_from_first_wraps_to_last() {
    let mut m = SelectionMenu::new(4);
    assert!(m.handle_key(Key::Up));
    assert_eq!(m.state(), MenuState::Choosing(3));
}

#[test]
fn down_from_last_wraps_to_first() {
    let mut m = SelectionMenu::new(3);
    m.handle_key(Key::Down);
    m.handle_key(Key::Down);
    assert_eq!(m.state(), MenuState::Choosing(2));
    assert!(m.handle_key(Key::Down));
    assert_eq!(m.state(), MenuState::Choosing(0));
}

#[test]
fn enter_commits_and_escape_cancels() {
    let mut m = SelectionMenu::new(3);
    m.handle_key(Key::Down);
    assert!(!m.handle_key(Key::Printable('\r')));
    assert_eq!(m.state(), MenuState::Committed(1));
    assert_eq!(m.committed(), Some(1));
    let mut c = SelectionMenu::new(3);
    assert!(!c.handle_key(Key::Escape));
    assert_eq!(c.state(), MenuState::Cancelled);
    assert_eq!(c.committed(), None);
}

#[test]
fn other_keys_are_ignored() {
    let mut m = SelectionMenu::new(2);
    assert!(!m.handle_key(Key::Printable('a')));
    assert!(!m.handle_key(Key::OtherSpecial));
    assert_eq!(m.state(), MenuState::Choosing(0));
}

#[test]
fn terminal_states_absorb_keys() {
    let mut m = SelectionMenu::new(2);
    m.handle_key(Key::Printable('\r'));
    assert!(!m.handle_key(Key::Down));
    assert_eq!(m.state(), MenuState::Committed(0));
}

#[test]
fn single_entry_menu_stays_put() {
    let mut m = SelectionMenu::new(1);
    assert!(m.handle_key(Key::Up));
    assert_eq!(m.state(), MenuState::Choosing(0));
    assert!(m.handle_key(Key::Down));
    assert_eq!(m.state(), MenuState::Choosing(0));
}

#[test]
fn window_is_centred_and_wraps() {
    assert_eq!(visible_window(8, 0, RESOLUTION_WINDOW), vec![6, 7, 0, 1, 2]);
    assert_eq!(visible_window(8, 7, RESOLUTION_WINDOW), vec![5, 6, 7, 0, 1]);
    assert_eq!(visible_window(3, 1, RESOLUTION_WINDOW), vec![0, 1, 2]);
    assert_eq!(visible_window(3, 0, RESOLUTION_WINDOW), vec![2, 0, 1]);
    assert_eq!(visible_window(1, 0, RESOLUTION_WINDOW), vec![0]);
    assert_eq!(visible_window(4, 2, 0), Vec::<usize>::new());
}

#[test]
fn power_actions() {
    assert_eq!(power_action(MenuState::Committed(0)), PowerAction::Continue);
    assert_eq!(power_action(MenuState::Committed(1)), PowerAction::Reboot);
    assert_eq!(power_action(MenuState::Committed(2)), PowerAction::Shutdown);
    assert_eq!(power_action(MenuState::Cancelled), PowerAction::Continue);
}

#[test]
fn find_mode_takes_first_match() {
    let modes = vec![
        Resolution { width: 640, height: 480 },
        Resolution { width: 1024, height: 768 },
        Resolution { width: 1024, height: 768 },
    ];
    assert_eq!(find_mode(&modes, Resolution { width: 1024, height: 768 }), Some(1));
    assert_eq!(find_mode(&modes, Resolution { width: 800, height: 600 }), None);
    assert_eq!(find_mode(&Vec::new(), Resolution { width: 800, height: 600 }), None);
}

#[test]
fn row_layouts() {
    assert_eq!(rows_for(8, 0, RowLayout::Window(5)), (vec![6, 7, 0, 1, 2], 2));
    assert_eq!(rows_for(3, 2, RowLayout::Window(5)), (vec![1, 2, 0], 1));
    assert_eq!(rows_for(3, 2, RowLayout::Fixed), (vec![0, 1, 2], 2));
    assert_eq!(rows_for(2, 1, RowLayout::Window(4)), (vec![0, 1], 1));
}
