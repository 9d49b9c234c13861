use bootsplash::color::{Color, Resolution};
use bootsplash::menu::{find_mode, Key, MenuState, SelectionMenu};
use bootsplash::store::KeyValueStore;

#[test]
fn unmatched_resolution_is_picked_from_menu() {
    let store = KeyValueStore::load(b"background = 10, 20, 30\nresolution = 800x600\n").unwrap();
    let d = store.config_data();
    assert_eq!(d.background, Color::new(10, 20, 30));
    assert_eq!(d.resolution, Resolution { width: 800, height: 600 });
    assert!(d.logo_path.is_empty());
    let modes = vec![
        Resolution { width: 640, height: 480 },
        Resolution { width: 1024, height: 768 },
        Resolution { width: 1280, height: 1024 },
    ];
    assert_eq!(find_mode(&modes, d.resolution), None);
    let mut menu = SelectionMenu::new(modes.len());
    menu.handle_key(Key::Down);
    menu.handle_key(Key::Down);
    menu.handle_key(Key::Printable('\r'));
    assert_eq!(menu.state(), MenuState::Committed(2));
    assert_eq!(menu.committed(), Some(2));
}
