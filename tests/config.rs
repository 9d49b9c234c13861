use bootsplash::color::{Color, Resolution};
use bootsplash::config::{
    config_path_for, detect_encoding, pad_to, parse_color_bytes, parse_resolution_bytes, ConfigData, Encoding,
};
use bootsplash::decimal::{parse_usize, write_decimal};
use bootsplash::record::Config;
use bootsplash::store::{ConfigError, KeyValueStore};

fn record(bg: (u8, u8, u8), path: &str, res: (usize, usize)) -> ConfigData {
    ConfigData {
        background: Color::new(bg.0, bg.1, bg.2),
        logo_path: path.as_bytes().to_vec(),
        resolution: Resolution::from(res),
    }
}

#[test]
fn decimal_numbers() {
    let mut out = Vec::new();
    write_decimal(&mut out, 0);
    write_decimal(&mut out, 1920);
    assert_eq!(out, b"01920".to_vec());
    assert_eq!(parse_usize(b"0042", 0, 4), Some(42));
    assert_eq!(parse_usize(b"4a", 0, 2), None);
    assert_eq!(parse_usize(b"", 0, 0), None);
    assert_eq!(parse_usize(b"99999999999999999999999", 0, 23), None);
    assert_eq!(parse_usize(b"18446744073709551615", 0, 20), Some(usize::MAX));
}

#[test]
fn colour_field() {
    assert_eq!(parse_color_bytes(b"10, 20, 30"), Some(Color::new(10, 20, 30)));
    assert_eq!(parse_color_bytes(b" 1,2 ,  255 "), Some(Color::new(1, 2, 255)));
    assert_eq!(parse_color_bytes(b"1, 2, 256"), None);
    assert_eq!(parse_color_bytes(b"1, 2"), None);
    assert_eq!(parse_color_bytes(b"1, 2, 3, 4"), None);
    assert_eq!(parse_color_bytes(b"1, , 3"), None);
}

#[test]
fn resolution_field() {
    assert_eq!(parse_resolution_bytes(b"800x600"), Some(Resolution { width: 800, height: 600 }));
    assert_eq!(parse_resolution_bytes(b" 1024 x 768 "), Some(Resolution { width: 1024, height: 768 }));
    assert_eq!(parse_resolution_bytes(b"0x600"), None);
    assert_eq!(parse_resolution_bytes(b"800*600"), None);
    assert_eq!(parse_resolution_bytes(b"800x600x2"), None);
}

#[test]
fn resolution_label() {
    assert_eq!(Resolution { width: 1280, height: 1024 }.label(), b"1280x1024".to_vec());
    assert_eq!(Resolution::from((3, 4)).as_pair(), (3, 4));
}

#[test]
fn text_serialization() {
    let d = record((168, 154, 132), "\\logo.bmp", (1920, 1080));
    assert_eq!(
        d.to_text(),
        b"background = 168, 154, 132\nlogo_path = \\logo.bmp\nresolution = 1920x1080\n".to_vec()
    );
    let e = record((0, 0, 0), "", (1, 1));
    assert_eq!(e.to_text(), b"background = 0, 0, 0\nlogo_path =\nresolution = 1x1\n".to_vec());
}

#[test]
fn text_round_trip() {
    for d in [record((1, 2, 3), "\\efi\\logo.bmp", (800, 600)), record((255, 0, 9), "", (1, 2))] {
        let text = d.to_text();
        let store = KeyValueStore::load(&text).unwrap();
        let back = store.config_data();
        assert_eq!(back.background, d.background);
        assert_eq!(back.logo_path, d.logo_path);
        assert_eq!(back.resolution, d.resolution);
    }
}

#[test]
fn comments_blanks_and_unknown_keys() {
    let text = b"# boot settings\n\n  background = 1, 2, 3   # grey\nshade = dark\n\t\nresolution=640x480";
    let store = KeyValueStore::load(text).unwrap();
    let d = store.config_data();
    assert_eq!(d.background, Color::new(1, 2, 3));
    assert_eq!(d.resolution, Resolution { width: 640, height: 480 });
    assert!(d.logo_path.is_empty());
    assert_eq!(store.get(b"shade"), Some(&b"dark".to_vec()));
    assert_eq!(store.unrecognized_keys(), vec![b"shade".to_vec()]);
}

#[test]
fn malformed_lines_are_fatal() {
    assert_eq!(KeyValueStore::load(b"background 1, 2, 3\n").err(), Some(ConfigError::MalformedLine));
    assert_eq!(KeyValueStore::load(b"a = b = c\n").err(), Some(ConfigError::MalformedLine));
    assert_eq!(KeyValueStore::load(b"= 1 = 2\n").err(), Some(ConfigError::MalformedLine));
}

#[test]
fn empty_key_is_an_unrecognized_key() {
    let store = KeyValueStore::load(b" = value\nresolution = 2x3\n").unwrap();
    assert_eq!(store.get(b""), Some(&b"value".to_vec()));
    assert_eq!(store.unrecognized_keys(), vec![Vec::<u8>::new()]);
    assert_eq!(store.config_data().resolution, Resolution { width: 2, height: 3 });
}

#[test]
fn malformed_values_keep_defaults() {
    let store = KeyValueStore::load(b"background = red\nresolution = big\n").unwrap();
    let d = store.config_data();
    assert_eq!(d.background, Color::new(0, 0, 0));
    assert_eq!(d.resolution, Resolution { width: 0, height: 0 });
}

#[test]
fn empty_text_gives_defaults() {
    let store = KeyValueStore::load(b"").unwrap();
    let d = store.config_data();
    assert_eq!(d.background, Color::new(0, 0, 0));
    assert_eq!(d.resolution, Resolution { width: 0, height: 0 });
    assert!(d.logo_path.is_empty());
    assert_eq!(store.release(), None);
}

#[test]
fn later_line_wins() {
    let store = KeyValueStore::load(b"resolution = 1x1\nresolution = 2x2\n").unwrap();
    assert_eq!(store.config_data().resolution, Resolution { width: 2, height: 2 });
}

#[test]
fn release_without_changes_writes_nothing() {
    let text = b"background = 1, 2, 3\nresolution = 800x600\n";
    let store = KeyValueStore::load(text).unwrap();
    assert!(!store.is_dirty());
    assert_eq!(store.release(), None);
}

#[test]
fn release_after_one_set_writes_that_line() {
    let text = b"background = 1, 2, 3\nresolution = 800x600\n";
    let mut store = KeyValueStore::load(text).unwrap();
    store.set(b"resolution", b"1024x768");
    assert_eq!(store.get(b"resolution"), Some(&b"1024x768".to_vec()));
    assert_eq!(store.config_data().resolution, Resolution { width: 1024, height: 768 });
    let out = store.release().unwrap();
    let mut expected = b"resolution = 1024x768\n".to_vec();
    expected.resize(text.len(), b' ');
    assert_eq!(out, expected);
}

#[test]
fn release_of_new_key_longer_than_file() {
    let mut store = KeyValueStore::load(b"").unwrap();
    store.set(b"logo_path", b"a.bmp");
    assert_eq!(store.release(), Some(b"logo_path = a.bmp\n".to_vec()));
}

#[test]
fn padding_fills_old_length() {
    assert_eq!(pad_to(b"ab", 5), b"ab   ".to_vec());
    assert_eq!(pad_to(b"abcdef", 3), b"abcdef".to_vec());
    assert_eq!(pad_to(b"", 2), b"  ".to_vec());
}

#[test]
fn record_store_release() {
    let clean = Config::new(Some(record((1, 2, 3), "x", (4, 5))), 10);
    assert_eq!(clean.release(b"{}"), None);
    assert_eq!(clean.data().resolution, Resolution { width: 4, height: 5 });
    let mut changed = Config::new(None, 6);
    assert_eq!(changed.data().resolution, Resolution { width: 0, height: 0 });
    changed.set_resolution(Resolution { width: 800, height: 600 });
    assert!(changed.is_dirty());
    assert_eq!(changed.data().resolution, Resolution { width: 800, height: 600 });
    assert_eq!(changed.release(b"{}"), Some(b"{}    ".to_vec()));
    let mut other = Config::new(None, 0);
    other.set_background(Color::new(9, 9, 9));
    other.set_logo_path(b"p");
    assert_eq!(other.data().logo_path, b"p".to_vec());
    assert_eq!(other.release(b"{\"a\":1}"), Some(b"{\"a\":1}".to_vec()));
}

#[test]
fn config_path_replaces_extension() {
    assert_eq!(config_path_for(b"\\EFI\\BOOT\\BOOTX64.EFI"), Some(b"\\EFI\\BOOT\\BOOTX64.json".to_vec()));
    assert_eq!(config_path_for(b"a.b.c"), Some(b"a.b.json".to_vec()));
    assert_eq!(config_path_for(b"noext"), None);
}

#[test]
fn duplicate_copies_record() {
    let d = record((4, 5, 6), "q", (7, 8));
    let c = d.duplicate();
    assert_eq!(c.logo_path, d.logo_path);
    assert_eq!(c.background, d.background);
    assert_eq!(ConfigData::new().resolution, Resolution::default());
}

#[test]
fn encoding_detection() {
    assert_eq!(detect_encoding(b""), Encoding::Structured);
    assert_eq!(detect_encoding(b" \n\t"), Encoding::Structured);
    assert_eq!(detect_encoding(b"  {\"background\": {}}"), Encoding::Structured);
    assert_eq!(detect_encoding(b"background = 1, 2, 3"), Encoding::Text);
    assert_eq!(detect_encoding(b"\n# comment\n{"), Encoding::Text);
}
