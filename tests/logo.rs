use bootsplash::color::Color;
use bootsplash::dialog::{
    border_rect, clear_list, dialog_background, dialog_centre, draw_dialog, frame_rect, hint_anchor, list_rect,
    row_y, stroke_color, title_anchor,
};
use bootsplash::logo::{centre_offset, draw_logo, paint_splash, DecodedImage, LogoError};
use bootsplash::surface::{FrameBuffer, Rect, SourcePixel};

/// A 24-bit bottom-up BMP of 2 × 2 pixels; `rows` holds the top row first,
/// each pixel as (r, g, b).
fn bmp_2x2(rows: [[(u8, u8, u8); 2]; 2]) -> Vec<u8> {
    let mut b = Vec::new();
    b.extend_from_slice(b"BM");
    b.extend_from_slice(&70u32.to_le_bytes());
    b.extend_from_slice(&0u32.to_le_bytes());
    b.extend_from_slice(&54u32.to_le_bytes());
    b.extend_from_slice(&40u32.to_le_bytes());
    b.extend_from_slice(&2i32.to_le_bytes());
    b.extend_from_slice(&2i32.to_le_bytes());
    b.extend_from_slice(&1u16.to_le_bytes());
    b.extend_from_slice(&24u16.to_le_bytes());
    b.extend_from_slice(&0u32.to_le_bytes());
    b.extend_from_slice(&16u32.to_le_bytes());
    b.extend_from_slice(&2835u32.to_le_bytes());
    b.extend_from_slice(&2835u32.to_le_bytes());
    b.extend_from_slice(&0u32.to_le_bytes());
    b.extend_from_slice(&0u32.to_le_bytes());
    for row in [rows[1], rows[0]] {
        for (r, g, bl) in row {
            b.extend_from_slice(&[bl, g, r]);
        }
        b.extend_from_slice(&[0, 0]);
    }
    b
}

fn surface(width: usize, height: usize) -> FrameBuffer {
    FrameBuffer::new(vec![0xdead; width * height], width, width, height).unwrap()
}

#[test]
fn colour_packing() {
    assert_eq!(Color::new(0x12, 0x34, 0x56).pack(), 0x123456);
    assert_eq!(Color::new(255, 255, 255).pack(), 0xffffff);
    assert_eq!(Color::black().pack(), 0);
}

#[test]
fn centring() {
    assert_eq!(centre_offset(10, 4), 3);
    assert_eq!(centre_offset(9, 4), 2);
    assert_eq!(centre_offset(4, 9), -3);
    assert_eq!(centre_offset(0, 1), -1);
}

#[test]
fn splash_clears_and_draws_logo_with_black_transparent() {
    let logo = bmp_2x2([[(255, 0, 0), (0, 0, 0)], [(0, 255, 0), (0, 0, 255)]]);
    let mut fb = surface(4, 4);
    let bg = Color::new(1, 2, 3);
    assert_eq!(paint_splash(&mut fb, bg, &logo), Ok(()));
    let p = bg.pack();
    assert_eq!(fb.get(1, 1), Some(0xff0000));
    assert_eq!(fb.get(2, 1), Some(p));
    assert_eq!(fb.get(1, 2), Some(0x00ff00));
    assert_eq!(fb.get(2, 2), Some(0x0000ff));
    let background_cells = fb.cells().iter().filter(|&&c| c == p).count();
    assert_eq!(background_cells, 13);
}

#[test]
fn splash_reports_undecodable_logo() {
    let mut fb = surface(3, 2);
    let bg = Color::new(7, 7, 7);
    assert_eq!(paint_splash(&mut fb, bg, b"not a bitmap"), Err(LogoError::Undecodable));
    assert!(fb.cells().iter().all(|&c| c == bg.pack()));
}

#[test]
fn draw_logo_centres_image() {
    let img = DecodedImage {
        width: 1,
        height: 1,
        pixels: vec![SourcePixel { x: 0, y: 0, color: 5 }],
    };
    let mut fb = surface(3, 3);
    draw_logo(&mut fb, &img);
    assert_eq!(fb.get(1, 1), Some(5));
    assert_eq!(fb.cells().iter().filter(|&&c| c == 5).count(), 1);
}

#[test]
fn dialog_geometry() {
    assert_eq!(frame_rect(300, 200), Rect { x: 200, y: 50, width: 200, height: 300 });
    assert_eq!(border_rect(300, 200), Rect { x: 210, y: 60, width: 180, height: 280 });
    assert_eq!(list_rect(300, 200), Rect { x: 220, y: 100, width: 160, height: 200 });
    assert_eq!(title_anchor(300, 200), (300, 65));
    assert_eq!(hint_anchor(300, 200), (300, 320));
    assert_eq!(row_y(200, 5, 0), 130);
    assert_eq!(row_y(200, 3, 2), 225);
}

#[test]
fn dialog_is_drawn_around_centre() {
    let mut fb = surface(400, 400);
    let (cx, cy) = dialog_centre(&fb);
    assert_eq!((cx, cy), (200, 200));
    draw_dialog(&mut fb, cx, cy);
    let bg = dialog_background().pack();
    let st = stroke_color().pack();
    assert_eq!(fb.get(100, 50), Some(bg));
    assert_eq!(fb.get(110, 60), Some(st));
    assert_eq!(fb.get(289, 339), Some(st));
    assert_eq!(fb.get(111, 61), Some(bg));
    assert_eq!(fb.get(99, 50), Some(0xdead));
    assert_eq!(fb.get(300, 200), Some(0xdead));
    clear_list(&mut fb, cx, cy);
    assert_eq!(fb.get(120, 100), Some(bg));
}
