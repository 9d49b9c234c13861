use bootsplash::surface::{FrameBuffer, Rect, SourcePixel};

fn surface(width: usize, height: usize, stride: usize, fill: u32) -> FrameBuffer {
    FrameBuffer::new(vec![fill; stride * height], stride, width, height).unwrap()
}

#[test]
fn new_rejects_short_store() {
    assert!(FrameBuffer::new(vec![0; 11], 4, 4, 3).is_none());
    assert!(FrameBuffer::new(vec![0; 12], 3, 4, 3).is_none());
    assert!(FrameBuffer::new(vec![0; 12], 4, 4, 3).is_some());
}

#[test]
fn last_row_needs_no_stride_padding() {
    assert!(FrameBuffer::new(vec![0; 3], 2, 1, 2).is_some());
    assert!(FrameBuffer::new(vec![0; 10], 4, 2, 3).is_some());
    assert!(FrameBuffer::new(vec![0; 9], 4, 2, 3).is_none());
    assert!(FrameBuffer::new(Vec::new(), 4, 2, 0).is_some());
    assert!(FrameBuffer::new(vec![0; 1], 0, 0, 5).is_some());
    let mut fb = FrameBuffer::new(vec![0; 10], 4, 2, 3).unwrap();
    fb.clear(6);
    assert_eq!(fb.cells(), &vec![6, 6, 0, 0, 6, 6, 0, 0, 6, 6]);
    fb.write(1, 2, 8);
    assert_eq!(fb.get(1, 2), Some(8));
}

#[test]
fn write_inside_sets_one_cell() {
    let mut fb = surface(3, 2, 4, 0);
    fb.write(2, 1, 7);
    assert_eq!(fb.get(2, 1), Some(7));
    assert_eq!(fb.cells()[1 * 4 + 2], 7);
    assert_eq!(fb.cells().iter().filter(|&&c| c == 7).count(), 1);
}

#[test]
fn write_outside_changes_nothing() {
    let mut fb = surface(3, 2, 4, 5);
    let before = fb.cells().clone();
    for (x, y) in [(-1, 0), (0, -1), (3, 0), (0, 2), (3, 1), (i64::MAX, 0), (0, i64::MIN)] {
        fb.write(x, y, 9);
        assert_eq!(fb.cells(), &before);
    }
}

#[test]
fn stride_padding_is_never_drawn() {
    let mut fb = surface(2, 2, 3, 0);
    fb.clear(4);
    assert_eq!(fb.cells(), &vec![4, 4, 0, 4, 4, 0]);
}

#[test]
fn fill_rect_is_clipped() {
    let mut fb = surface(4, 3, 4, 0);
    fb.fill_rect(Rect { x: -1, y: 1, width: 3, height: 5 }, 1);
    assert_eq!(fb.cells(), &vec![0, 0, 0, 0, 1, 1, 0, 0, 1, 1, 0, 0]);
}

#[test]
fn stroke_rect_draws_outline_only() {
    let mut fb = surface(5, 5, 5, 0);
    fb.stroke_rect(Rect { x: 0, y: 0, width: 4, height: 4 }, 2, 1);
    let expected = vec![
        2, 2, 2, 2, 0, //
        2, 0, 0, 2, 0, //
        2, 0, 0, 2, 0, //
        2, 2, 2, 2, 0, //
        0, 0, 0, 0, 0,
    ];
    assert_eq!(fb.cells(), &expected);
}

#[test]
fn masked_blit_skips_mask_colour() {
    let mut fb = surface(4, 4, 4, 100);
    let src = vec![
        SourcePixel { x: 0, y: 0, color: 1 },
        SourcePixel { x: 1, y: 0, color: 0 },
        SourcePixel { x: 0, y: 1, color: 2 },
        SourcePixel { x: 1, y: 1, color: 3 },
    ];
    fb.draw_masked(&src, 0, 1, 2);
    assert_eq!(fb.get(1, 2), Some(1));
    assert_eq!(fb.get(2, 2), Some(100));
    assert_eq!(fb.get(1, 3), Some(2));
    assert_eq!(fb.get(2, 3), Some(3));
    let changed = fb.cells().iter().filter(|&&c| c != 100).count();
    assert_eq!(changed, 3);
}

#[test]
fn masked_blit_drops_pixels_off_surface() {
    let mut fb = surface(2, 2, 2, 0);
    let src = vec![SourcePixel { x: 0, y: 0, color: 5 }, SourcePixel { x: 1, y: 1, color: 6 }];
    fb.draw_masked(&src, 9, 1, 1);
    assert_eq!(fb.cells(), &vec![0, 0, 0, 5]);
}
