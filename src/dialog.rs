use crate::color::Color;
use crate::surface::{FrameBuffer, Rect, SurfaceView};
use vstd::prelude::*;

verus! {

/// Fill of the dialog box.
pub fn dialog_background() -> (c: Color)
    ensures
        c == (Color { r: 168, g: 154, b: 132 }),
{
    Color { r: 168, g: 154, b: 132 }
}

/// Colour of the dialog's inner border.
pub fn stroke_color() -> (c: Color)
    ensures
        c == (Color { r: 40, g: 40, b: 40 }),
{
    Color { r: 40, g: 40, b: 40 }
}

/// The centre of the surface, where dialogs are placed.
pub fn dialog_centre(fb: &FrameBuffer) -> (c: (i32, i32))
    requires
        fb@.wf(),
    ensures
        c.0 == fb@.width / 2,
        c.1 == fb@.height / 2,
{
    ((fb.width() / 2) as i32, (fb.height() / 2) as i32)
}

pub open spec fn centre_ok(cx: i32, cy: i32) -> bool {
    0 <= cx <= i32::MAX / 2 && 0 <= cy <= i32::MAX / 2
}

/// The dialog box: 200 × 300 pixels around the centre.
pub fn frame_rect(cx: i32, cy: i32) -> (r: Rect)
    requires
        centre_ok(cx, cy),
    ensures
        r == (Rect { x: (cx - 100) as i32, y: (cy - 150) as i32, width: 200, height: 300 }),
{
    Rect { x: cx - 100, y: cy - 150, width: 200, height: 300 }
}

/// The border inside the dialog box: 180 × 280 pixels around the centre.
pub fn border_rect(cx: i32, cy: i32) -> (r: Rect)
    requires
        centre_ok(cx, cy),
    ensures
        r == (Rect { x: (cx - 90) as i32, y: (cy - 140) as i32, width: 180, height: 280 }),
{
    Rect { x: cx - 90, y: cy - 140, width: 180, height: 280 }
}

/// The area of the list of choices: 160 × 200 pixels around the centre.
pub fn list_rect(cx: i32, cy: i32) -> (r: Rect)
    requires
        centre_ok(cx, cy),
    ensures
        r == (Rect { x: (cx - 80) as i32, y: (cy - 100) as i32, width: 160, height: 200 }),
{
    Rect { x: cx - 80, y: cy - 100, width: 160, height: 200 }
}

/// Anchor of the dialog's title line.
pub fn title_anchor(cx: i32, cy: i32) -> (p: (i32, i32))
    requires
        centre_ok(cx, cy),
    ensures
        p == (cx, (cy - 135) as i32),
{
    (cx, cy - 135)
}

/// Anchor of the dialog's key hint line.
pub fn hint_anchor(cx: i32, cy: i32) -> (p: (i32, i32))
    requires
        centre_ok(cx, cy),
    ensures
        p == (cx, (cy + 120) as i32),
{
    (cx, cy + 120)
}

/// Vertical anchor of row `row` of a list that shows `shown` rows: rows are
/// 30 pixels apart and the middle one sits just above the centre.
pub fn row_y(cy: i32, shown: u32, row: u32) -> (y: i64)
    ensures
        y == cy - 35 * (shown / 2) as int + 30 * row,
{
    cy as i64 - 35 * (shown / 2) as i64 + 30 * row as i64
}

/// The surface `c` holds `old` with the dialog box filled and its border drawn.
pub open spec fn dialog_drawn(c: SurfaceView, old: SurfaceView, cx: int, cy: int) -> bool {
    exists|mid: SurfaceView|
        #[trigger] mid.painted_from(old, cx - 100, cy - 150, cx + 100, cy + 150, 0, 0, 0, 0, crate::color::packed(
            Color { r: 168, g: 154, b: 132 },
        )) && c.painted_from(mid, cx - 90, cy - 140, cx + 90, cy + 140, cx - 89, cy - 139, cx + 89, cy + 139,
            crate::color::packed(Color { r: 40, g: 40, b: 40 }))
}

/// Fills the dialog box and draws its one-pixel border.
pub fn draw_dialog(fb: &mut FrameBuffer, cx: i32, cy: i32)
    requires
        old(fb)@.wf(),
        centre_ok(cx, cy),
    ensures
        final(fb)@.wf(),
        dialog_drawn(final(fb)@, old(fb)@, cx as int, cy as int),
{
    let ghost v0 = fb@;
    fb.fill_rect(frame_rect(cx, cy), dialog_background().pack());
    let ghost mid = fb@;
    fb.stroke_rect(border_rect(cx, cy), stroke_color().pack(), 1);
    assert(mid.painted_from(v0, cx - 100, cy - 150, cx + 100, cy + 150, 0, 0, 0, 0, crate::color::packed(
        Color { r: 168, g: 154, b: 132 })));
}

/// Blanks the list area before its rows are drawn again.
pub fn clear_list(fb: &mut FrameBuffer, cx: i32, cy: i32)
    requires
        old(fb)@.wf(),
        centre_ok(cx, cy),
    ensures
        final(fb)@.wf(),
        final(fb)@.painted_from(old(fb)@, cx - 80, cy - 100, cx + 80, cy + 100, 0, 0, 0, 0,
            crate::color::packed(Color { r: 168, g: 154, b: 132 })),
{
    fb.fill_rect(list_rect(cx, cy), dialog_background().pack());
}

} // verus!
