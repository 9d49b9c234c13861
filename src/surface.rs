use vstd::prelude::*;

verus! {

/// The abstract contents of a surface: the whole cell store, the row stride and
/// the visible size, all in pixels.
pub struct SurfaceView {
    pub cells: Seq<u32>,
    pub stride: nat,
    pub width: nat,
    pub height: nat,
}

impl SurfaceView {
    /// Every visible pixel maps to a cell of the store, and both sides fit
    /// the signed 32-bit coordinates of drawing.
    pub open spec fn wf(self) -> bool {
        &&& self.width <= i32::MAX
        &&& self.height <= i32::MAX
        &&& self.width <= self.stride
        &&& (self.height == 0 || (self.height - 1) * self.stride + self.width <= self.cells.len())
    }

    pub open spec fn in_bounds(self, x: int, y: int) -> bool {
        0 <= x < self.width && 0 <= y < self.height
    }

    /// Position of pixel (x, y) in the cell store.
    pub open spec fn index(self, x: int, y: int) -> int {
        y * self.stride + x
    }

    pub open spec fn at(self, x: int, y: int) -> u32 {
        self.cells[self.index(x, y)]
    }

    /// A cell that backs some visible pixel.
    pub open spec fn is_visible_cell(self, i: int) -> bool {
        exists|x: int, y: int| self.in_bounds(x, y) && #[trigger] self.index(x, y) == i
    }

    /// The surface after a bounds-checked write: unchanged when (x, y) lies outside.
    pub open spec fn written(self, x: int, y: int, color: u32) -> SurfaceView {
        if self.in_bounds(x, y) {
            SurfaceView { cells: self.cells.update(self.index(x, y), color), ..self }
        } else {
            self
        }
    }

    pub open spec fn same_shape(self, other: SurfaceView) -> bool {
        &&& self.cells.len() == other.cells.len()
        &&& self.stride == other.stride
        &&& self.width == other.width
        &&& self.height == other.height
    }

    /// `self` is `old` with every visible pixel inside the half-open box
    /// [x0, x1) × [y0, y1) but outside the hole [hx0, hx1) × [hy0, hy1) set to
    /// `color`, and every other cell kept.
    pub open spec fn painted_from(
        self,
        old: SurfaceView,
        x0: int, y0: int, x1: int, y1: int,
        hx0: int, hy0: int, hx1: int, hy1: int,
        color: u32,
    ) -> bool {
        &&& self.same_shape(old)
        &&& forall|x: int, y: int| #![trigger self.at(x, y)] old.in_bounds(x, y) ==> self.at(x, y) == (
            if in_frame(x, y, x0, y0, x1, y1, hx0, hy0, hx1, hy1) {
                color
            } else {
                old.at(x, y)
            })
        &&& forall|i: int| 0 <= i < old.cells.len() && !old.is_visible_cell(i)
            ==> #[trigger] self.cells[i] == old.cells[i]
    }
}

pub open spec fn in_box(x: int, y: int, x0: int, y0: int, x1: int, y1: int) -> bool {
    x0 <= x < x1 && y0 <= y < y1
}

/// Inside the box [x0, x1) × [y0, y1) and outside the hole [hx0, hx1) × [hy0, hy1).
pub open spec fn in_frame(
    x: int, y: int,
    x0: int, y0: int, x1: int, y1: int,
    hx0: int, hy0: int, hx1: int, hy1: int,
) -> bool {
    in_box(x, y, x0, y0, x1, y1) && !in_box(x, y, hx0, hy0, hx1, hy1)
}

/// An axis-aligned rectangle: top-left corner and size.
#[derive(Clone, Copy, PartialEq, Eq, Structural, Debug)]
pub struct Rect {
    pub x: i32,
    pub y: i32,
    pub width: u32,
    pub height: u32,
}

impl Rect {
    pub open spec fn contains(self, px: int, py: int) -> bool {
        in_box(px, py, self.x as int, self.y as int, self.x + self.width, self.y + self.height)
    }
}

/// A pixel of a source image: a position relative to the image origin and a
/// packed colour.
#[derive(Clone, Copy, PartialEq, Eq, Structural, Debug)]
pub struct SourcePixel {
    pub x: i32,
    pub y: i32,
    pub color: u32,
}

/// The surface after compositing `pixels` in order, skipping those of colour
/// `mask` and moving the others by (dx, dy).
pub open spec fn blitted(v: SurfaceView, pixels: Seq<SourcePixel>, mask: u32, dx: int, dy: int) -> SurfaceView
    decreases pixels.len(),
{
    if pixels.len() == 0 {
        v
    } else {
        let before = blitted(v, pixels.drop_last(), mask, dx, dy);
        let p = pixels.last();
        if p.color == mask {
            before
        } else {
            before.written(p.x + dx, p.y + dy, p.color)
        }
    }
}

pub proof fn lemma_index_injective(s: int, x: int, y: int, x2: int, y2: int)
    requires
        0 <= x < s,
        0 <= x2 < s,
        0 <= y,
        0 <= y2,
        y * s + x == y2 * s + x2,
    ensures
        x == x2,
        y == y2,
{
    if y < y2 {
        assert(y * s + s <= y2 * s) by (nonlinear_arith)
            requires y < y2, 0 <= s;
    } else if y2 < y {
        assert(y2 * s + s <= y * s) by (nonlinear_arith)
            requires y2 < y, 0 <= s;
    }
}

pub proof fn lemma_index_fits(v: SurfaceView, x: int, y: int)
    requires
        v.wf(),
        v.in_bounds(x, y),
    ensures
        0 <= v.index(x, y) < v.cells.len(),
{
    assert(y * v.stride + x < (v.height - 1) * v.stride + v.width) by (nonlinear_arith)
        requires 0 <= x < v.width, 0 <= y < v.height, 0 <= v.stride;
    assert(0 <= y * v.stride) by (nonlinear_arith)
        requires 0 <= y, 0 <= v.stride;
}

/// A rectangular pixel store with a row stride that may exceed the visible
/// width. Writes outside the visible rectangle are dropped.
pub struct FrameBuffer {
    cells: Vec<u32>,
    stride: usize,
    width: usize,
    height: usize,
}

impl View for FrameBuffer {
    type V = SurfaceView;

    closed spec fn view(&self) -> SurfaceView {
        SurfaceView {
            cells: self.cells@,
            stride: self.stride as nat,
            width: self.width as nat,
            height: self.height as nat,
        }
    }
}

impl FrameBuffer {
    /// Takes over `cells` as the store of a `width` × `height` surface with the
    /// given stride; `None` when the visible rows do not fit in the store or a
    /// side exceeds `i32::MAX`.
    pub fn new(cells: Vec<u32>, stride: usize, width: usize, height: usize) -> (r: Option<FrameBuffer>)
        ensures
            r is Some <==> (width <= i32::MAX && height <= i32::MAX && width <= stride
                && (height == 0 || (height - 1) * stride + width <= cells@.len())),
            r matches Some(fb) ==> fb@.wf(),
            r matches Some(fb) ==> fb@ == (SurfaceView {
                cells: cells@,
                stride: stride as nat,
                width: width as nat,
                height: height as nat,
            }),
    {
        if width > stride || width > 0x7fff_ffff || height > 0x7fff_ffff {
            return None;
        }
        if height > 0 {
            if width > cells.len() {
                proof {
                    assert((height - 1) * stride + width > cells@.len()) by (nonlinear_arith)
                        requires height >= 1, stride >= 0, width > cells@.len();
                }
                return None;
            }
            if stride > 0 && height - 1 > (cells.len() - width) / stride {
                proof {
                    let room = cells@.len() - width;
                    assert((height - 1) * stride > room) by (nonlinear_arith)
                        requires stride > 0, height - 1 > room / (stride as int), room >= 0;
                }
                return None;
            }
            proof {
                let room = cells@.len() - width;
                if stride > 0 {
                    assert((height - 1) * stride <= room) by (nonlinear_arith)
                        requires stride > 0, height - 1 <= room / (stride as int), room >= 0, height >= 1;
                } else {
                    assert((height - 1) * stride == 0) by (nonlinear_arith) requires stride == 0;
                }
            }
        }
        Some(FrameBuffer { cells, stride, width, height })
    }

    pub fn width(&self) -> (w: usize)
        ensures
            w == self@.width,
    {
        self.width
    }

    pub fn height(&self) -> (h: usize)
        ensures
            h == self@.height,
    {
        self.height
    }

    pub fn stride(&self) -> (s: usize)
        ensures
            s == self@.stride,
    {
        self.stride
    }

    /// The whole cell store, row by row with the stride between rows.
    pub fn cells(&self) -> (c: &Vec<u32>)
        ensures
            c@ == self@.cells,
    {
        &self.cells
    }

    /// Gives back the cell store.
    pub fn into_cells(self) -> (c: Vec<u32>)
        ensures
            c@ == self@.cells,
    {
        self.cells
    }

    /// The colour of a visible pixel.
    pub fn get(&self, x: usize, y: usize) -> (c: Option<u32>)
        requires
            self@.wf(),
        ensures
            c == (if self@.in_bounds(x as int, y as int) { Some(self@.at(x as int, y as int)) } else { None }),
    {
        if x < self.width && y < self.height {
            let len = self.cells.len();
            proof {
                lemma_index_fits(self@, x as int, y as int);
                assert(y * self.stride + x < len);
            }
            Some(self.cells[y * self.stride + x])
        } else {
            None
        }
    }

    fn set_cell(&mut self, x: usize, y: usize, color: u32)
        requires
            old(self)@.wf(),
            old(self)@.in_bounds(x as int, y as int),
        ensures
            final(self)@ == old(self)@.written(x as int, y as int, color),
            final(self)@.wf(),
            final(self)@.same_shape(old(self)@),
    {
        let len = self.cells.len();
        proof {
            lemma_index_fits(self@, x as int, y as int);
            assert(y * self.stride + x < len);
        }
        let i = y * self.stride + x;
        self.cells.set(i, color);
    }

    /// Stores `color` at (x, y) when it lies on the visible surface; does
    /// nothing otherwise.
    pub fn write(&mut self, x: i64, y: i64, color: u32)
        requires
            old(self)@.wf(),
        ensures
            final(self)@ == old(self)@.written(x as int, y as int, color),
            final(self)@.wf(),
            final(self)@.same_shape(old(self)@),
    {
        if x >= 0 && y >= 0 && (x as u64 as u128) < (self.width as u128) && (y as u64 as u128) < (self.height as u128) {
            self.set_cell(x as usize, y as usize, color);
        }
    }

    /// Sets every visible pixel of the box [x0, x1) × [y0, y1) that lies outside
    /// the hole [hx0, hx1) × [hy0, hy1) to `color`.
    fn paint(
        &mut self,
        x0: i128, y0: i128, x1: i128, y1: i128,
        hx0: i128, hy0: i128, hx1: i128, hy1: i128,
        color: u32,
    )
        requires
            old(self)@.wf(),
        ensures
            final(self)@.wf(),
            final(self)@.painted_from(old(self)@, x0 as int, y0 as int, x1 as int, y1 as int,
                hx0 as int, hy0 as int, hx1 as int, hy1 as int, color),
    {
        let ghost v0 = self@;
        let w = self.width as i128;
        let h = self.height as i128;
        let xl: i128 = if x0 < 0 { 0 } else if x0 > w { w } else { x0 };
        let xh: i128 = if x1 < xl { xl } else if x1 > w { w } else { x1 };
        let yl: i128 = if y0 < 0 { 0 } else if y0 > h { h } else { y0 };
        let yh: i128 = if y1 < yl { yl } else if y1 > h { h } else { y1 };
        let xs = xl as usize;
        let xe = xh as usize;
        let ys = yl as usize;
        let ye = yh as usize;
        let mut y: usize = ys;
        while y < ye
            invariant
                self@.wf(),
                self@.same_shape(v0),
                v0.wf(),
                xs as int == xl,
                xe as int == xh,
                ys as int == yl,
                ye as int == yh,
                0 <= xl <= xh <= w,
                0 <= yl <= yh <= h,
                w == v0.width,
                h == v0.height,
                xl == (if x0 < 0 { 0 } else if x0 > w { w } else { x0 }),
                xh == (if x1 < xl { xl } else if x1 > w { w } else { x1 }),
                yl == (if y0 < 0 { 0 } else if y0 > h { h } else { y0 }),
                yh == (if y1 < yl { yl } else if y1 > h { h } else { y1 }),
                ys <= y <= ye,
                forall|px: int, py: int| #![trigger self@.at(px, py)] v0.in_bounds(px, py) ==> self@.at(px, py) == (
                    if in_frame(px, py, x0 as int, y0 as int, x1 as int, y1 as int, hx0 as int, hy0 as int, hx1 as int, hy1 as int) && py < y { color } else { v0.at(px, py) }),
                forall|i: int| 0 <= i < v0.cells.len() && !v0.is_visible_cell(i)
                    ==> #[trigger] self@.cells[i] == v0.cells[i],
            decreases ye - y,
        {
            let mut x: usize = xs;
            while x < xe
                invariant
                    self@.wf(),
                    self@.same_shape(v0),
                    v0.wf(),
                    xs as int == xl,
                    xe as int == xh,
                    0 <= xl <= xh <= w,
                    w == v0.width,
                    h == v0.height,
                    xl == (if x0 < 0 { 0 } else if x0 > w { w } else { x0 }),
                    xh == (if x1 < xl { xl } else if x1 > w { w } else { x1 }),
                    ys <= y < ye,
                    ys as int == yl,
                    ye as int == yh,
                    0 <= yl <= yh <= h,
                    yl == (if y0 < 0 { 0 } else if y0 > h { h } else { y0 }),
                    yh == (if y1 < yl { yl } else if y1 > h { h } else { y1 }),
                    xs <= x <= xe,
                    forall|px: int, py: int| #![trigger self@.at(px, py)] v0.in_bounds(px, py) ==> self@.at(px, py) == (
                        if in_frame(px, py, x0 as int, y0 as int, x1 as int, y1 as int, hx0 as int, hy0 as int, hx1 as int, hy1 as int) && (py < y || (py == y && px < x)) { color } else { v0.at(px, py) }),
                    forall|i: int| 0 <= i < v0.cells.len() && !v0.is_visible_cell(i)
                        ==> #[trigger] self@.cells[i] == v0.cells[i],
                decreases xe - x,
            {
                let xi = x as i128;
                let yi = y as i128;
                let ghost before = self@;
                if !(hx0 <= xi && xi < hx1 && hy0 <= yi && yi < hy1) {
                    self.set_cell(x, y, color);
                }
                proof {
                    let ix = x as int;
                    let iy = y as int;
                    lemma_index_fits(v0, ix, iy);
                    assert(v0.is_visible_cell(v0.index(ix, iy)));
                    assert forall|px: int, py: int| #![trigger self@.at(px, py)] v0.in_bounds(px, py) implies self@.at(px, py) == (
                        if in_frame(px, py, x0 as int, y0 as int, x1 as int, y1 as int, hx0 as int, hy0 as int, hx1 as int, hy1 as int)
                            && (py < y || (py == y && px < x + 1)) { color } else { v0.at(px, py) }) by {
                        lemma_index_fits(v0, px, py);
                        if v0.index(px, py) == v0.index(ix, iy) {
                            lemma_index_injective(v0.stride as int, px, py, ix, iy);
                            assert(in_box(ix, iy, x0 as int, y0 as int, x1 as int, y1 as int));
                        } else {
                            assert(self@.at(px, py) == before.at(px, py));
                        }
                    }
                    assert forall|i: int| 0 <= i < v0.cells.len() && !v0.is_visible_cell(i)
                        implies #[trigger] self@.cells[i] == v0.cells[i] by {
                        assert(before.cells[i] == v0.cells[i]);
                    }
                }
                x += 1;
            }
            y += 1;
        }
    }

    /// Fills the visible part of `rect` with `color`.
    pub fn fill_rect(&mut self, rect: Rect, color: u32)
        requires
            old(self)@.wf(),
        ensures
            final(self)@.wf(),
            final(self)@.painted_from(old(self)@, rect.x as int, rect.y as int,
                rect.x + rect.width, rect.y + rect.height, 0, 0, 0, 0, color),
    {
        let x0 = rect.x as i128;
        let y0 = rect.y as i128;
        self.paint(x0, y0, x0 + rect.width as i128, y0 + rect.height as i128, 0, 0, 0, 0, color);
    }

    /// Draws the outline of `rect`, `thickness` pixels wide and lying inside
    /// the rectangle.
    pub fn stroke_rect(&mut self, rect: Rect, color: u32, thickness: u32)
        requires
            old(self)@.wf(),
        ensures
            final(self)@.wf(),
            final(self)@.painted_from(old(self)@, rect.x as int, rect.y as int,
                rect.x + rect.width, rect.y + rect.height,
                rect.x + thickness, rect.y + thickness,
                rect.x + rect.width - thickness, rect.y + rect.height - thickness, color),
    {
        let x0 = rect.x as i128;
        let y0 = rect.y as i128;
        let x1 = x0 + rect.width as i128;
        let y1 = y0 + rect.height as i128;
        let t = thickness as i128;
        self.paint(x0, y0, x1, y1, x0 + t, y0 + t, x1 - t, y1 - t, color);
    }

    /// Sets every visible pixel to `color`.
    pub fn clear(&mut self, color: u32)
        requires
            old(self)@.wf(),
        ensures
            final(self)@.wf(),
            final(self)@.painted_from(old(self)@, 0, 0, old(self)@.width as int, old(self)@.height as int,
                0, 0, 0, 0, color),
    {
        let w = self.width as i128;
        let h = self.height as i128;
        self.paint(0, 0, w, h, 0, 0, 0, 0, color);
    }

    /// Composites `pixels` in order at offset (dx, dy), leaving out every pixel
    /// whose colour equals `mask`; pixels that land outside the surface are
    /// dropped.
    pub fn draw_masked(&mut self, pixels: &Vec<SourcePixel>, mask: u32, dx: i32, dy: i32)
        requires
            old(self)@.wf(),
        ensures
            final(self)@ == blitted(old(self)@, pixels@, mask, dx as int, dy as int),
            final(self)@.wf(),
    {
        let ghost v0 = self@;
        let mut i: usize = 0;
        while i < pixels.len()
            invariant
                i <= pixels@.len(),
                v0.wf(),
                self@.wf(),
                self@ == blitted(v0, pixels@.subrange(0, i as int), mask, dx as int, dy as int),
            decreases pixels@.len() - i,
        {
            let p = pixels[i];
            proof {
                assert(pixels@.subrange(0, i as int + 1).drop_last() =~= pixels@.subrange(0, i as int));
            }
            if p.color != mask {
                self.write(p.x as i64 + dx as i64, p.y as i64 + dy as i64, p.color);
            }
            i += 1;
        }
        proof {
            assert(pixels@.subrange(0, pixels@.len() as int) =~= pixels@);
        }
    }
}

} // verus!
