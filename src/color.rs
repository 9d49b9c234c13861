use embedded_graphics::pixelcolor::Rgb888;
use embedded_graphics::prelude::IntoStorage;
use vstd::prelude::*;

verus! {

/// An RGB colour with eight bits per channel.
#[derive(Clone, Copy, PartialEq, Eq, Structural, Debug)]
pub struct Color {
    pub r: u8,
    pub g: u8,
    pub b: u8,
}

/// The packed 0x00RRGGBB form in which a colour is stored in the framebuffer.
pub open spec fn packed(c: Color) -> u32 {
    (c.r as int * 65536 + c.g as int * 256 + c.b as int) as u32
}

/// Relies on `Rgb888::new` and `IntoStorage::into_storage` of embedded-graphics:
/// red in bits 16..24, green in bits 8..16, blue in bits 0..8.
#[verifier::external_body]
fn rgb888_storage(c: Color) -> (r: u32)
    ensures
        r as int == c.r as int * 65536 + c.g as int * 256 + c.b as int,
{
    Rgb888::new(c.r, c.g, c.b).into_storage()
}

impl Color {
    pub fn new(r: u8, g: u8, b: u8) -> (c: Color)
        ensures
            c == (Color { r, g, b }),
    {
        Color { r, g, b }
    }

    /// The framebuffer storage value of this colour.
    pub fn pack(self) -> (p: u32)
        ensures
            p == packed(self),
    {
        rgb888_storage(self)
    }

    pub fn black() -> (c: Color)
        ensures
            c == (Color { r: 0, g: 0, b: 0 }),
    {
        Color { r: 0, g: 0, b: 0 }
    }
}

impl Default for Color {
    fn default() -> (c: Color)
        ensures
            c == (Color { r: 0, g: 0, b: 0 }),
    {
        Color { r: 0, g: 0, b: 0 }
    }
}

/// A display resolution in pixels.
#[derive(Clone, Copy, PartialEq, Eq, Structural, Debug)]
pub struct Resolution {
    pub width: usize,
    pub height: usize,
}

impl Default for Resolution {
    fn default() -> (r: Resolution)
        ensures
            r == (Resolution { width: 0, height: 0 }),
    {
        Resolution { width: 0, height: 0 }
    }
}

impl From<(usize, usize)> for Resolution {
    fn from(res: (usize, usize)) -> (r: Resolution)
        ensures
            r == (Resolution { width: res.0, height: res.1 }),
    {
        Resolution { width: res.0, height: res.1 }
    }
}

impl vstd::std_specs::convert::FromSpecImpl<(usize, usize)> for Resolution {
    open spec fn obeys_from_spec() -> bool {
        true
    }

    open spec fn from_spec(res: (usize, usize)) -> Resolution {
        Resolution { width: res.0, height: res.1 }
    }
}

impl Resolution {
    /// Width and height as a pair.
    pub fn as_pair(self) -> (p: (usize, usize))
        ensures
            p == (self.width, self.height),
    {
        (self.width, self.height)
    }
}

} // verus!
