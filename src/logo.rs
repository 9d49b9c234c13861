use crate::color::Color;
use crate::surface::{blitted, FrameBuffer, SourcePixel, SurfaceView};
use embedded_graphics::pixelcolor::Rgb888;
use embedded_graphics::prelude::{IntoStorage, OriginDimensions};
use tinybmp::Bmp;
use vstd::prelude::*;

verus! {

/// A decoded image: its size and its pixels, each with its position and packed colour.
pub struct DecodedImage {
    pub width: u32,
    pub height: u32,
    pub pixels: Vec<SourcePixel>,
}

/// The image that a BMP file decodes to: width, height and pixels in the
/// decoder's order; `None` for bytes the decoder refuses.
pub uninterp spec fn bmp_image(bytes: Seq<u8>) -> Option<(u32, u32, Seq<SourcePixel>)>;

/// Relies on tinybmp's `Bmp::<Rgb888>::from_slice`, `size` and `pixels`: the
/// decoded image depends on the bytes alone.
#[verifier::external_body]
fn decode_bmp(bytes: &[u8]) -> (r: Option<DecodedImage>)
    ensures
        match r {
            Some(img) => bmp_image(bytes@) == Some((img.width, img.height, img.pixels@)),
            None => bmp_image(bytes@) is None,
        },
{
    let bmp = Bmp::<Rgb888>::from_slice(bytes).ok()?;
    let size = bmp.size();
    let pixels = bmp.pixels().map(|p| SourcePixel { x: p.0.x, y: p.0.y, color: p.1.into_storage() }).collect();
    Some(DecodedImage { width: size.width, height: size.height, pixels })
}

/// The offset along one axis that centres an image side on a surface side:
/// half their difference, rounded down.
pub open spec fn centred(surface: int, image: int) -> int {
    (surface - image) / 2
}

pub fn centre_offset(surface: usize, image: u32) -> (r: i32)
    requires
        surface <= i32::MAX,
    ensures
        r == centred(surface as int, image as int),
{
    let d = surface as i64 - image as i64;
    if d >= 0 {
        (d / 2) as i32
    } else {
        proof {
            assert((-d + 1) / 2 == -(d / 2)) by (nonlinear_arith) requires d < 0;
        }
        (-((-d + 1) / 2)) as i32
    }
}

/// Composites `img` in the middle of the surface, black being transparent.
pub fn draw_logo(fb: &mut FrameBuffer, img: &DecodedImage)
    requires
        old(fb)@.wf(),
    ensures
        final(fb)@.wf(),
        final(fb)@ == blitted(old(fb)@, img.pixels@, logo_mask(),
            centred(old(fb)@.width as int, img.width as int), centred(old(fb)@.height as int, img.height as int)),
{
    let dx = centre_offset(fb.width(), img.width);
    let dy = centre_offset(fb.height(), img.height);
    let black = Color::black().pack();
    fb.draw_masked(&img.pixels, black, dx, dy);
}

/// Why the logo could not be drawn.
#[derive(Clone, Copy, PartialEq, Eq, Structural, Debug)]
pub enum LogoError {
    /// The image bytes are not a bitmap the decoder supports.
    Undecodable,
}

/// The colour that stands for transparency in a logo.
pub open spec fn logo_mask() -> u32 {
    0
}

/// The surface cleared to `background` everywhere it is visible.
pub open spec fn is_cleared(c: SurfaceView, old: SurfaceView, background: u32) -> bool {
    c.painted_from(old, 0, 0, old.width as int, old.height as int, 0, 0, 0, 0, background)
}

/// Clears the surface to `background`, then decodes `logo` and composites it
/// in the middle of the surface with black treated as transparent. An image
/// that does not decode leaves the surface cleared and is reported.
pub fn paint_splash(fb: &mut FrameBuffer, background: Color, logo: &[u8]) -> (r: Result<(), LogoError>)
    requires
        old(fb)@.wf(),
    ensures
        final(fb)@.wf(),
        match bmp_image(logo@) {
            Some((w, h, px)) => r is Ok && exists|c: SurfaceView| is_cleared(c, old(fb)@, crate::color::packed(background))
                && final(fb)@ == blitted(c, px, logo_mask(),
                    centred(old(fb)@.width as int, w as int), centred(old(fb)@.height as int, h as int)),
            None => r == Err::<(), LogoError>(LogoError::Undecodable)
                && is_cleared(final(fb)@, old(fb)@, crate::color::packed(background)),
        },
{
    let ghost v0 = fb@;
    fb.clear(background.pack());
    let ghost c = fb@;
    let img = match decode_bmp(logo) {
        Some(img) => img,
        None => return Err(LogoError::Undecodable),
    };
    draw_logo(fb, &img);
    assert(is_cleared(c, v0, crate::color::packed(background)));
    Ok(())
}

} // verus!
