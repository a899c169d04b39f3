//! From pixels to a PNG image.
use vstd::prelude::*;
use vstd::string::*;

use crate::render::document::{RenderError, Viewport};

verus! {

/// The bytes that every PNG image begins with.
pub open spec fn signature() -> Seq<u8> {
    seq![0x89u8, 0x50u8, 0x4eu8, 0x47u8, 0x0du8, 0x0au8, 0x1au8, 0x0au8]
}

/// A number in four bytes, the highest first.
pub open spec fn big_endian(n: u32) -> Seq<u8> {
    seq![
        (n as int / 0x100_0000) as u8,
        (n as int / 0x1_0000 % 256) as u8,
        (n as int / 256 % 256) as u8,
        (n as int % 256) as u8,
    ]
}

/// The bytes are those of a PNG image of this size: they begin with the
/// signature, and its header names the width and height.
pub open spec fn png_of_size(b: Seq<u8>, width: u32, height: u32) -> bool {
    &&& b.len() >= 33
    &&& b.take(8) == signature()
    &&& b.subrange(16, 20) == big_endian(width)
    &&& b.subrange(20, 24) == big_endian(height)
}

/// What the `png` crate makes of the pixels of an image: its bytes, or a
/// message of why it cannot.
pub uninterp spec fn png_encoding(rgba: Seq<u8>, width: u32, height: u32) -> Result<
    Seq<u8>,
    Seq<char>,
>;

/// What the outcome of encoding says.
pub open spec fn encoding_view(r: Result<Vec<u8>, String>) -> Result<Seq<u8>, Seq<char>> {
    match r {
        Ok(b) => Ok(b@),
        Err(m) => Err(m@),
    }
}

/// `Encoder::new`, `set_color` and `set_depth` for eight bits each of red,
/// green, blue and alpha, `write_header`, and `Writer::write_image_data` and
/// `finish`, all of the `png` crate. Encoding succeeds exactly if the image is
/// not empty and there are four bytes for each of its pixels; its bytes are
/// then those of a PNG image of this size, and the pixels and the size alone decide them.
#[verifier::external_body]
fn write_png(rgba: &[u8], width: u32, height: u32) -> (r: Result<Vec<u8>, String>)
    requires
        (4 * width + 1) * height <= usize::MAX,
    ensures
        encoding_view(r) == png_encoding(rgba@, width, height),
        (r is Ok) == (width != 0 && height != 0 && rgba@.len() == 4 * width * height),
        r matches Ok(b) ==> png_of_size(b@, width, height),
{
    let mut out = Vec::new();
    let mut encoder = png::Encoder::new(&mut out, width, height);
    encoder.set_color(png::ColorType::Rgba);
    encoder.set_depth(png::BitDepth::Eight);
    let mut writer = encoder.write_header().map_err(|e| e.to_string())?;
    writer.write_image_data(rgba).map_err(|e| e.to_string())?;
    writer.finish().map_err(|e| e.to_string())?;
    Ok(out)
}

/// Encodes pixels, four bytes each, as a PNG image. It succeeds exactly if the
/// image is not empty and there are as many pixels as its size says.
pub fn encode_png(rgba: &[u8], width: u32, height: u32) -> (r: Result<Vec<u8>, RenderError>)
    requires
        (4 * width + 1) * height <= usize::MAX,
    ensures
        match r {
            Ok(b) => png_encoding(rgba@, width, height) == Ok::<Seq<u8>, Seq<char>>(b@)
                && png_of_size(b@, width, height),
            Err(e) => e matches RenderError::Encode(m) && png_encoding(rgba@, width, height)
                == Err::<Seq<u8>, Seq<char>>(m@),
        },
        (r is Ok) == (width != 0 && height != 0 && rgba@.len() == 4 * width * height),
{
    match write_png(rgba, width, height) {
        Ok(b) => Ok(b),
        Err(m) => Err(RenderError::Encode(m)),
    }
}

/// A length in pixels, one at least.
pub open spec fn painted(n: u32) -> u32 {
    if n == 0 {
        1
    } else {
        n
    }
}

/// The size at which a viewport is painted: one pixel at least each way.
pub fn painted_size(viewport: Viewport) -> (r: (u32, u32))
    ensures
        r == (painted(viewport.width), painted(viewport.height)),
        r.0 == if viewport.width == 0 {
            1
        } else {
            viewport.width
        },
        r.1 == if viewport.height == 0 {
            1
        } else {
            viewport.height
        },
{
    let width: u32 = if viewport.width == 0 {
        1
    } else {
        viewport.width
    };
    let height: u32 = if viewport.height == 0 {
        1
    } else {
        viewport.height
    };
    (width, height)
}

/// The image of a viewport from its painted pixels: an image as large as the
/// viewport is painted, where there are as many pixels as that takes.
pub fn capture_png(pixels: &[u8], viewport: Viewport) -> (r: Result<Vec<u8>, RenderError>)
    requires
        (4 * viewport.width + 5) * (viewport.height + 1) <= usize::MAX,
    ensures
        ({
            let w: u32 = if viewport.width == 0 {
                1
            } else {
                viewport.width
            };
            let h: u32 = if viewport.height == 0 {
                1
            } else {
                viewport.height
            };
            match r {
                Ok(b) => pixels@.len() == 4 * w * h && png_of_size(b@, w, h) && png_encoding(
                    pixels@,
                    w,
                    h,
                ) == Ok::<Seq<u8>, Seq<char>>(b@),
                Err(e) => pixels@.len() != 4 * w * h && e is Encode,
            }
        }),
{
    let (width, height): (u32, u32) = painted_size(viewport);
    assert((4 * width + 1) * height <= (4 * viewport.width + 5) * (viewport.height + 1))
        by (nonlinear_arith)
        requires
            width <= viewport.width + 1,
            height <= viewport.height + 1,
            width >= 0,
            height >= 0,
    ;
    encode_png(pixels, width, height)
}

/// A viewport is painted as large as it is, never less than a pixel each way.
pub proof fn lemma_painted(n: u32)
    ensures
        painted(n) >= 1,
        n >= 1 ==> painted(n) == n,
        painted(n) <= n + 1,
{
}

/// A PNG image tells its size: images of sizes that differ are not the same.
pub proof fn lemma_png_size(b: Seq<u8>, width: u32, height: u32, w: u32, h: u32)
    requires
        png_of_size(b, width, height),
        png_of_size(b, w, h),
    ensures
        width == w && height == h,
        b[1] as char == 'P' && b[2] as char == 'N' && b[3] as char == 'G',
{
    lemma_big_endian(width);
    lemma_big_endian(height);
    lemma_big_endian(w);
    lemma_big_endian(h);
    assert(b.take(8)[1] == b[1] && b.take(8)[2] == b[2] && b.take(8)[3] == b[3]);
}

/// The four bytes of a number give the number, the first counting most.
pub proof fn lemma_big_endian(n: u32)
    ensures
        big_endian(n).len() == 4,
        big_endian(n)[0] * 0x100_0000 + big_endian(n)[1] * 0x1_0000 + big_endian(n)[2] * 256
            + big_endian(n)[3] == n,
{
}

} // verus!
