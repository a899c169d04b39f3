//! A document that can be captured: its viewport and the size of its content.
use vstd::prelude::*;
use vstd::string::*;

use crate::render::single;
use crate::text;

verus! {

/// Why a document could not be captured.
#[derive(Debug, PartialEq, Eq)]
pub enum RenderError {
    /// The layout or paint engine reported an error.
    Render(String),
    /// PNG encoding failed.
    Encode(String),
}

impl RenderError {
    /// The error as a message.
    pub fn message(&self) -> (r: String)
        ensures
            r@ == match self {
                RenderError::Render(m) => "render error: "@ + m@,
                RenderError::Encode(m) => "png encode error: "@ + m@,
            },
    {
        match self {
            RenderError::Render(m) => text::concat("render error: ", m.as_str()),
            RenderError::Encode(m) => text::concat("png encode error: ", m.as_str()),
        }
    }
}

/// Logical viewport for document layout.
#[derive(Debug, Clone, Copy, PartialEq, Eq, Structural)]
pub struct Viewport {
    /// CSS pixel width.
    pub width: u32,
    /// CSS pixel height.
    pub height: u32,
    /// Device pixel ratio, by the bits of a double precision number.
    pub scale: u64,
}

impl Default for Viewport {
    fn default() -> (r: Self)
        ensures
            r == (Viewport { width: 1280, height: 720, scale: 0x3ff0_0000_0000_0000 }),
    {
        Viewport { width: 1280, height: 720, scale: 0x3ff0_0000_0000_0000 }
    }
}

/// How a document is captured.
#[derive(Debug, Clone, Copy, PartialEq, Eq, Structural)]
pub struct CaptureOpts {
    /// The viewport to use in place of the document's own.
    pub viewport: Option<Viewport>,
    /// Whether the whole height of the document is captured, whatever the
    /// viewport's height. The viewport's width is kept.
    pub full_page: bool,
}

impl Default for CaptureOpts {
    fn default() -> (r: Self)
        ensures
            r == (CaptureOpts { viewport: None, full_page: false }),
    {
        CaptureOpts { viewport: None, full_page: false }
    }
}

/// An extent of the content: the measured one rounded up, where it is a
/// positive finite number, else that of the viewport.
pub open spec fn extent(measured: u32, viewport: u32) -> u32 {
    if single::positive_finite(measured) {
        (if single::ceiling(measured) > u32::MAX {
            u32::MAX as int
        } else {
            single::ceiling(measured)
        }) as u32
    } else {
        viewport
    }
}

/// An extent of the content, measured as a single precision number by its bits.
pub fn content_extent(measured: u32, viewport: u32) -> (r: u32)
    ensures
        r == extent(measured, viewport),
{
    if single::is_positive_finite(measured) {
        single::ceil_u32(measured)
    } else {
        viewport
    }
}

/// The size of the content in CSS pixels, where the layout measured its root
/// element to be this wide and high, by the bits of single precision numbers.
pub fn content_size(width: u32, height: u32, viewport: Viewport) -> (r: (u32, u32))
    ensures
        r == (extent(width, viewport.width), extent(height, viewport.height)),
{
    (content_extent(width, viewport.width), content_extent(height, viewport.height))
}

/// The viewport of a capture: the one asked for, or the document's own; as
/// high as the content where the whole page is captured.
pub open spec fn captured(opts: CaptureOpts, own: Viewport, content_height: u32) -> Viewport {
    let v = match opts.viewport {
        Some(v) => v,
        None => own,
    };
    if opts.full_page {
        Viewport { height: content_height, ..v }
    } else {
        v
    }
}

/// The viewport of a capture.
pub fn capture_viewport(opts: &CaptureOpts, own: Viewport, content_height: u32) -> (r: Viewport)
    ensures
        r == captured(*opts, own, content_height),
{
    let v: Viewport = match opts.viewport {
        Some(v) => v,
        None => own,
    };
    if opts.full_page {
        Viewport { height: content_height, ..v }
    } else {
        v
    }
}

/// A capture has the width and scale of the viewport that was asked for, or of
/// the document's own where none was, and its height too unless the whole page
/// is captured: then it is as high as the content.
pub proof fn lemma_captured(opts: CaptureOpts, own: Viewport, content_height: u32)
    ensures
        ({
            let v = captured(opts, own, content_height);
            let base = if opts.viewport is Some {
                opts.viewport->0
            } else {
                own
            };
            &&& v.width == base.width
            &&& v.scale == base.scale
            &&& opts.full_page ==> v.height == content_height
            &&& !opts.full_page ==> v.height == base.height
        }),
{
}

/// An extent that was measured holds all of the content and less than a pixel
/// more; one that could not be measured is the viewport's.
pub proof fn lemma_extent(measured: u32, viewport: u32)
    ensures
        measured == 0 || measured >= 0x7f80_0000 ==> extent(measured, viewport) == viewport,
        0 < measured < 0x7f80_0000 && single::ceiling(measured) <= u32::MAX && single::ceiling(
            measured,
        ) >= 0 ==> extent(measured, viewport) == single::ceiling(measured),
        0 < measured < 0x7f80_0000 && single::ceiling(measured) > u32::MAX ==> extent(
            measured,
            viewport,
        ) == u32::MAX,
{
}

} // verus!
