//! Configuration of the rendering engine.
use vstd::prelude::*;
use vstd::string::*;

use crate::render::error::{RenderError, RenderResult};
use crate::render::single;

verus! {

/// Output format for rendered content.
#[derive(Debug, Clone, Copy, PartialEq, Eq, Structural)]
pub enum OutputFormat {
    /// PNG raster image.
    Png,
    /// PDF vector document.
    Pdf,
}

impl Default for OutputFormat {
    fn default() -> (r: Self)
        ensures
            r == OutputFormat::Png,
    {
        OutputFormat::Png
    }
}

impl OutputFormat {
    /// The format's name.
    pub fn name(&self) -> (r: &'static str)
        ensures
            r@ == match self {
                OutputFormat::Png => "png"@,
                OutputFormat::Pdf => "pdf"@,
            },
    {
        match self {
            OutputFormat::Png => "png",
            OutputFormat::Pdf => "pdf",
        }
    }
}

/// Color scheme preference for rendering.
#[derive(Debug, Clone, Copy, PartialEq, Eq, Structural)]
pub enum ColorScheme {
    /// Light color scheme.
    Light,
    /// Dark color scheme.
    Dark,
}

impl Default for ColorScheme {
    fn default() -> (r: Self)
        ensures
            r == ColorScheme::Light,
    {
        ColorScheme::Light
    }
}

/// The smallest width and height that is rendered.
pub const MIN_DIMENSION: u32 = 16;

/// Rendering configuration.
#[derive(Debug, Clone, Copy)]
pub struct RenderConfig {
    /// Viewport width in pixels.
    pub width: u32,
    /// Viewport height in pixels.
    pub height: u32,
    /// Device pixel ratio, by the bits of a single precision number.
    pub scale: u32,
    /// Output format (PNG or PDF).
    pub format: OutputFormat,
    /// Color scheme preference.
    pub color_scheme: ColorScheme,
    /// Automatically adjust height to fit content.
    pub auto_height: bool,
    /// Background color as RGBA (default: white).
    pub background: [u8; 4],
}

impl Default for RenderConfig {
    fn default() -> (r: Self)
        ensures
            r.width == 1280,
            r.height == 720,
            r.scale == single::ONE,
            r.format == OutputFormat::Png,
            r.color_scheme == ColorScheme::Light,
            !r.auto_height,
            r.background@ == seq![255u8, 255u8, 255u8, 255u8],
    {
        let r: RenderConfig = RenderConfig {
            width: 1280,
            height: 720,
            scale: single::ONE,
            format: OutputFormat::Png,
            color_scheme: ColorScheme::Light,
            auto_height: false,
            background: [255, 255, 255, 255],
        };
        assert(r.background@ =~= seq![255u8, 255u8, 255u8, 255u8]);
        r
    }
}

/// A configuration that can be rendered: wide and high enough, and with a
/// scale that is a positive finite number.
pub open spec fn valid(c: RenderConfig) -> bool {
    &&& c.width >= MIN_DIMENSION
    &&& c.height >= MIN_DIMENSION
    &&& single::positive_finite(c.scale)
}

/// What is wrong with a configuration, if anything: the width is looked at
/// first, then the height, then the scale.
pub open spec fn complaint(c: RenderConfig) -> Option<Seq<char>> {
    if c.width < MIN_DIMENSION {
        Some("width must be at least 16 pixels"@)
    } else if c.height < MIN_DIMENSION {
        Some("height must be at least 16 pixels"@)
    } else if !single::positive_finite(c.scale) {
        Some("scale must be a positive finite number"@)
    } else {
        None
    }
}

/// The height of a page, by the bits of a single precision number: that of the
/// content where it is wanted and known, else the page's own.
pub open spec fn height_of(auto: bool, content: Option<u32>, own: u32) -> u32 {
    match content {
        Some(h) => if auto {
            h
        } else {
            own
        },
        None => own,
    }
}

/// A page is as high as its content exactly if that is wanted and known; else it
/// is as high as it was made.
pub proof fn lemma_height(content: u32, own: u32)
    ensures
        height_of(true, Some(content), own) == content,
        height_of(false, Some(content), own) == own,
        height_of(true, None, own) == own,
        height_of(false, None, own) == own,
{
}

impl RenderConfig {
    /// The default configuration.
    pub fn new() -> (r: RenderConfig)
        ensures
            r.width == 1280,
            r.height == 720,
            r.scale == single::ONE,
            r.format == OutputFormat::Png,
            r.color_scheme == ColorScheme::Light,
            !r.auto_height,
            r.background@ == seq![255u8, 255u8, 255u8, 255u8],
    {
        RenderConfig::default()
    }

    /// Sets the viewport's width.
    pub fn width(self, width: u32) -> (r: RenderConfig)
        ensures
            r == (RenderConfig { width, ..self }),
    {
        RenderConfig { width, ..self }
    }

    /// Sets the viewport's height.
    pub fn height(self, height: u32) -> (r: RenderConfig)
        ensures
            r == (RenderConfig { height, ..self }),
    {
        RenderConfig { height, ..self }
    }

    /// Sets the viewport's width and height.
    pub fn size(self, width: u32, height: u32) -> (r: RenderConfig)
        ensures
            r == (RenderConfig { width, height, ..self }),
    {
        RenderConfig { width, height, ..self }
    }

    /// Sets the scale, by the bits of a single precision number.
    pub fn scale(self, scale: u32) -> (r: RenderConfig)
        ensures
            r == (RenderConfig { scale, ..self }),
    {
        RenderConfig { scale, ..self }
    }

    /// Sets the output format.
    pub fn format(self, format: OutputFormat) -> (r: RenderConfig)
        ensures
            r == (RenderConfig { format, ..self }),
    {
        RenderConfig { format, ..self }
    }

    /// Sets the color scheme.
    pub fn color_scheme(self, scheme: ColorScheme) -> (r: RenderConfig)
        ensures
            r == (RenderConfig { color_scheme: scheme, ..self }),
    {
        RenderConfig { color_scheme: scheme, ..self }
    }

    /// Has the height taken from the content or not.
    pub fn auto_height(self, auto: bool) -> (r: RenderConfig)
        ensures
            r == (RenderConfig { auto_height: auto, ..self }),
    {
        RenderConfig { auto_height: auto, ..self }
    }

    /// Sets the background color as RGBA.
    pub fn background(self, rgba: [u8; 4]) -> (r: RenderConfig)
        ensures
            r == (RenderConfig { background: rgba, ..self }),
    {
        RenderConfig { background: rgba, ..self }
    }

    /// Whether the configuration can be rendered, or what is wrong with it.
    pub fn validate(&self) -> (r: RenderResult<()>)
        ensures
            match complaint(*self) {
                None => r is Ok && valid(*self),
                Some(m) => !valid(*self) && (r matches Err(RenderError::InvalidConfig(t)) && t@
                    == m),
            },
    {
        if self.width < MIN_DIMENSION {
            return Err(RenderError::InvalidConfig("width must be at least 16 pixels".to_owned()));
        }
        if self.height < MIN_DIMENSION {
            return Err(RenderError::InvalidConfig("height must be at least 16 pixels".to_owned()));
        }
        if !single::is_positive_finite(self.scale) {
            return Err(
                RenderError::InvalidConfig("scale must be a positive finite number".to_owned()),
            );
        }
        Ok(())
    }

    /// The format to render in, or what is wrong with the configuration.
    pub fn checked_format(&self) -> (r: RenderResult<OutputFormat>)
        ensures
            match complaint(*self) {
                None => r == Ok::<OutputFormat, RenderError>(self.format),
                Some(m) => r matches Err(RenderError::InvalidConfig(t)) && t@ == m,
            },
    {
        match self.validate() {
            Ok(()) => Ok(self.format),
            Err(e) => Err(e),
        }
    }

    /// The height of a page, by the bits of a single precision number: that of
    /// the content where the configuration asks for it and it is known, else
    /// the configured one, whose bits are `own`.
    pub fn page_height(&self, content: Option<u32>, own: u32) -> (r: u32)
        ensures
            r == if self.auto_height && content is Some {
                content->0
            } else {
                own
            },
            r == height_of(self.auto_height, content, own),
    {
        match content {
            Some(h) => if self.auto_height {
                h
            } else {
                own
            },
            None => own,
        }
    }
}

/// A configuration is complained of exactly if it cannot be rendered: less than
/// 16 pixels wide or high, or with a scale that is zero, negative, infinite or a
/// NaN. The complaint says what is wrong.
pub proof fn lemma_complaint(c: RenderConfig)
    ensures
        complaint(c) is None <==> c.width >= 16 && c.height >= 16 && 0 < c.scale < 0x7f80_0000,
        valid(c) <==> complaint(c) is None,
        complaint(c) matches Some(m) ==> {
            &&& c.width < 16 <==> m[0] == 'w'
            &&& c.width >= 16 && c.height < 16 <==> m[0] == 'h'
            &&& c.width >= 16 && c.height >= 16 <==> m[0] == 's'
        },
{
    reveal_strlit("width must be at least 16 pixels");
    reveal_strlit("height must be at least 16 pixels");
    reveal_strlit("scale must be a positive finite number");
}

} // verus!
