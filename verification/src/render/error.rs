//! Errors of the rendering engine.
use vstd::prelude::*;
use vstd::string::*;

use crate::text;

verus! {

/// An error of input or output of std, which a rendering error can carry.
#[verifier::external_type_specification]
#[verifier::external_body]
pub struct ExIoError(std::io::Error);

/// The result of a rendering operation.
pub type RenderResult<T> = Result<T, RenderError>;

/// Why HTML could not be rendered.
#[derive(Debug)]
pub enum RenderError {
    /// The requested output format is not enabled.
    FormatNotEnabled(&'static str),
    /// Invalid configuration.
    InvalidConfig(String),
    /// PNG rendering failed.
    PngRender(String),
    /// PNG encoding failed.
    PngEncode(String),
    /// PDF creation failed.
    PdfCreate(String),
    /// PDF rendering failed.
    PdfRender(String),
    /// Font loading or rendering failed.
    Font(String),
    /// I/O error.
    Io(std::io::Error),
}

impl From<std::io::Error> for RenderError {
    fn from(e: std::io::Error) -> (r: Self) {
        RenderError::Io(e)
    }
}

impl vstd::std_specs::convert::FromSpecImpl<std::io::Error> for RenderError {
    open spec fn obeys_from_spec() -> bool {
        true
    }

    open spec fn from_spec(e: std::io::Error) -> RenderError {
        RenderError::Io(e)
    }
}

/// The `Display` of `std::io::Error`. What it prints is the system's business,
/// so nothing is stated of it.
#[verifier::external_body]
fn io_text(e: &std::io::Error) -> (r: String) {
    format!("{}", e)
}

/// What an error reads like; of an error of input or output only how it begins.
pub open spec fn reads(e: RenderError, m: Seq<char>) -> bool {
    match e {
        RenderError::FormatNotEnabled(f) => m == "output format '"@ + f@
            + "' is not enabled; enable the '"@ + f@ + "' feature flag"@,
        RenderError::InvalidConfig(t) => m == "invalid config: "@ + t@,
        RenderError::PngRender(t) => m == "PNG rendering failed: "@ + t@,
        RenderError::PngEncode(t) => m == "PNG encoding failed: "@ + t@,
        RenderError::PdfCreate(t) => m == "PDF creation failed: "@ + t@,
        RenderError::PdfRender(t) => m == "PDF rendering failed: "@ + t@,
        RenderError::Font(t) => m == "font error: "@ + t@,
        RenderError::Io(_) => exists|t: Seq<char>| m == #[trigger] ("I/O error: "@ + t),
    }
}

impl RenderError {
    /// The error as a message.
    pub fn message(&self) -> (r: String)
        ensures
            reads(*self, r@),
    {
        match self {
            RenderError::FormatNotEnabled(f) => {
                let mut r: String = text::concat3(
                    "output format '",
                    f,
                    "' is not enabled; enable the '",
                );
                r.append(f);
                r.append("' feature flag");
                r
            },
            RenderError::InvalidConfig(t) => text::concat("invalid config: ", t.as_str()),
            RenderError::PngRender(t) => text::concat("PNG rendering failed: ", t.as_str()),
            RenderError::PngEncode(t) => text::concat("PNG encoding failed: ", t.as_str()),
            RenderError::PdfCreate(t) => text::concat("PDF creation failed: ", t.as_str()),
            RenderError::PdfRender(t) => text::concat("PDF rendering failed: ", t.as_str()),
            RenderError::Font(t) => text::concat("font error: ", t.as_str()),
            RenderError::Io(e) => {
                let t: String = io_text(e);
                text::concat("I/O error: ", t.as_str())
            },
        }
    }
}

/// The message of an error tells what the error holds.
pub proof fn lemma_message_tells(e: RenderError, m: Seq<char>)
    requires
        reads(e, m),
    ensures
        match e {
            RenderError::FormatNotEnabled(f) => text::contains_text(m, f@),
            RenderError::InvalidConfig(t) => text::finishes_with(m, t@),
            RenderError::PngRender(t) => text::finishes_with(m, t@),
            RenderError::PngEncode(t) => text::finishes_with(m, t@),
            RenderError::PdfCreate(t) => text::finishes_with(m, t@),
            RenderError::PdfRender(t) => text::finishes_with(m, t@),
            RenderError::Font(t) => text::finishes_with(m, t@),
            RenderError::Io(_) => true,
        },
{
    match e {
        RenderError::FormatNotEnabled(f) => {
            let n = "output format '"@.len() as int;
            assert(m.subrange(n, n + f@.len()) =~= f@);
            assert(text::occurs_at(m, f@, n));
        },
        RenderError::InvalidConfig(t) => {
            assert(m.subrange(m.len() - t@.len(), m.len() as int) =~= t@);
        },
        RenderError::PngRender(t) => {
            assert(m.subrange(m.len() - t@.len(), m.len() as int) =~= t@);
        },
        RenderError::PngEncode(t) => {
            assert(m.subrange(m.len() - t@.len(), m.len() as int) =~= t@);
        },
        RenderError::PdfCreate(t) => {
            assert(m.subrange(m.len() - t@.len(), m.len() as int) =~= t@);
        },
        RenderError::PdfRender(t) => {
            assert(m.subrange(m.len() - t@.len(), m.len() as int) =~= t@);
        },
        RenderError::Font(t) => {
            assert(m.subrange(m.len() - t@.len(), m.len() as int) =~= t@);
        },
        RenderError::Io(_) => {},
    }
}

} // verus!
