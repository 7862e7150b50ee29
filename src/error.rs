//! The library's error type.
use vstd::prelude::*;

verus! {

/// Why a detection call's result cannot be used.
#[derive(Clone, Copy, Debug, PartialEq, Eq, Structural)]
pub enum DetectionFailure {
    /// The detector returned this nonzero status.
    Status(i32),
    /// The detector reported this negative primitive count.
    NegativeCount(i32),
    /// The detector reported primitives but handed back no array for them.
    MissingOutput,
    /// `width * height` cells do not fit in memory.
    ImageTooLarge,
}

#[derive(Clone, Debug, PartialEq, Eq)]
pub enum ElsdcError {
    /// A file could not be read or written.
    IoError(String),
    /// The imaging backend reported a failure.
    OpenCVError(String),
    /// An input image could not be decoded; the detector is never called.
    ImageReadError(String),
    /// The detector failed, or what it returned breaks its own contract.
    DetectionError(DetectionFailure),
    /// A raster surface is not of the kind the drawing backend needs.
    ImageConversionError(String),
    /// One primitive could not be drawn.
    RenderError(String),
}

} // verus!
