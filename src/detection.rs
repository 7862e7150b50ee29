//! Bookkeeping for one call of the native detector. The detector fills a
//! label map that the caller allocates, and allocates two arrays of its
//! own (the primitives and their labels, of one length) that must go back
//! through its matching release routine, once, with the length it reported.
use vstd::prelude::*;
use crate::error::{DetectionFailure, ElsdcError};

verus! {

/// What one detection call reported.
#[derive(Clone, Copy, Debug, PartialEq, Eq, Structural)]
pub struct DetectionReport {
    /// The status code; 0 is success.
    pub status: i32,
    /// The number of primitives.
    pub count: i32,
    /// Whether the primitive array pointer is non-null.
    pub primitives_present: bool,
}

/// The number of cells of the label map of a `xsize` by `ysize` image.
pub fn label_map_len(xsize: u32, ysize: u32) -> (r: Result<usize, ElsdcError>)
    ensures
        xsize as int * ysize as int <= usize::MAX ==> r == Ok::<usize, ElsdcError>(
            (xsize * ysize) as usize,
        ),
        xsize as int * ysize as int > usize::MAX ==> r == Err::<usize, ElsdcError>(
            ElsdcError::DetectionError(DetectionFailure::ImageTooLarge),
        ),
{
    match (xsize as usize).checked_mul(ysize as usize) {
        Some(n) => Ok(n),
        None => Err(ElsdcError::DetectionError(DetectionFailure::ImageTooLarge)),
    }
}

/// What a report means: the number of primitives handed over, or why the
/// outputs cannot be trusted.
pub open spec fn report_outcome(report: DetectionReport) -> Result<usize, DetectionFailure> {
    if report.status != 0 {
        Err(DetectionFailure::Status(report.status))
    } else if report.count < 0 {
        Err(DetectionFailure::NegativeCount(report.count))
    } else if report.count > 0 && !report.primitives_present {
        Err(DetectionFailure::MissingOutput)
    } else {
        Ok(report.count as usize)
    }
}

/// Checks a report: a nonzero status, a negative count, or primitives
/// without an array to hold them are detection errors.
pub fn check_detection(report: &DetectionReport) -> (r: Result<usize, ElsdcError>)
    ensures
        match report_outcome(*report) {
            Ok(n) => r == Ok::<usize, ElsdcError>(n),
            Err(f) => r == Err::<usize, ElsdcError>(ElsdcError::DetectionError(f)),
        },
{
    if report.status != 0 {
        Err(ElsdcError::DetectionError(DetectionFailure::Status(report.status)))
    } else if report.count < 0 {
        Err(ElsdcError::DetectionError(DetectionFailure::NegativeCount(report.count)))
    } else if report.count > 0 && !report.primitives_present {
        Err(ElsdcError::DetectionError(DetectionFailure::MissingOutput))
    } else {
        Ok(report.count as usize)
    }
}

/// The detector-side arrays of one successful call, awaiting release. It
/// records the length they were allocated with and grants their release
/// once. A failed call yields none: its outputs are never released, since
/// nothing says they are valid.
pub struct DetectorArrays {
    count: usize,
    released: bool,
}

impl View for DetectorArrays {
    /// The recorded length, and whether the release was granted.
    type V = (nat, bool);

    closed spec fn view(&self) -> (nat, bool) {
        (self.count as nat, self.released)
    }
}

impl DetectorArrays {
    /// Takes charge of the arrays of a call, if its report is sound.
    pub fn from_report(report: &DetectionReport) -> (r: Result<DetectorArrays, ElsdcError>)
        ensures
            match report_outcome(*report) {
                Ok(n) => r matches Ok(a) && a@ == (n as nat, false),
                Err(f) => r matches Err(e) && e == ElsdcError::DetectionError(f),
            },
    {
        match check_detection(report) {
            Ok(count) => Ok(DetectorArrays { count, released: false }),
            Err(e) => Err(e),
        }
    }

    /// The number of primitives, and of labels, in the arrays.
    pub fn count(&self) -> (r: usize)
        ensures
            r == self@.0,
    {
        self.count
    }

    pub fn is_released(&self) -> (r: bool)
        ensures
            r == self@.1,
    {
        self.released
    }

    /// Grants the release: the length to hand to the detector's release
    /// routine the first time, nothing ever after.
    pub fn release(&mut self) -> (r: Option<usize>)
        ensures
            !old(self)@.1 ==> r == Some(old(self)@.0 as usize) && final(self)@ == (
                old(self)@.0,
                true,
            ),
            old(self)@.1 ==> r is None && final(self)@ == old(self)@,
    {
        if self.released {
            None
        } else {
            self.released = true;
            Some(self.count)
        }
    }
}

} // verus!
