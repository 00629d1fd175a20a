//! The fatal conditions that the counting core can report.

use vstd::prelude::*;

verus! {

/// Why an operation of the core refused to go on. None of these is
/// transient: the caller is expected to abandon the run.
#[derive(Clone, Copy, Debug, PartialEq, Eq, Structural)]
pub enum CoreError {
    /// A value left the range of the machine's integers.
    ArithmeticOverflow,
    /// More digit slots are needed than positions were laid out.
    LayoutInconsistency,
    /// A digit's raster is missing or does not fit its cell.
    GlyphCacheMiss,
}

impl CoreError {
    /// A short description for messages.
    pub fn describe(&self) -> (text: &'static str)
        ensures
            text@.len() > 0,
            (*self == CoreError::ArithmeticOverflow) ==> text@ == "arithmetic overflow"@,
            (*self == CoreError::LayoutInconsistency) ==> text@ == "layout inconsistency"@,
            (*self == CoreError::GlyphCacheMiss) ==> text@ == "glyph cache miss"@,
    {
        proof {
            reveal_strlit("arithmetic overflow");
            reveal_strlit("layout inconsistency");
            reveal_strlit("glyph cache miss");
        }
        match self {
            CoreError::ArithmeticOverflow => "arithmetic overflow",
            CoreError::LayoutInconsistency => "layout inconsistency",
            CoreError::GlyphCacheMiss => "glyph cache miss",
        }
    }
}

} // verus!
