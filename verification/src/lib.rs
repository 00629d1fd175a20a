//! An odometer-style decimal counter for animated images.
//!
//! The counter reports, for every increment, only the digit slots whose
//! value changed; the layout places the slots on a canvas, grouped in
//! threes; the glyph cache brings the ten digit rasters to one cell size;
//! and the frame planner turns the changed slots of one step into
//! positioned sub-images.

pub mod error;
pub mod digits;
pub mod count;
pub mod layout;
pub mod glyph;
pub mod palette;
pub mod frames;

pub use crate::count::{Count, Number};
pub use crate::digits::num_digits;
pub use crate::error::CoreError;
pub use crate::frames::{plan_step, DisposalMethod, Run, SubImage, Timing, STEP_DELAY};
pub use crate::glyph::{normalize, widest, GlyphSize, Raster, Things, Widest, DIGITS};
pub use crate::layout::{
    canvas_height, canvas_width, compute_positions, Layout, Spacing, MAX_SLOTS,
};
pub use crate::palette::{grayscale, Color};
