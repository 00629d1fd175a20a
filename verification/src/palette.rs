//! The colour table of the animation: a ramp of 256 grays.

use vstd::prelude::*;

verus! {

/// One entry of a colour table.
#[derive(Clone, Copy, Debug, PartialEq, Eq, Structural)]
pub struct Color {
    pub r: u8,
    pub g: u8,
    pub b: u8,
}

/// The gray of the given level: all three channels at that level.
pub open spec fn gray(level: u8) -> Color {
    Color { r: level, g: level, b: level }
}

/// The gray ramp: entry `i` is the gray of level `i`, so that a byte of
/// glyph coverage is its own colour index.
pub fn grayscale() -> (plt: Vec<Color>)
    ensures
        plt@.len() == 256,
        forall|i: int| 0 <= i < 256 ==> #[trigger] plt@[i] == gray(i as u8),
{
    let mut plt: Vec<Color> = Vec::new();
    let mut idx: u8 = 0;
    while idx < 255
        invariant
            plt@.len() == idx,
            forall|i: int| 0 <= i < idx ==> #[trigger] plt@[i] == gray(i as u8),
        decreases 255 - idx,
    {
        plt.push(Color { r: idx, g: idx, b: idx });
        idx = idx + 1;
    }
    plt.push(Color { r: idx, g: idx, b: idx });
    plt
}

} // verus!
