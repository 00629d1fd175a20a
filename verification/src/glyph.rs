//! The glyph cache: the ten digit rasters, brought to one cell size.
//!
//! Digit glyphs differ in width and height. A cell has the width of the
//! widest and the height of the tallest digit; each glyph is copied into
//! its cell centred horizontally and standing on the bottom row, over a
//! background of zero coverage. Cells are therefore interchangeable, and a
//! slot position is valid for every digit.

use vstd::prelude::*;
use vstd::arithmetic::div_mod::lemma_fundamental_div_mod_converse;
use crate::error::CoreError;

verus! {

/// How many digit glyphs there are.
pub const DIGITS: usize = 10;

/// The bounding box of one rasterised glyph, in pixels.
#[derive(Clone, Copy, Debug, PartialEq, Eq, Structural)]
pub struct GlyphSize {
    pub width: usize,
    pub height: usize,
}

/// The bounding measures of the ten digits: the greatest width and the
/// digit that has it, the greatest height and the digit that has it.
#[derive(Clone, Copy, Debug, PartialEq, Eq, Structural)]
pub struct Widest {
    pub wide_number: u8,
    pub width: usize,
    pub tall_number: u8,
    pub height: usize,
}

/// Whether `w` holds the bounding measures of `sizes`: the greatest width
/// and height, each with the first digit that attains it.
pub open spec fn is_widest(w: Widest, sizes: Seq<GlyphSize>) -> bool {
    &&& (w.wide_number as int) < sizes.len()
    &&& (w.tall_number as int) < sizes.len()
    &&& sizes[w.wide_number as int].width == w.width
    &&& sizes[w.tall_number as int].height == w.height
    &&& forall|d: int| 0 <= d < sizes.len() ==> (#[trigger] sizes[d]).width <= w.width
    &&& forall|d: int| 0 <= d < sizes.len() ==> (#[trigger] sizes[d]).height <= w.height
    &&& forall|d: int| 0 <= d < w.wide_number ==> (#[trigger] sizes[d]).width < w.width
    &&& forall|d: int| 0 <= d < w.tall_number ==> (#[trigger] sizes[d]).height < w.height
}

/// The bounding measures of the ten digit glyphs, `sizes[d]` being the
/// size of digit `d`. Fails exactly when there are not ten sizes.
pub fn widest(sizes: &Vec<GlyphSize>) -> (r: Result<Widest, CoreError>)
    ensures
        match r {
            Ok(w) => sizes@.len() == DIGITS && is_widest(w, sizes@),
            Err(e) => e == CoreError::GlyphCacheMiss && sizes@.len() != DIGITS,
        },
{
    if sizes.len() != DIGITS {
        return Err(CoreError::GlyphCacheMiss);
    }
    let mut best = Widest {
        wide_number: 0,
        width: sizes[0].width,
        tall_number: 0,
        height: sizes[0].height,
    };
    let mut idx: u8 = 1;
    while idx < 10
        invariant
            1 <= idx <= 10,
            sizes@.len() == 10,
            is_widest(best, sizes@.take(idx as int)),
        decreases 10 - idx,
    {
        let ghost seen = sizes@.take(idx as int);
        let ghost more = sizes@.take(idx + 1);
        let size = sizes[idx as usize];
        if size.width > best.width {
            best.wide_number = idx;
            best.width = size.width;
        }
        if size.height > best.height {
            best.tall_number = idx;
            best.height = size.height;
        }
        proof {
            assert forall|d: int| 0 <= d < more.len() implies (#[trigger] more[d]).width
                <= best.width && more[d].height <= best.height by {
                if d < idx {
                    assert(more[d] == seen[d]);
                }
            }
            assert forall|d: int| 0 <= d < best.wide_number implies (#[trigger] more[d]).width
                < best.width by {
                assert(more[d] == seen[d]);
            }
            assert forall|d: int| 0 <= d < best.tall_number implies (#[trigger] more[d]).height
                < best.height by {
                assert(more[d] == seen[d]);
            }
            assert(more[best.wide_number as int] == sizes@[best.wide_number as int]);
            assert(more[best.tall_number as int] == sizes@[best.tall_number as int]);
            assert(seen.len() == idx);
        }
        idx = idx + 1;
    }
    assert(sizes@.take(10) =~= sizes@);
    Ok(best)
}

/// The bounding measures of a list of sizes are unique.
pub proof fn lemma_widest_unique(a: Widest, b: Widest, sizes: Seq<GlyphSize>)
    requires
        is_widest(a, sizes),
        is_widest(b, sizes),
    ensures
        a == b,
{
    assert(a.width == b.width);
    assert(a.height == b.height);
    if a.wide_number < b.wide_number {
        assert(sizes[a.wide_number as int].width < b.width);
    } else if b.wide_number < a.wide_number {
        assert(sizes[b.wide_number as int].width < a.width);
    }
    if a.tall_number < b.tall_number {
        assert(sizes[a.tall_number as int].height < b.height);
    } else if b.tall_number < a.tall_number {
        assert(sizes[b.tall_number as int].height < a.height);
    }
}

/// One rasterised glyph: its bounding box and its coverage, one byte per
/// pixel, row by row from the top.
pub struct Raster {
    pub size: GlyphSize,
    pub coverage: Vec<u8>,
}

/// Whether a glyph can be placed in a cell of the bounding measures `w`:
/// it is no larger than the cell, and its coverage has one byte per pixel.
pub open spec fn raster_fits(w: Widest, size: GlyphSize, coverage: Seq<u8>) -> bool {
    &&& size.width <= w.width
    &&& size.height <= w.height
    &&& coverage.len() == size.width * size.height
}

/// The coverage at column `x`, row `y` of the cell that holds the glyph:
/// the glyph is centred horizontally and stands on the bottom row, and
/// everything around it is zero.
pub open spec fn cell_pixel(w: Widest, size: GlyphSize, coverage: Seq<u8>, x: int, y: int) -> u8 {
    let dx = (w.width - size.width) / 2;
    let dy = w.height - size.height;
    if dy <= y && dx <= x < dx + size.width {
        coverage[(y - dy) * size.width + (x - dx)]
    } else {
        0
    }
}

/// The cell that holds the glyph, row by row from the top.
pub open spec fn cell_of(w: Widest, size: GlyphSize, coverage: Seq<u8>) -> Seq<u8> {
    Seq::new(
        (w.width * w.height) as nat,
        |k: int| cell_pixel(w, size, coverage, k % (w.width as int), k / (w.width as int)),
    )
}

/// Places a glyph in a cell of the bounding measures `w`. A glyph that
/// does not fit is a cache miss; a cell with more pixels than the machine
/// can count is an overflow.
pub fn normalize(w: &Widest, raster: &Raster) -> (r: Result<Vec<u8>, CoreError>)
    ensures
        !raster_fits(*w, raster.size, raster.coverage@) ==> r == Err::<Vec<u8>, CoreError>(
            CoreError::GlyphCacheMiss,
        ),
        raster_fits(*w, raster.size, raster.coverage@) && w.width * w.height > usize::MAX ==> r
            == Err::<Vec<u8>, CoreError>(CoreError::ArithmeticOverflow),
        raster_fits(*w, raster.size, raster.coverage@) && w.width * w.height <= usize::MAX ==> r
            is Ok && r->Ok_0@ == cell_of(*w, raster.size, raster.coverage@),
{
    let gw: usize = raster.size.width;
    let gh: usize = raster.size.height;
    if gw > w.width || gh > w.height {
        return Err(CoreError::GlyphCacheMiss);
    }
    let have: usize = raster.coverage.len();
    match gw.checked_mul(gh) {
        Some(pixels) => {
            if pixels != have {
                return Err(CoreError::GlyphCacheMiss);
            }
        },
        None => {
            return Err(CoreError::GlyphCacheMiss);
        },
    }
    let area: usize = match w.width.checked_mul(w.height) {
        Some(a) => a,
        None => {
            return Err(CoreError::ArithmeticOverflow);
        },
    };
    let dx: usize = (w.width - gw) / 2;
    let dy: usize = w.height - gh;
    let ghost size = raster.size;
    let ghost coverage = raster.coverage@;
    let ghost wide = w.width as int;
    let mut cell: Vec<u8> = Vec::with_capacity(area);
    let mut y: usize = 0;
    while y < w.height
        invariant
            y <= w.height,
            gw == raster.size.width,
            gh == raster.size.height,
            raster_fits(*w, raster.size, raster.coverage@),
            area == w.width * w.height,
            dx == (w.width - gw) / 2,
            dy == w.height - gh,
            gw * gh <= usize::MAX,
            size == raster.size && coverage == raster.coverage@ && wide == w.width,
            cell@.len() == y * w.width,
            forall|k: int|
                0 <= k < cell@.len() ==> #[trigger] cell@[k] == cell_pixel(
                    *w,
                    size,
                    coverage,
                    k % wide,
                    k / wide,
                ),
        decreases w.height - y,
    {
        let mut x: usize = 0;
        while x < w.width
            invariant
                y < w.height,
                x <= w.width,
                gw == raster.size.width,
                gh == raster.size.height,
                raster_fits(*w, raster.size, raster.coverage@),
                area == w.width * w.height,
                dx == (w.width - gw) / 2,
                dy == w.height - gh,
                gw * gh <= usize::MAX,
                size == raster.size && coverage == raster.coverage@ && wide == w.width,
                cell@.len() == y * w.width + x,
                forall|k: int|
                    0 <= k < cell@.len() ==> #[trigger] cell@[k] == cell_pixel(
                        *w,
                        size,
                        coverage,
                        k % wide,
                        k / wide,
                    ),
            decreases w.width - x,
        {
            let ghost k = y * w.width + x;
            proof {
                lemma_fundamental_div_mod_converse(k, w.width as int, y as int, x as int);
                assert(k < w.width * w.height) by (nonlinear_arith)
                    requires
                        k == y * w.width + x,
                        0 <= x < w.width,
                        0 <= y < w.height,
                ;
            }
            let value: u8 = if y >= dy && x >= dx && x - dx < gw {
                let row: usize = y - dy;
                let column: usize = x - dx;
                assert(row * gw + column < gw * gh) by (nonlinear_arith)
                    requires
                        0 <= row < gh,
                        0 <= column < gw,
                ;
                assert(row * gw >= 0) by (nonlinear_arith);
                raster.coverage[row * gw + column]
            } else {
                0
            };
            assert(value == cell_pixel(*w, size, coverage, k % wide, k / wide));
            cell.push(value);
            x = x + 1;
        }
        assert((y + 1) * w.width == y * w.width + w.width) by (nonlinear_arith);
        y = y + 1;
    }
    assert(cell@.len() == w.width * w.height) by (nonlinear_arith)
        requires
            cell@.len() == y * w.width,
            y == w.height,
    ;
    assert(cell@ =~= cell_of(*w, size, coverage));
    Ok(cell)
}

/// The cache: one normalised cell per digit, and the bounding measures
/// that all the cells share.
pub struct Things {
    pub numbers: Vec<Vec<u8>>,
    pub widest: Widest,
}

/// Whether a raster has one byte of coverage per pixel of its bounding
/// box.
pub open spec fn covered(raster: Raster) -> bool {
    raster.coverage@.len() == raster.size.width * raster.size.height
}

/// Whether there are ten rasters, each with its full coverage.
pub open spec fn all_covered(rasters: Seq<Raster>) -> bool {
    &&& rasters.len() == DIGITS
    &&& forall|d: int| 0 <= d < rasters.len() ==> covered(#[trigger] rasters[d])
}

/// The bounding boxes of the rasters, digit by digit.
pub open spec fn sizes_of(rasters: Seq<Raster>) -> Seq<GlyphSize> {
    Seq::new(rasters.len(), |d: int| rasters[d].size)
}

impl Things {
    /// Whether the cache holds the cells of the given rasters: its
    /// measures bound them, and cell `d` is raster `d` normalised.
    pub open spec fn holds(&self, rasters: Seq<Raster>) -> bool {
        &&& is_widest(self.widest, sizes_of(rasters))
        &&& self.numbers@.len() == rasters.len()
        &&& forall|d: int|
            0 <= d < rasters.len() ==> (#[trigger] self.numbers@[d])@ == cell_of(
                self.widest,
                rasters[d].size,
                rasters[d].coverage@,
            )
    }

    /// Whether there is a cell for each digit, each of the shared size.
    pub open spec fn wf(&self) -> bool {
        &&& self.numbers@.len() == DIGITS
        &&& forall|d: int|
            0 <= d < DIGITS ==> (#[trigger] self.numbers@[d])@.len() == self.widest.width
                * self.widest.height
    }

    /// Builds the cache from the rasters of the digits 0 to 9, in that
    /// order. A missing raster, or one without its full coverage, is a
    /// cache miss; a cell with more pixels than the machine can count is
    /// an overflow. On every other input the cache is built.
    pub fn build(rasters: &Vec<Raster>) -> (r: Result<Things, CoreError>)
        ensures
            match r {
                Ok(things) => {
                    &&& all_covered(rasters@)
                    &&& things.holds(rasters@)
                    &&& things.wf()
                    &&& things.widest.width * things.widest.height <= usize::MAX
                },
                Err(e) => {
                    &&& e == CoreError::GlyphCacheMiss || e == CoreError::ArithmeticOverflow
                    &&& e == CoreError::GlyphCacheMiss <==> !all_covered(rasters@)
                    &&& e == CoreError::ArithmeticOverflow ==> forall|w: Widest|
                        is_widest(w, sizes_of(rasters@)) ==> w.width * w.height > usize::MAX
                },
            },
    {
        if rasters.len() != DIGITS {
            return Err(CoreError::GlyphCacheMiss);
        }
        let mut sizes: Vec<GlyphSize> = Vec::new();
        let mut d: usize = 0;
        while d < DIGITS
            invariant
                d <= DIGITS,
                rasters@.len() == DIGITS,
                sizes@ == sizes_of(rasters@).take(d as int),
                forall|i: int| 0 <= i < d ==> covered(#[trigger] rasters@[i]),
            decreases DIGITS - d,
        {
            let raster = &rasters[d];
            let have: usize = raster.coverage.len();
            match raster.size.width.checked_mul(raster.size.height) {
                Some(pixels) => {
                    if pixels != have {
                        return Err(CoreError::GlyphCacheMiss);
                    }
                },
                None => {
                    return Err(CoreError::GlyphCacheMiss);
                },
            }
            sizes.push(raster.size);
            assert(sizes@ =~= sizes_of(rasters@).take(d + 1));
            d = d + 1;
        }
        assert(sizes@ =~= sizes_of(rasters@));
        let bounds = match widest(&sizes) {
            Ok(w) => w,
            Err(e) => {
                return Err(e);
            },
        };
        let mut numbers: Vec<Vec<u8>> = Vec::new();
        let mut d: usize = 0;
        while d < DIGITS
            invariant
                d <= DIGITS,
                all_covered(rasters@),
                is_widest(bounds, sizes_of(rasters@)),
                numbers@.len() == d,
                d > 0 ==> bounds.width * bounds.height <= usize::MAX,
                forall|i: int|
                    0 <= i < d ==> (#[trigger] numbers@[i])@ == cell_of(
                        bounds,
                        rasters@[i].size,
                        rasters@[i].coverage@,
                    ),
            decreases DIGITS - d,
        {
            let raster = &rasters[d];
            assert(covered(rasters@[d as int]));
            assert(sizes_of(rasters@)[d as int] == raster.size);
            assert(raster_fits(bounds, raster.size, raster.coverage@));
            match normalize(&bounds, raster) {
                Ok(cell) => {
                    numbers.push(cell);
                },
                Err(e) => {
                    proof {
                        assert forall|w: Widest| is_widest(w, sizes_of(rasters@)) implies w.width
                            * w.height > usize::MAX by {
                            lemma_widest_unique(w, bounds, sizes_of(rasters@));
                        }
                    }
                    return Err(e);
                },
            }
            d = d + 1;
        }
        Ok(Things { numbers, widest: bounds })
    }
}

} // verus!
