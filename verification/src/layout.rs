//! The slot layout: where each digit slot sits on the canvas.
//!
//! Slots are laid out from the right. Slot 0, the ones place, ends one
//! edge padding before the right border; every further slot lies one glyph
//! width and one separator to the left of its neighbour. The separator is
//! the spacing unit inside a group of three slots and the group gap between
//! two groups. A position is the left edge of a slot's cell.

use vstd::prelude::*;
use crate::digits::{digits_of, num_digits};
use crate::error::CoreError;
use crate::glyph::GlyphSize;

verus! {

/// The number of slots that a layout offers unless told otherwise: enough
/// for 9,999,999.
pub const MAX_SLOTS: usize = 7;

/// The number of group boundaries among `digit_count` slots.
pub open spec fn group_boundaries(digit_count: nat) -> nat {
    if digit_count == 0 {
        0
    } else {
        ((digit_count - 1) / 3) as nat
    }
}

/// The number of neighbouring slots inside one group among `digit_count`
/// slots.
pub open spec fn adjacent_pairs(digit_count: nat) -> nat {
    if digit_count == 0 {
        0
    } else {
        ((digit_count - 1) - (digit_count - 1) / 3) as nat
    }
}

/// The distance between slot `i` and slot `i - 1`, for `i` of at least 1.
pub open spec fn separator(spacing_unit: nat, group_gap: nat, i: nat) -> nat {
    if i % 3 == 0 {
        group_gap
    } else {
        spacing_unit
    }
}

/// The distance from the right end of the drawable area to the left edge
/// of slot `i`: the glyphs of slots `0..=i` and the separators between
/// them.
pub open spec fn slot_offset(glyph_width: nat, spacing_unit: nat, group_gap: nat, i: nat) -> int {
    (i + 1) * glyph_width + (i - i / 3) * spacing_unit + (i / 3) * group_gap
}

/// The width of a canvas that shows `digit_count` slots.
pub open spec fn canvas_width_of(
    glyph_width: nat,
    spacing_unit: nat,
    group_gap: nat,
    edge_padding: nat,
    digit_count: nat,
) -> nat {
    glyph_width * digit_count + spacing_unit * adjacent_pairs(digit_count) + group_gap
        * group_boundaries(digit_count) + 2 * edge_padding
}

/// The height of a canvas for glyphs of the given height.
pub open spec fn canvas_height_of(glyph_height: nat, edge_padding: nat) -> nat {
    glyph_height + 2 * edge_padding
}

/// The left edge of slot `i` on a canvas of `max_slots` slots.
pub open spec fn slot_position(
    glyph_width: nat,
    spacing_unit: nat,
    group_gap: nat,
    edge_padding: nat,
    max_slots: nat,
    i: nat,
) -> int {
    canvas_width_of(glyph_width, spacing_unit, group_gap, edge_padding, max_slots) - edge_padding
        - slot_offset(glyph_width, spacing_unit, group_gap, i)
}

/// Whether `positions` is the layout of `max_slots` slots under the given
/// measures.
pub open spec fn is_layout(
    positions: Seq<usize>,
    glyph_width: nat,
    spacing_unit: nat,
    group_gap: nat,
    edge_padding: nat,
    max_slots: nat,
) -> bool {
    &&& positions.len() == max_slots
    &&& forall|i: int|
        0 <= i < max_slots ==> #[trigger] positions[i] as int == slot_position(
            glyph_width,
            spacing_unit,
            group_gap,
            edge_padding,
            max_slots,
            i as nat,
        )
}

/// The ones place takes one glyph width; each further slot adds a
/// separator and a glyph width.
pub proof fn lemma_slot_offset_step(glyph_width: nat, spacing_unit: nat, group_gap: nat, i: nat)
    ensures
        slot_offset(glyph_width, spacing_unit, group_gap, 0) == glyph_width,
        slot_offset(glyph_width, spacing_unit, group_gap, i + 1) == slot_offset(
            glyph_width,
            spacing_unit,
            group_gap,
            i,
        ) + separator(spacing_unit, group_gap, i + 1) + glyph_width,
{
    let j = i + 1;
    let q = i / 3;
    assert((i + 2) * glyph_width == (i + 1) * glyph_width + glyph_width) by (nonlinear_arith);
    assert(1 * glyph_width == glyph_width) by (nonlinear_arith);
    assert(0 * spacing_unit == 0 && 0 * group_gap == 0) by (nonlinear_arith);
    if j % 3 == 0 {
        assert(j / 3 == q + 1);
        assert((q + 1) * group_gap == q * group_gap + group_gap) by (nonlinear_arith);
        assert(j - j / 3 == i - q);
    } else {
        assert(j / 3 == q);
        assert(j - j / 3 == i - q + 1);
        assert((i - q + 1) * spacing_unit == (i - q) * spacing_unit + spacing_unit)
            by (nonlinear_arith);
    }
}

/// Slots further left lie further from the right end.
pub proof fn lemma_slot_offset_monotone(
    glyph_width: nat,
    spacing_unit: nat,
    group_gap: nat,
    i: nat,
    j: nat,
)
    requires
        i <= j,
    ensures
        slot_offset(glyph_width, spacing_unit, group_gap, i) <= slot_offset(
            glyph_width,
            spacing_unit,
            group_gap,
            j,
        ),
    decreases j - i,
{
    if i < j {
        lemma_slot_offset_step(glyph_width, spacing_unit, group_gap, (j - 1) as nat);
        lemma_slot_offset_monotone(glyph_width, spacing_unit, group_gap, i, (j - 1) as nat);
    }
}

/// A canvas with at least one slot is two edge paddings wider than the
/// offset of its leftmost slot.
pub proof fn lemma_canvas_width_by_offset(
    glyph_width: nat,
    spacing_unit: nat,
    group_gap: nat,
    edge_padding: nat,
    digit_count: nat,
)
    requires
        digit_count >= 1,
    ensures
        canvas_width_of(glyph_width, spacing_unit, group_gap, edge_padding, digit_count) == 2
            * edge_padding + slot_offset(
            glyph_width,
            spacing_unit,
            group_gap,
            (digit_count - 1) as nat,
        ),
{
    let i = (digit_count - 1) as nat;
    assert(glyph_width * digit_count == (i + 1) * glyph_width) by (nonlinear_arith)
        requires
            digit_count == i + 1,
    ;
    assert(spacing_unit * adjacent_pairs(digit_count) == (i - i / 3) * spacing_unit)
        by (nonlinear_arith)
        requires
            adjacent_pairs(digit_count) == i - i / 3,
    ;
    assert(group_gap * group_boundaries(digit_count) == (i / 3) * group_gap) by (nonlinear_arith)
        requires
            group_boundaries(digit_count) == i / 3,
    ;
}

/// A canvas for more slots is at least as wide: one sized for the largest
/// number of a count is wide enough for every number before it.
pub proof fn lemma_canvas_width_monotone(
    glyph_width: nat,
    spacing_unit: nat,
    group_gap: nat,
    edge_padding: nat,
    fewer: nat,
    more: nat,
)
    requires
        fewer <= more,
    ensures
        canvas_width_of(glyph_width, spacing_unit, group_gap, edge_padding, fewer)
            <= canvas_width_of(glyph_width, spacing_unit, group_gap, edge_padding, more),
{
    if fewer == 0 {
        assert(glyph_width * 0 == 0 && spacing_unit * 0 == 0 && group_gap * 0 == 0)
            by (nonlinear_arith);
        assert(glyph_width * more >= 0 && spacing_unit * adjacent_pairs(more) >= 0 && group_gap
            * group_boundaries(more) >= 0) by (nonlinear_arith);
    } else {
        lemma_canvas_width_by_offset(glyph_width, spacing_unit, group_gap, edge_padding, fewer);
        lemma_canvas_width_by_offset(glyph_width, spacing_unit, group_gap, edge_padding, more);
        lemma_slot_offset_monotone(
            glyph_width,
            spacing_unit,
            group_gap,
            (fewer - 1) as nat,
            (more - 1) as nat,
        );
    }
}

/// `total + a * b`, unless that leaves the machine's range.
fn add_product(total: usize, a: usize, b: usize) -> (sum: Option<usize>)
    ensures
        a * b >= 0,
        sum == if total + a * b > usize::MAX {
            None
        } else {
            Some((total + a * b) as usize)
        },
{
    assert(a * b >= 0) by (nonlinear_arith);
    match a.checked_mul(b) {
        Some(product) => total.checked_add(product),
        None => None,
    }
}

/// The width of a canvas that shows `digit_count` slots: the glyphs, the
/// spacing inside groups, the gaps between groups and the padding at both
/// edges. Fails exactly when that width is beyond the machine's range.
pub fn canvas_width(
    glyph_width: usize,
    spacing_unit: usize,
    group_gap: usize,
    edge_padding: usize,
    digit_count: usize,
) -> (r: Result<usize, CoreError>)
    ensures
        match r {
            Ok(width) => width == canvas_width_of(
                glyph_width as nat,
                spacing_unit as nat,
                group_gap as nat,
                edge_padding as nat,
                digit_count as nat,
            ),
            Err(e) => e == CoreError::ArithmeticOverflow && canvas_width_of(
                glyph_width as nat,
                spacing_unit as nat,
                group_gap as nat,
                edge_padding as nat,
                digit_count as nat,
            ) > usize::MAX,
        },
{
    let boundaries: usize = if digit_count == 0 {
        0
    } else {
        (digit_count - 1) / 3
    };
    let pairs: usize = if digit_count == 0 {
        0
    } else {
        digit_count - 1 - boundaries
    };
    assert(boundaries == group_boundaries(digit_count as nat));
    assert(pairs == adjacent_pairs(digit_count as nat));
    assert(glyph_width * digit_count >= 0 && spacing_unit * pairs >= 0 && group_gap * boundaries
        >= 0) by (nonlinear_arith);
    let glyphs = match add_product(0, glyph_width, digit_count) {
        Some(v) => v,
        None => { return Err(CoreError::ArithmeticOverflow); },
    };
    let spaced = match add_product(glyphs, spacing_unit, pairs) {
        Some(v) => v,
        None => { return Err(CoreError::ArithmeticOverflow); },
    };
    let grouped = match add_product(spaced, group_gap, boundaries) {
        Some(v) => v,
        None => { return Err(CoreError::ArithmeticOverflow); },
    };
    match add_product(grouped, 2, edge_padding) {
        Some(v) => Ok(v),
        None => Err(CoreError::ArithmeticOverflow),
    }
}

/// The height of the canvas: the glyph height and the padding above and
/// below. Fails exactly when that height is beyond the machine's range.
pub fn canvas_height(glyph_height: usize, edge_padding: usize) -> (r: Result<usize, CoreError>)
    ensures
        match r {
            Ok(height) => height == canvas_height_of(glyph_height as nat, edge_padding as nat),
            Err(e) => e == CoreError::ArithmeticOverflow && canvas_height_of(
                glyph_height as nat,
                edge_padding as nat,
            ) > usize::MAX,
        },
{
    match add_product(glyph_height, 2, edge_padding) {
        Some(v) => Ok(v),
        None => Err(CoreError::ArithmeticOverflow),
    }
}

/// The left edge of each of `max_slots` slots, slot 0 first, on the canvas
/// that `canvas_width` gives for `max_slots` digits. Fails exactly when
/// that canvas is wider than the machine's range.
pub fn compute_positions(
    glyph_width: usize,
    spacing_unit: usize,
    group_gap: usize,
    edge_padding: usize,
    max_slots: usize,
) -> (r: Result<Vec<usize>, CoreError>)
    ensures
        match r {
            Ok(positions) => is_layout(
                positions@,
                glyph_width as nat,
                spacing_unit as nat,
                group_gap as nat,
                edge_padding as nat,
                max_slots as nat,
            ) && canvas_width_of(
                glyph_width as nat,
                spacing_unit as nat,
                group_gap as nat,
                edge_padding as nat,
                max_slots as nat,
            ) <= usize::MAX,
            Err(e) => e == CoreError::ArithmeticOverflow && canvas_width_of(
                glyph_width as nat,
                spacing_unit as nat,
                group_gap as nat,
                edge_padding as nat,
                max_slots as nat,
            ) > usize::MAX,
        },
{
    let width = match canvas_width(glyph_width, spacing_unit, group_gap, edge_padding, max_slots) {
        Ok(w) => w,
        Err(e) => { return Err(e); },
    };
    let ghost gw = glyph_width as nat;
    let ghost su = spacing_unit as nat;
    let ghost gg = group_gap as nat;
    let ghost ep = edge_padding as nat;
    let mut positions: Vec<usize> = Vec::new();
    if max_slots == 0 {
        return Ok(positions);
    }
    proof {
        lemma_canvas_width_by_offset(gw, su, gg, ep, max_slots as nat);
        lemma_slot_offset_step(gw, su, gg, 0);
        lemma_slot_offset_monotone(gw, su, gg, 0, (max_slots - 1) as nat);
    }
    let mut left: usize = width - edge_padding - glyph_width;
    positions.push(left);
    let mut i: usize = 1;
    while i < max_slots
        invariant
            1 <= i <= max_slots,
            gw == glyph_width && su == spacing_unit && gg == group_gap && ep == edge_padding,
            width == 2 * ep + slot_offset(gw, su, gg, (max_slots - 1) as nat),
            width == canvas_width_of(gw, su, gg, ep, max_slots as nat),
            left == slot_position(gw, su, gg, ep, max_slots as nat, (i - 1) as nat),
            positions@.len() == i,
            forall|j: int|
                0 <= j < i ==> #[trigger] positions@[j] as int == slot_position(
                    gw,
                    su,
                    gg,
                    ep,
                    max_slots as nat,
                    j as nat,
                ),
        decreases max_slots - i,
    {
        proof {
            lemma_slot_offset_step(gw, su, gg, (i - 1) as nat);
            lemma_slot_offset_monotone(gw, su, gg, i as nat, (max_slots - 1) as nat);
        }
        let step: usize = if i % 3 == 0 {
            group_gap
        } else {
            spacing_unit
        };
        left = left - step - glyph_width;
        positions.push(left);
        i = i + 1;
    }
    Ok(positions)
}

/// Two layouts for the same measures are the same layout: the positions
/// depend on nothing but the measures.
pub proof fn lemma_layout_deterministic(
    first: Seq<usize>,
    second: Seq<usize>,
    glyph_width: nat,
    spacing_unit: nat,
    group_gap: nat,
    edge_padding: nat,
    max_slots: nat,
)
    requires
        is_layout(first, glyph_width, spacing_unit, group_gap, edge_padding, max_slots),
        is_layout(second, glyph_width, spacing_unit, group_gap, edge_padding, max_slots),
    ensures
        first == second,
{
    assert(first =~= second);
}

/// Each slot lies exactly one separator and one glyph width to the left
/// of the slot before it.
pub proof fn lemma_neighbour_distance(
    positions: Seq<usize>,
    glyph_width: nat,
    spacing_unit: nat,
    group_gap: nat,
    edge_padding: nat,
    max_slots: nat,
    i: int,
)
    requires
        is_layout(positions, glyph_width, spacing_unit, group_gap, edge_padding, max_slots),
        0 <= i,
        i + 1 < max_slots,
    ensures
        positions[i] - positions[i + 1] == glyph_width + separator(
            spacing_unit,
            group_gap,
            (i + 1) as nat,
        ),
        positions[i + 1] <= positions[i],
{
    lemma_slot_offset_step(glyph_width, spacing_unit, group_gap, i as nat);
}

/// Slots of higher significance lie strictly further left, as long as a
/// glyph and the separator before the slot are not both of width zero.
pub proof fn lemma_positions_decrease(
    positions: Seq<usize>,
    glyph_width: nat,
    spacing_unit: nat,
    group_gap: nat,
    edge_padding: nat,
    max_slots: nat,
    i: int,
)
    requires
        is_layout(positions, glyph_width, spacing_unit, group_gap, edge_padding, max_slots),
        0 <= i,
        i + 1 < max_slots,
        glyph_width + separator(spacing_unit, group_gap, (i + 1) as nat) > 0,
    ensures
        positions[i + 1] < positions[i],
{
    lemma_neighbour_distance(
        positions,
        glyph_width,
        spacing_unit,
        group_gap,
        edge_padding,
        max_slots,
        i,
    );
}

/// Every slot lies inside the padded canvas: the leftmost slot starts at
/// the edge padding, and the ones place ends one edge padding before the
/// right border.
pub proof fn lemma_slots_fit_canvas(
    positions: Seq<usize>,
    glyph_width: nat,
    spacing_unit: nat,
    group_gap: nat,
    edge_padding: nat,
    max_slots: nat,
    i: int,
)
    requires
        is_layout(positions, glyph_width, spacing_unit, group_gap, edge_padding, max_slots),
        0 <= i < max_slots,
    ensures
        positions[max_slots - 1] == edge_padding,
        positions[0] + glyph_width + edge_padding == canvas_width_of(
            glyph_width,
            spacing_unit,
            group_gap,
            edge_padding,
            max_slots,
        ),
        edge_padding <= positions[i],
        positions[i] + glyph_width + edge_padding <= canvas_width_of(
            glyph_width,
            spacing_unit,
            group_gap,
            edge_padding,
            max_slots,
        ),
{
    lemma_canvas_width_by_offset(glyph_width, spacing_unit, group_gap, edge_padding, max_slots);
    lemma_slot_offset_step(glyph_width, spacing_unit, group_gap, 0);
    lemma_slot_offset_monotone(glyph_width, spacing_unit, group_gap, i as nat, (max_slots - 1) as nat);
    lemma_slot_offset_monotone(glyph_width, spacing_unit, group_gap, 0, i as nat);
}

/// The distances that a layout leaves between and around the glyph cells.
#[derive(Clone, Copy, Debug, PartialEq, Eq, Structural)]
pub struct Spacing {
    /// Between two neighbouring slots of one group.
    pub spacing_unit: usize,
    /// Between two groups of three slots.
    pub group_gap: usize,
    /// Between the outermost cells and the border of the canvas.
    pub edge_padding: usize,
}

impl Spacing {
    /// The customary distances for cells of the given width: a quarter of
    /// the width between slots, twice that between groups and at the
    /// edges.
    pub fn for_glyph_width(glyph_width: usize) -> (spacing: Spacing)
        ensures
            spacing == customary_spacing(glyph_width),
    {
        let unit: usize = glyph_width / 4;
        Spacing { spacing_unit: unit, group_gap: unit * 2, edge_padding: unit * 2 }
    }
}

/// A canvas and the slots on it.
pub struct Layout {
    /// The width of the canvas.
    pub width: usize,
    /// The height of the canvas.
    pub height: usize,
    /// The top edge of every cell.
    pub top: usize,
    /// The left edge of each slot, the ones place first.
    pub positions: Vec<usize>,
}

impl Layout {
    /// Whether this is the layout of `digit_count` cells of size `cell`
    /// under `spacing`.
    pub open spec fn lays_out(&self, cell: GlyphSize, spacing: Spacing, digit_count: nat) -> bool {
        &&& self.width == canvas_width_of(
            cell.width as nat,
            spacing.spacing_unit as nat,
            spacing.group_gap as nat,
            spacing.edge_padding as nat,
            digit_count,
        )
        &&& self.height == canvas_height_of(cell.height as nat, spacing.edge_padding as nat)
        &&& self.top == spacing.edge_padding
        &&& is_layout(
            self.positions@,
            cell.width as nat,
            spacing.spacing_unit as nat,
            spacing.group_gap as nat,
            spacing.edge_padding as nat,
            digit_count,
        )
    }

    /// The canvas for exactly `digit_count` slots of cells of size `cell`,
    /// and the position of each slot. Fails exactly when the canvas would
    /// be wider or higher than the machine's range.
    pub fn for_digits(cell: GlyphSize, spacing: Spacing, digit_count: usize) -> (r: Result<
        Layout,
        CoreError,
    >)
        ensures
            match r {
                Ok(layout) => layout.lays_out(cell, spacing, digit_count as nat),
                Err(e) => e == CoreError::ArithmeticOverflow && (canvas_width_of(
                    cell.width as nat,
                    spacing.spacing_unit as nat,
                    spacing.group_gap as nat,
                    spacing.edge_padding as nat,
                    digit_count as nat,
                ) > usize::MAX || canvas_height_of(cell.height as nat, spacing.edge_padding as nat)
                    > usize::MAX),
            },
    {
        let width = match canvas_width(
            cell.width,
            spacing.spacing_unit,
            spacing.group_gap,
            spacing.edge_padding,
            digit_count,
        ) {
            Ok(w) => w,
            Err(e) => {
                return Err(e);
            },
        };
        let height = match canvas_height(cell.height, spacing.edge_padding) {
            Ok(h) => h,
            Err(e) => {
                return Err(e);
            },
        };
        let positions = match compute_positions(
            cell.width,
            spacing.spacing_unit,
            spacing.group_gap,
            spacing.edge_padding,
            digit_count,
        ) {
            Ok(p) => p,
            Err(e) => {
                return Err(e);
            },
        };
        Ok(Layout { width, height, top: spacing.edge_padding, positions })
    }

    /// The canvas sized for the digits of `target`, the largest number to
    /// be shown, with the customary distances for the cell's width.
    pub fn for_target(cell: GlyphSize, target: usize) -> (r: Result<Layout, CoreError>)
        ensures
            match r {
                Ok(layout) => layout.lays_out(
                    cell,
                    customary_spacing(cell.width),
                    digits_of(target as nat).len(),
                ),
                Err(e) => e == CoreError::ArithmeticOverflow && (canvas_width_of(
                    cell.width as nat,
                    customary_spacing(cell.width).spacing_unit as nat,
                    customary_spacing(cell.width).group_gap as nat,
                    customary_spacing(cell.width).edge_padding as nat,
                    digits_of(target as nat).len(),
                ) > usize::MAX || canvas_height_of(
                    cell.height as nat,
                    customary_spacing(cell.width).edge_padding as nat,
                ) > usize::MAX),
            },
    {
        let spacing = Spacing::for_glyph_width(cell.width);
        Layout::for_digits(cell, spacing, num_digits(target))
    }
}

/// The distances that `Spacing::for_glyph_width` chooses.
pub open spec fn customary_spacing(glyph_width: usize) -> Spacing {
    Spacing {
        spacing_unit: glyph_width / 4,
        group_gap: (2 * (glyph_width / 4)) as usize,
        edge_padding: (2 * (glyph_width / 4)) as usize,
    }
}

} // verus!
