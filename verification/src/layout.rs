//! Pure geometry for the directory columns.
//!
//! The cursor's column keeps a fixed width and stays centred in the columns
//! area: the ancestors to its left and everything to its right each get the
//! same budget, so the centring falls out of the arithmetic rather than being
//! measured. Ancestors taper geometrically towards the left edge.
//!
//! Every ratio is exact: a width is the floor of a rational number, computed on
//! whole numbers, so no width depends on how a fraction happens to be rounded.

use crate::natural::Natural;
use vstd::arithmetic::div_mod::*;
use vstd::arithmetic::power::*;
use vstd::prelude::*;

verus! {

/// Percentage of the columns area given to the cursor's column.
pub const CURRENT_PERCENT: i64 = 30;

/// Lower bound on the cursor column's width, in pixels.
pub const CURRENT_MIN: i64 = 260;

/// Upper bound on the cursor column's width, in pixels.
pub const CURRENT_MAX: i64 = 520;

/// Each ancestor is this many tenths of the column to its right.
pub const TAPER_TENTHS: u32 = 7;

/// A column narrower than this cannot show a listing and renders as a sliver.
pub const SLIVER_THRESHOLD: i32 = 72;

/// A sliver is never thinner than this.
pub const SLIVER_MIN: i64 = 12;

/// Width of the panel right of the cursor when there is no ancestor to mirror,
/// as a percentage of the side budget.
pub const NO_PARENT_CHILD_PERCENT: i64 = 45;

/// Width the preview keeps for itself, whatever the panels left of it want.
pub const PREVIEW_MIN: i64 = 200;

/// What one directory panel should look like after a relayout.
#[derive(Debug, Clone, Copy, PartialEq, Eq)]
pub struct PanelLayout {
    /// Requested width in pixels. Meaningless when `visible` is false.
    pub width: i32,
    /// Render the thin strip instead of the listing.
    pub sliver: bool,
    /// False for panels squeezed out of the budget entirely.
    pub visible: bool,
}

/// The plan for one relayout.
#[derive(Debug, Clone, PartialEq, Eq)]
pub struct Layout {
    /// Left margin holding the cursor column centred, and soaking up the
    /// pixels lost to flooring the ancestor widths.
    pub gutter: i32,
    /// One entry per directory panel, in panel order.
    pub panels: Vec<PanelLayout>,
}

/// `x`, held between `low` and `high`.
pub open spec fn clamped(x: int, low: int, high: int) -> int {
    if x < low {
        low
    } else if x > high {
        high
    } else {
        x
    }
}

/// Width of the cursor's column in an area of the given width.
pub open spec fn current_width(area: int) -> int {
    clamped(area * CURRENT_PERCENT / 100, CURRENT_MIN as int, CURRENT_MAX as int)
}

/// What each side of the cursor's column gets.
pub open spec fn side_budget(area: int) -> int {
    (area - current_width(area)) / 2
}

/// A width, never under the thinnest sliver.
pub open spec fn at_least_sliver(width: int) -> int {
    if width < SLIVER_MIN {
        SLIVER_MIN as int
    } else {
        width
    }
}

/// The weight of the ancestor `distance` columns from the nearest one, among
/// `count`: `0.7 ^ distance`, scaled by `10 ^ (count - 1)` to be whole.
pub open spec fn taper_weight(count: nat, distance: nat) -> int {
    pow(TAPER_TENTHS as int, distance) * pow(10, (count - 1 - distance) as nat)
}

/// The weights of all `count` ancestors together.
pub open spec fn taper_total(count: nat) -> int
    decreases count,
{
    if count == 0 {
        0
    } else {
        10 * taper_total((count - 1) as nat) + pow(TAPER_TENTHS as int, (count - 1) as nat)
    }
}

/// The width of that ancestor: its share of the budget, floored.
pub open spec fn taper_width(budget: int, count: nat, distance: nat) -> int {
    at_least_sliver(budget * taper_weight(count, distance) / taper_total(count))
}

/// The widths of `count` ancestors, the leftmost and thinnest first.
pub open spec fn tapered(budget: int, count: nat) -> Seq<int> {
    Seq::new(count, |i: int| taper_width(budget, count, (count - 1 - i) as nat))
}

/// The sum of some widths.
pub open spec fn total(widths: Seq<int>) -> int
    decreases widths.len(),
{
    if widths.len() == 0 {
        0
    } else {
        total(widths.drop_last()) + widths.last()
    }
}

/// How many of `cursor` ancestors stay on screen: the most that the budget can
/// hold, the oldest dropping out first.
pub open spec fn kept(budget: int, cursor: nat) -> nat
    decreases cursor,
{
    if cursor == 0 || total(tapered(budget, cursor)) <= budget {
        cursor
    } else {
        kept(budget, (cursor - 1) as nat)
    }
}

/// The pixels the ancestors on screen take.
pub open spec fn ancestors_total(area: int, cursor: nat) -> int {
    total(tapered(side_budget(area), kept(side_budget(area), cursor)))
}

/// The left margin: the slack the ancestors left, or nothing without ancestors.
pub open spec fn gutter(area: int, cursor: nat) -> int {
    if kept(side_budget(area), cursor) == 0 {
        0
    } else {
        side_budget(area) - ancestors_total(area, cursor)
    }
}

/// What is left for everything right of the cursor's column.
pub open spec fn right_space(area: int, cursor: nat) -> int {
    area - gutter(area, cursor) - ancestors_total(area, cursor) - current_width(area)
}

/// The width of the first panel right of the cursor: the nearest ancestor's, or
/// a share of the budget where there is none to mirror.
pub open spec fn mirror(area: int, cursor: nat) -> int {
    if kept(side_budget(area), cursor) == 0 {
        side_budget(area) * NO_PARENT_CHILD_PERCENT / 100
    } else {
        taper_width(side_budget(area), kept(side_budget(area), cursor), 0)
    }
}

/// The width of the panel `step` columns right of the first one right of the
/// cursor, before the preview's floor is heeded.
pub open spec fn right_width(mirror: int, step: nat) -> int {
    at_least_sliver(mirror * pow(TAPER_TENTHS as int, step) / pow(10, step))
}

/// The widths of the first `count` panels right of the cursor.
pub open spec fn right_tapered(mirror: int, count: nat) -> Seq<int> {
    Seq::new(count, |i: int| right_width(mirror, i as nat))
}

/// What the panels right of the cursor may claim without eating into the
/// preview's floor.
pub open spec fn right_budget(area: int, cursor: nat) -> int {
    let spare = right_space(area, cursor) - PREVIEW_MIN;
    if spare < 0 {
        0
    } else {
        spare
    }
}

/// How many of `count` panels right of the cursor are shown: the most that fit,
/// the deepest dropping out first.
pub open spec fn shown(mirror: int, budget: int, count: nat) -> nat
    decreases count,
{
    if count == 0 || total(right_tapered(mirror, count)) <= budget {
        count
    } else {
        shown(mirror, budget, (count - 1) as nat)
    }
}

/// How many panels right of the cursor are shown in a whole layout.
pub open spec fn right_shown(area: int, panel_count: nat, cursor: nat) -> nat {
    shown(mirror(area, cursor), right_budget(area, cursor), (panel_count - cursor - 1) as nat)
}

/// Whether there is a layout at all: the cursor is on a panel, a gutter fits,
/// and the preview keeps its floor. With an ancestor on screen the preview has to
/// do with what either side gets: the odd pixel that halving leaves over is not
/// counted.
pub open spec fn laid_out(area: int, panel_count: nat, cursor: nat) -> bool {
    &&& cursor < panel_count
    &&& side_budget(area) >= SLIVER_MIN
    &&& kept(side_budget(area), cursor) > 0 ==> side_budget(area) >= PREVIEW_MIN
    &&& right_space(area, cursor) >= PREVIEW_MIN
}

/// A visible panel, showing its listing or a sliver depending on how much room
/// it ended up with.
pub open spec fn panel_of_width(width: int) -> PanelLayout {
    PanelLayout { width: width as i32, sliver: width < SLIVER_THRESHOLD, visible: true }
}

/// A panel squeezed out of the layout.
pub open spec fn hidden_panel(area: int) -> PanelLayout {
    PanelLayout { width: current_width(area) as i32, sliver: false, visible: false }
}

/// The cursor's own panel.
pub open spec fn cursor_panel(area: int) -> PanelLayout {
    PanelLayout { width: current_width(area) as i32, sliver: false, visible: true }
}

/// What the panel at `index` looks like.
pub open spec fn panel_at(area: int, panel_count: nat, cursor: nat, index: int) -> PanelLayout {
    let count = kept(side_budget(area), cursor);
    if index < cursor - count {
        hidden_panel(area)
    } else if index < cursor {
        panel_of_width(taper_width(side_budget(area), count, (cursor - 1 - index) as nat))
    } else if index == cursor {
        cursor_panel(area)
    } else if index <= cursor + right_shown(area, panel_count, cursor) {
        panel_of_width(right_width(mirror(area, cursor), (index - cursor - 1) as nat))
    } else {
        hidden_panel(area)
    }
}

/// Every panel, in panel order.
pub open spec fn planned_panels(area: int, panel_count: nat, cursor: nat) -> Seq<PanelLayout> {
    Seq::new(panel_count, |i: int| panel_at(area, panel_count, cursor, i))
}

/// The pixels that the visible panels take together.
pub open spec fn visible_total(panels: Seq<PanelLayout>) -> int
    decreases panels.len(),
{
    if panels.len() == 0 {
        0
    } else {
        visible_total(panels.drop_last()) + if panels.last().visible {
            panels.last().width as int
        } else {
            0
        }
    }
}

proof fn lemma_taper_total_positive(count: nat)
    requires
        count > 0,
    ensures
        taper_total(count) > 0,
    decreases count,
{
    lemma_pow_positive(TAPER_TENTHS as int, (count - 1) as nat);
    reveal_with_fuel(taper_total, 2);
    if count > 1 {
        lemma_taper_total_positive((count - 1) as nat);
    }
}

/// One weight is never more than all of them, nor negative.
proof fn lemma_taper_weight_bound(count: nat, distance: nat)
    requires
        distance < count,
    ensures
        0 < taper_weight(count, distance) <= taper_total(count),
    decreases count,
{
    let seven = pow(TAPER_TENTHS as int, distance);
    lemma_pow_positive(TAPER_TENTHS as int, distance);
    lemma_pow_positive(10, (count - 1 - distance) as nat);
    assert(seven * pow(10, (count - 1 - distance) as nat) > 0) by (nonlinear_arith)
        requires
            seven > 0,
            pow(10, (count - 1 - distance) as nat) > 0,
    ;
    if distance == count - 1 {
        lemma_pow0(10);
        reveal_with_fuel(taper_total, 2);
        if count > 1 {
            lemma_taper_total_positive((count - 1) as nat);
        }
    } else {
        lemma_taper_weight_bound((count - 1) as nat, distance);
        lemma_pow_positive(TAPER_TENTHS as int, (count - 1) as nat);
        let less = pow(10, (count - 2 - distance) as nat);
        assert(pow(10, (count - 1 - distance) as nat) == 10 * less) by {
            reveal(pow);
        }
        assert(seven * (10 * less) == 10 * (seven * less)) by (nonlinear_arith);
    }
}

/// An ancestor's width is a width: no thinner than a sliver, no wider than the
/// budget.
proof fn lemma_taper_width_bound(budget: int, count: nat, distance: nat)
    requires
        distance < count,
        budget >= SLIVER_MIN,
    ensures
        0 <= budget * taper_weight(count, distance) / taper_total(count) <= budget,
        SLIVER_MIN <= taper_width(budget, count, distance) <= budget,
        budget * taper_weight(count, distance) < (budget + 1) * taper_total(count),
{
    let part = taper_weight(count, distance);
    let whole = taper_total(count);
    lemma_taper_weight_bound(count, distance);
    assert(0 <= budget * part <= whole * budget) by (nonlinear_arith)
        requires
            0 < part <= whole,
            budget >= 0,
    ;
    assert((budget + 1) * whole == whole * budget + whole) by (nonlinear_arith);
    lemma_div_pos_is_pos(budget * part, whole);
    lemma_multiply_divide_le(budget * part, whole, budget);
}

proof fn lemma_total_push(widths: Seq<int>, width: int)
    ensures
        total(widths.push(width)) == total(widths) + width,
{
    assert(widths.push(width).drop_last() =~= widths);
}

/// Widths that are all slivers at least take that much together.
proof fn lemma_total_at_least(widths: Seq<int>)
    requires
        forall|i: int| 0 <= i < widths.len() ==> widths[i] >= SLIVER_MIN,
    ensures
        total(widths) >= SLIVER_MIN * widths.len(),
    decreases widths.len(),
{
    if widths.len() > 0 {
        lemma_total_at_least(widths.drop_last());
    }
}

/// More ancestors than the budget has slivers for never all stay.
proof fn lemma_kept_skips(budget: int, cursor: nat, start: nat)
    requires
        budget >= SLIVER_MIN,
        start <= cursor,
        (start + 1) * SLIVER_MIN > budget,
    ensures
        kept(budget, cursor) == kept(budget, start),
    decreases cursor,
{
    if start < cursor {
        let widths = tapered(budget, cursor);
        assert forall|i: int| 0 <= i < widths.len() implies widths[i] >= SLIVER_MIN by {
            lemma_taper_width_bound(budget, cursor, (cursor - 1 - i) as nat);
        }
        lemma_total_at_least(widths);
        lemma_kept_skips(budget, (cursor - 1) as nat, start);
    }
}

/// What stays is at most what there is, and fits.
proof fn lemma_kept_fits(budget: int, cursor: nat)
    requires
        budget >= 0,
    ensures
        kept(budget, cursor) <= cursor,
        total(tapered(budget, kept(budget, cursor))) <= budget,
    decreases cursor,
{
    if cursor > 0 && total(tapered(budget, cursor)) > budget {
        lemma_kept_fits(budget, (cursor - 1) as nat);
    }
}

/// `base` multiplied by seven `sevens` times and by ten `tens` times.
fn scaled(base: u32, sevens: usize, tens: usize) -> (out: Natural)
    ensures
        out@ == base * (pow(TAPER_TENTHS as int, sevens as nat) * pow(10, tens as nat)),
{
    let mut out: Natural = Natural::from_u32(base);
    let mut i: usize = 0;
    proof {
        lemma_pow0(TAPER_TENTHS as int);
        lemma_pow0(10);
        assert(base * 1 == base);
    }
    while i < sevens
        invariant
            i <= sevens,
            out@ == base * pow(TAPER_TENTHS as int, i as nat),
        decreases sevens - i,
    {
        proof {
            let power = pow(TAPER_TENTHS as int, i as nat);
            assert(pow(TAPER_TENTHS as int, (i + 1) as nat) == TAPER_TENTHS * power) by {
                reveal(pow);
            }
            assert(base * power * 7 == base * (7 * power)) by (nonlinear_arith);
        }
        out = out.times(TAPER_TENTHS);
        i = i + 1;
    }
    let ghost power = pow(TAPER_TENTHS as int, sevens as nat);
    let mut j: usize = 0;
    proof {
        assert(base * (power * 1) == base * power);
    }
    while j < tens
        invariant
            j <= tens,
            out@ == base * (power * pow(10, j as nat)),
        decreases tens - j,
    {
        proof {
            let ten = pow(10, j as nat);
            assert(pow(10, (j + 1) as nat) == 10 * ten) by {
                reveal(pow);
            }
            assert(base * (power * ten) * 10 == base * (power * (10 * ten))) by (nonlinear_arith);
        }
        out = out.times(10);
        j = j + 1;
    }
    out
}

/// The weights of `count` ancestors together.
fn weights(count: usize) -> (out: Natural)
    ensures
        out@ == taper_total(count as nat),
{
    let mut out: Natural = Natural::from_u32(0);
    let mut power: Natural = Natural::from_u32(1);
    let mut i: usize = 0;
    proof {
        lemma_pow0(TAPER_TENTHS as int);
    }
    while i < count
        invariant
            i <= count,
            out@ == taper_total(i as nat),
            power@ == pow(TAPER_TENTHS as int, i as nat),
        decreases count - i,
    {
        proof {
            assert(pow(TAPER_TENTHS as int, (i + 1) as nat) == TAPER_TENTHS * pow(
                TAPER_TENTHS as int,
                i as nat,
            )) by {
                reveal(pow);
            }
        }
        out = out.times(10).plus(&power);
        power = power.times(TAPER_TENTHS);
        i = i + 1;
    }
    out
}

/// A budget too small for a single sliver leaves every ancestor a sliver.
proof fn lemma_taper_width_floor(budget: int, count: nat, distance: nat)
    requires
        distance < count,
        budget < SLIVER_MIN,
    ensures
        taper_width(budget, count, distance) == SLIVER_MIN,
{
    let part = taper_weight(count, distance);
    let whole = taper_total(count);
    lemma_taper_weight_bound(count, distance);
    assert(budget * part <= whole * SLIVER_MIN) by (nonlinear_arith)
        requires
            0 < part <= whole,
            budget < SLIVER_MIN,
            SLIVER_MIN == 12,
    ;
    lemma_div_is_ordered(budget * part, whole * SLIVER_MIN, whole);
    lemma_multiply_divide_le(whole * SLIVER_MIN, whole, SLIVER_MIN as int);
}

/// Splits `budget` between `count` ancestors, tapering towards the left.
/// Index 0 is the leftmost and thinnest.
///
/// Widths are floored rather than rounded: rounding several ancestors up can
/// overshoot the budget by a pixel and evict a column for no reason. The
/// leftover pixels go to the gutter.
pub fn taper(budget: i32, count: usize) -> (widths: Vec<i32>)
    ensures
        widths@.len() == count,
        widths@.map_values(|w: i32| w as int) == tapered(budget as int, count as nat),
{
    let mut widths: Vec<i32> = Vec::new();
    if (budget as i64) < SLIVER_MIN {
        let mut i: usize = 0;
        while i < count
            invariant
                budget < SLIVER_MIN,
                i <= count,
                widths@.len() == i,
                forall|j: int|
                    0 <= j < i ==> widths@[j] == taper_width(
                        budget as int,
                        count as nat,
                        (count - 1 - j) as nat,
                    ),
            decreases count - i,
        {
            proof {
                lemma_taper_width_floor(budget as int, count as nat, (count - 1 - i) as nat);
            }
            widths.push(SLIVER_MIN as i32);
            i = i + 1;
        }
    } else if count > 0 {
        let whole: Natural = weights(count);
        let mut i: usize = 0;
        while i < count
            invariant
                budget >= SLIVER_MIN,
                i <= count,
                count > 0,
                whole@ == taper_total(count as nat),
                widths@.len() == i,
                forall|j: int|
                    0 <= j < i ==> widths@[j] == taper_width(
                        budget as int,
                        count as nat,
                        (count - 1 - j) as nat,
                    ),
            decreases count - i,
        {
            let distance: usize = count - 1 - i;
            proof {
                lemma_taper_width_bound(budget as int, count as nat, distance as nat);
                lemma_taper_total_positive(count as nat);
            }
            let share: u32 = scaled(budget as u32, distance, i).over(&whole, budget as u32);
            let width: i32 = share as i32;
            if (width as i64) < SLIVER_MIN {
                widths.push(SLIVER_MIN as i32);
            } else {
                widths.push(width);
            }
            i = i + 1;
        }
    }
    assert(widths@.map_values(|w: i32| w as int) =~= tapered(budget as int, count as nat));
    widths
}

/// Seven to a power never exceeds ten to it.
proof fn lemma_pow_seven_ten(step: nat)
    ensures
        0 < pow(TAPER_TENTHS as int, step) <= pow(10, step),
    decreases step,
{
    reveal(pow);
    lemma_pow_positive(TAPER_TENTHS as int, step);
    if step > 0 {
        lemma_pow_seven_ten((step - 1) as nat);
    }
}

/// A panel right of the cursor is never wider than the one it tapers from.
proof fn lemma_right_width_bound(mirror: int, step: nat)
    requires
        mirror >= 0,
    ensures
        0 <= mirror * pow(TAPER_TENTHS as int, step) / pow(10, step) <= mirror,
        mirror * pow(TAPER_TENTHS as int, step) < (mirror + 1) * pow(10, step),
{
    let seven = pow(TAPER_TENTHS as int, step);
    let ten = pow(10, step);
    lemma_pow_seven_ten(step);
    assert(0 <= mirror * seven <= ten * mirror) by (nonlinear_arith)
        requires
            0 < seven <= ten,
            mirror >= 0,
    ;
    assert((mirror + 1) * ten == ten * mirror + ten) by (nonlinear_arith);
    lemma_div_pos_is_pos(mirror * seven, ten);
    lemma_multiply_divide_le(mirror * seven, ten, mirror);
}

/// Right of the cursor, each panel is no wider than the one before it.
proof fn lemma_right_width_tapers(mirror: int, step: nat)
    requires
        mirror >= 0,
    ensures
        mirror * pow(TAPER_TENTHS as int, (step + 1) as nat) / pow(10, (step + 1) as nat) <= mirror
            * pow(TAPER_TENTHS as int, step) / pow(10, step),
{
    let seven = pow(TAPER_TENTHS as int, step);
    let ten = pow(10, step);
    lemma_pow_seven_ten(step);
    assert(pow(TAPER_TENTHS as int, (step + 1) as nat) == 7 * seven) by {
        reveal(pow);
    }
    assert(pow(10, (step + 1) as nat) == 10 * ten) by {
        reveal(pow);
    }
    assert(mirror * (7 * seven) <= 10 * (mirror * seven)) by (nonlinear_arith)
        requires
            mirror >= 0,
            seven > 0,
    ;
    lemma_div_is_ordered(mirror * (7 * seven), 10 * (mirror * seven), 10 * ten);
    lemma_div_multiples_vanish_quotient(10, mirror * seven, ten);
}

/// Adding panels only adds width.
proof fn lemma_right_total_grows(mirror: int, a: nat, b: nat)
    requires
        a <= b,
    ensures
        total(right_tapered(mirror, a)) <= total(right_tapered(mirror, b)),
    decreases b,
{
    if a < b {
        let less = (b - 1) as nat;
        lemma_right_total_grows(mirror, a, less);
        assert(right_tapered(mirror, b) =~= right_tapered(mirror, less).push(
            right_width(mirror, less),
        ));
        lemma_total_push(right_tapered(mirror, less), right_width(mirror, less));
    }
}

/// The panels shown are the longest run that fits.
proof fn lemma_shown_is(mirror: int, budget: int, count: nat, fitting: nat)
    requires
        fitting <= count,
        total(right_tapered(mirror, fitting)) <= budget,
        fitting == count || total(right_tapered(mirror, fitting + 1)) > budget,
    ensures
        shown(mirror, budget, count) == fitting,
    decreases count,
{
    if fitting < count {
        lemma_right_total_grows(mirror, fitting + 1, count);
        if fitting + 1 < count {
            lemma_shown_is(mirror, budget, (count - 1) as nat, fitting);
        } else {
            assert(shown(mirror, budget, fitting) == fitting);
        }
    }
}

/// What is shown is at most what there is, and fits.
proof fn lemma_shown_fits(mirror: int, budget: int, count: nat)
    requires
        budget >= 0,
    ensures
        shown(mirror, budget, count) <= count,
        total(right_tapered(mirror, shown(mirror, budget, count))) <= budget,
    decreases count,
{
    if count > 0 && total(right_tapered(mirror, count)) > budget {
        lemma_shown_fits(mirror, budget, (count - 1) as nat);
    }
}

/// There is no width under nothing to taper from: such a panel is a sliver, and
/// so is each that follows it.
proof fn lemma_right_width_floor(mirror: int, step: nat)
    requires
        mirror < 0,
    ensures
        right_width(mirror, step) == right_width(0, step),
{
    let seven = pow(TAPER_TENTHS as int, step);
    let ten = pow(10, step);
    lemma_pow_seven_ten(step);
    assert(mirror * seven <= 0 * seven) by (nonlinear_arith)
        requires
            mirror < 0,
            seven > 0,
    ;
    lemma_div_is_ordered(mirror * seven, 0, ten);
    lemma_div_of0(ten);
}

/// Without room for anything nothing is shown.
proof fn lemma_nothing_shown(mirror: int, budget: int, count: nat)
    requires
        budget < 0,
    ensures
        shown(mirror, budget, count) == 0,
    decreases count,
{
    if count > 0 {
        lemma_right_total_grows(mirror, 0, count);
        assert(right_tapered(mirror, 0) =~= Seq::<int>::empty());
        lemma_nothing_shown(mirror, budget, (count - 1) as nat);
    }
}

/// Widths for the `count` panels right of the cursor, as many as fit in
/// `budget`: the first matches `mirror`, the rest taper away from it.
pub fn right_widths(mirror: i32, count: usize, budget: i32) -> (widths: Vec<i32>)
    ensures
        widths@.map_values(|w: i32| w as int) == right_tapered(
            mirror as int,
            shown(mirror as int, budget as int, count as nat),
        ),
{
    if budget < 0 {
        let none: Vec<i32> = Vec::new();
        proof {
            lemma_nothing_shown(mirror as int, budget as int, count as nat);
            assert(none@.map_values(|w: i32| w as int) =~= right_tapered(mirror as int, 0));
        }
        return none;
    }
    if mirror < 0 {
        proof {
            lemma_shown_floor(mirror as int, budget as int, count as nat);
        }
        return tapering_from(0, count, budget);
    }
    tapering_from(mirror, count, budget)
}

/// As many panels tapering away from `mirror` are shown as from nothing, if that
/// is less than nothing, and they look the same.
proof fn lemma_shown_floor(mirror: int, budget: int, count: nat)
    requires
        mirror < 0,
    ensures
        shown(mirror, budget, count) == shown(0, budget, count),
        right_tapered(mirror, shown(mirror, budget, count)) == right_tapered(
            0,
            shown(0, budget, count),
        ),
    decreases count,
{
    assert(right_tapered(mirror, count) =~= right_tapered(0, count)) by {
        assert forall|i: int| 0 <= i < count implies #[trigger] right_tapered(mirror, count)[i]
            == right_tapered(0, count)[i] by {
            lemma_right_width_floor(mirror, i as nat);
        }
    }
    if count > 0 {
        lemma_shown_floor(mirror, budget, (count - 1) as nat);
    }
}

/// Widths for the panels right of the cursor where there is something to taper
/// from and something to fit into.
fn tapering_from(mirror: i32, count: usize, budget: i32) -> (widths: Vec<i32>)
    requires
        mirror >= 0,
        budget >= 0,
    ensures
        widths@.map_values(|w: i32| w as int) == right_tapered(
            mirror as int,
            shown(mirror as int, budget as int, count as nat),
        ),
{
    let mut widths: Vec<i32> = Vec::new();
    let mut sum: i64 = 0;
    let mut above: Natural = Natural::from_u32(mirror as u32);
    let mut below: Natural = Natural::from_u32(1);
    let mut thin: bool = false;
    let mut i: usize = 0;
    proof {
        lemma_pow0(TAPER_TENTHS as int);
        lemma_pow0(10);
        assert(mirror * 1 == mirror);
        assert(right_tapered(mirror as int, 0) =~= Seq::<int>::empty());
    }
    while i < count
        invariant
            mirror >= 0,
            0 <= sum <= budget,
            i <= count,
            widths@.len() == i,
            forall|j: int| 0 <= j < i ==> widths@[j] == right_width(mirror as int, j as nat),
            sum == total(right_tapered(mirror as int, i as nat)),
            thin ==> mirror * pow(TAPER_TENTHS as int, i as nat) / pow(10, i as nat) <= SLIVER_MIN,
            !thin ==> above@ == mirror * pow(TAPER_TENTHS as int, i as nat),
            !thin ==> below@ == pow(10, i as nat),
        decreases count - i,
    {
        proof {
            lemma_right_width_bound(mirror as int, i as nat);
            lemma_right_width_tapers(mirror as int, i as nat);
            lemma_pow_seven_ten(i as nat);
            assert(right_tapered(mirror as int, (i + 1) as nat) =~= right_tapered(
                mirror as int,
                i as nat,
            ).push(right_width(mirror as int, i as nat)));
            lemma_total_push(
                right_tapered(mirror as int, i as nat),
                right_width(mirror as int, i as nat),
            );
        }
        let mut width: i32 = SLIVER_MIN as i32;
        if !thin {
            let share: u32 = above.over(&below, mirror as u32);
            if share as i64 <= SLIVER_MIN {
                thin = true;
            } else {
                width = share as i32;
            }
        }
        if sum + width as i64 > budget as i64 {
            proof {
                lemma_shown_is(mirror as int, budget as int, count as nat, i as nat);
            }
            assert(widths@.map_values(|w: i32| w as int) =~= right_tapered(
                mirror as int,
                i as nat,
            ));
            return widths;
        }
        proof {
            let seven = pow(TAPER_TENTHS as int, i as nat);
            assert(pow(TAPER_TENTHS as int, (i + 1) as nat) == 7 * seven) by {
                reveal(pow);
            }
            assert(pow(10, (i + 1) as nat) == 10 * pow(10, i as nat)) by {
                reveal(pow);
            }
            assert(mirror * seven * 7 == mirror * (7 * seven)) by (nonlinear_arith);
        }
        sum = sum + width as i64;
        widths.push(width);
        if !thin {
            above = above.times(TAPER_TENTHS);
            below = below.times(10);
        }
        i = i + 1;
    }
    proof {
        lemma_shown_is(mirror as int, budget as int, count as nat, i as nat);
    }
    assert(widths@.map_values(|w: i32| w as int) =~= right_tapered(mirror as int, i as nat));
    widths
}

/// A visible panel, showing its listing or a sliver depending on how much room
/// it ended up with.
pub fn sized(width: i32) -> (panel: PanelLayout)
    ensures
        panel == panel_of_width(width as int),
{
    PanelLayout { width, sliver: width < SLIVER_THRESHOLD, visible: true }
}

/// The pixels that some widths take together.
fn sum_of(widths: &Vec<i32>) -> (sum: i64)
    requires
        widths@.len() <= 0x7fff_ffff,
        forall|i: int| 0 <= i < widths@.len() ==> 0 <= widths@[i],
    ensures
        sum == total(widths@.map_values(|w: i32| w as int)),
{
    let ghost all = widths@.map_values(|w: i32| w as int);
    let mut sum: i64 = 0;
    let mut i: usize = 0;
    while i < widths.len()
        invariant
            i <= widths.len(),
            widths@.len() <= 0x7fff_ffff,
            all == widths@.map_values(|w: i32| w as int),
            forall|i: int| 0 <= i < widths@.len() ==> 0 <= widths@[i],
            sum == total(all.take(i as int)),
            0 <= sum <= i * 0x7fff_ffff,
        decreases widths.len() - i,
    {
        proof {
            assert(all.take(i + 1) =~= all.take(i as int).push(all[i as int]));
            lemma_total_push(all.take(i as int), all[i as int]);
        }
        sum = sum + widths[i] as i64;
        i = i + 1;
    }
    assert(all.take(i as int) =~= all);
    sum
}

/// The ancestors that stay on screen, and their widths, the leftmost first.
fn ancestors(budget: i32, cursor: usize) -> (widths: Vec<i32>)
    requires
        budget >= SLIVER_MIN,
    ensures
        widths@.map_values(|w: i32| w as int) == tapered(
            budget as int,
            kept(budget as int, cursor as nat),
        ),
        widths@.len() == kept(budget as int, cursor as nat),
{
    let most: usize = (budget as i64 / SLIVER_MIN) as usize;
    let mut count: usize = if cursor < most {
        cursor
    } else {
        most
    };
    proof {
        if cursor >= most {
            lemma_kept_skips(budget as int, cursor as nat, count as nat);
        }
    }
    while count > 0
        invariant
            budget >= SLIVER_MIN,
            count <= 0x7fff_ffff,
            kept(budget as int, count as nat) == kept(budget as int, cursor as nat),
        decreases count,
    {
        let widths: Vec<i32> = taper(budget, count);
        proof {
            let all = widths@.map_values(|w: i32| w as int);
            assert forall|i: int| 0 <= i < widths@.len() implies 0 <= widths@[i] by {
                assert(all[i] == widths@[i]);
                lemma_taper_width_bound(budget as int, count as nat, (count - 1 - i) as nat);
            }
        }
        if sum_of(&widths) <= budget as i64 {
            return widths;
        }
        count = count - 1;
    }
    taper(budget, 0)
}

/// Plans the widths of `panel_count` panels when the cursor sits on `cursor`.
///
/// Returns `None` when the area is too narrow to be worth laying out; the
/// caller should fall back to uniform columns and let the view scroll.
pub fn solve(area_width: i32, panel_count: usize, cursor: usize) -> (plan: Option<Layout>)
    ensures
        plan is Some <==> laid_out(area_width as int, panel_count as nat, cursor as nat),
        plan matches Some(layout) ==> {
            &&& layout.gutter == gutter(area_width as int, cursor as nat)
            &&& layout.panels@ == planned_panels(
                area_width as int,
                panel_count as nat,
                cursor as nat,
            )
        },
{
    if panel_count == 0 || cursor >= panel_count || (area_width as i64) < CURRENT_MIN {
        return None;
    }
    let area: i64 = area_width as i64;
    let share: i64 = area * CURRENT_PERCENT / 100;
    let current: i64 = if share < CURRENT_MIN {
        CURRENT_MIN
    } else if share > CURRENT_MAX {
        CURRENT_MAX
    } else {
        share
    };
    let budget: i64 = (area - current) / 2;
    if budget < SLIVER_MIN {
        return None;
    }
    let ghost a = area_width as int;
    let ghost c = cursor as nat;

    // Left: the ancestors nearest the cursor keep their share, and the oldest
    // drop out once the budget can no longer hold them all.
    let left: Vec<i32> = ancestors(budget as i32, cursor);
    let kept_count: usize = left.len();
    let ghost widths = left@.map_values(|w: i32| w as int);
    proof {
        lemma_kept_fits(budget as int, c);
        assert forall|i: int| 0 <= i < left@.len() implies SLIVER_MIN <= #[trigger] left@[i]
            <= budget by {
            assert(widths[i] == left@[i]);
            lemma_taper_width_bound(budget as int, kept_count as nat, (kept_count - 1 - i) as nat);
        }
        lemma_total_at_least(widths);
    }
    let left_total: i64 = sum_of(&left);

    // With ancestors on screen the gutter is the slack they left, which keeps
    // the cursor column centred. With none, reserving that space would only
    // park the listing behind a third of a window of nothing, so the columns go
    // left instead and the room goes to the right of the cursor.
    let margin: i64 = if kept_count == 0 {
        0
    } else {
        budget - left_total
    };

    // What is actually left once the left side has taken its share. It equals
    // the side budget whenever the gutter is centring the layout, and doubles
    // when there is no gutter.
    let space: i64 = area - margin - left_total - current;
    if space < PREVIEW_MIN || (kept_count > 0 && budget < PREVIEW_MIN) {
        return None;
    }

    // Right: the first panel mirrors the nearest ancestor and deeper ones keep
    // tapering, but they may never eat into the preview's floor.
    let first: i64 = if kept_count == 0 {
        budget * NO_PARENT_CHILD_PERCENT / 100
    } else {
        left[kept_count - 1] as i64
    };
    proof {
        if kept_count > 0 {
            assert(widths[kept_count - 1] == left@[kept_count - 1]);
        }
        assert(first == mirror(a, c));
    }
    let right: Vec<i32> = right_widths(
        first as i32,
        panel_count - cursor - 1,
        (space - PREVIEW_MIN) as i32,
    );
    let ghost right_all = right@.map_values(|w: i32| w as int);
    proof {
        lemma_shown_fits(first as int, right_budget(a, c), (panel_count - cursor - 1) as nat);
        assert(right_all.len() == right_shown(a, panel_count as nat, c));
    }

    let dropped: usize = cursor - kept_count;
    let mut panels: Vec<PanelLayout> = Vec::new();
    let mut i: usize = 0;
    while i < panel_count
        invariant
            i <= panel_count,
            cursor < panel_count,
            a == area_width,
            c == cursor,
            current == current_width(a),
            0 <= current <= CURRENT_MAX,
            budget == side_budget(a),
            kept_count == kept(budget as int, c),
            kept_count == left@.len(),
            kept_count <= cursor,
            dropped == cursor - kept_count,
            widths == left@.map_values(|w: i32| w as int),
            widths == tapered(budget as int, kept_count as nat),
            right_all == right@.map_values(|w: i32| w as int),
            right_all == right_tapered(mirror(a, c), right_shown(a, panel_count as nat, c)),
            right@.len() <= panel_count - cursor - 1,
            panels@.len() == i,
            forall|j: int|
                0 <= j < i ==> panels@[j] == panel_at(a, panel_count as nat, c, j),
        decreases panel_count - i,
    {
        proof {
            assert(right_all.len() == right@.len());
            assert(widths.len() == left@.len());
        }
        if i < dropped {
            panels.push(PanelLayout { width: current as i32, sliver: false, visible: false });
        } else if i < cursor {
            assert(widths[i - dropped] == left@[i - dropped]);
            assert(kept_count - 1 - (i - dropped) == cursor - 1 - i);
            panels.push(sized(left[i - dropped]));
        } else if i == cursor {
            panels.push(PanelLayout { width: current as i32, sliver: false, visible: true });
        } else if i - cursor - 1 < right.len() {
            assert(right_all[i - cursor - 1] == right@[i - cursor - 1]);
            assert(right_all[i - cursor - 1] == right_width(
                mirror(a, c),
                (i - cursor - 1) as nat,
            ));
            panels.push(sized(right[i - cursor - 1]));
        } else {
            panels.push(PanelLayout { width: current as i32, sliver: false, visible: false });
        }
        i = i + 1;
    }
    assert(panels@ =~= planned_panels(a, panel_count as nat, c));
    Some(Layout { gutter: margin as i32, panels })
}

proof fn lemma_visible_total_concat(a: Seq<PanelLayout>, b: Seq<PanelLayout>)
    ensures
        visible_total(a + b) == visible_total(a) + visible_total(b),
    decreases b.len(),
{
    if b.len() == 0 {
        assert(a + b =~= a);
    } else {
        assert((a + b).drop_last() =~= a + b.drop_last());
        lemma_visible_total_concat(a, b.drop_last());
    }
}

proof fn lemma_visible_total_hidden(panels: Seq<PanelLayout>)
    requires
        forall|i: int| 0 <= i < panels.len() ==> !(#[trigger] panels[i]).visible,
    ensures
        visible_total(panels) == 0,
    decreases panels.len(),
{
    if panels.len() > 0 {
        lemma_visible_total_hidden(panels.drop_last());
    }
}

proof fn lemma_visible_total_widths(panels: Seq<PanelLayout>, widths: Seq<int>)
    requires
        panels.len() == widths.len(),
        forall|i: int|
            0 <= i < panels.len() ==> (#[trigger] panels[i]).visible && panels[i].width
                == widths[i],
    ensures
        visible_total(panels) == total(widths),
    decreases panels.len(),
{
    if panels.len() > 0 {
        lemma_visible_total_widths(panels.drop_last(), widths.drop_last());
    }
}

/// Nothing in a layout is wider than the area, so every width is the number it
/// is meant to be.
proof fn lemma_widths_fit(area: int, cursor: nat)
    requires
        CURRENT_MIN <= area <= i32::MAX,
        side_budget(area) >= SLIVER_MIN,
    ensures
        side_budget(area) <= area / 2,
        0 <= mirror(area, cursor) <= area,
        CURRENT_MIN <= current_width(area) <= CURRENT_MAX,
{
    lemma_kept_fits(side_budget(area), cursor);
    let count = kept(side_budget(area), cursor);
    if count > 0 {
        lemma_taper_width_bound(side_budget(area), count, 0);
    }
}

/// The three parts of a layout: what the panels left of the cursor, the
/// cursor's own and those right of it take.
proof fn lemma_layout_parts(area: int, panel_count: nat, cursor: nat)
    requires
        area <= i32::MAX,
        laid_out(area, panel_count, cursor),
    ensures
        visible_total(planned_panels(area, panel_count, cursor).take(cursor as int))
            == ancestors_total(area, cursor),
        visible_total(planned_panels(area, panel_count, cursor)) == ancestors_total(area, cursor)
            + current_width(area) + total(
            right_tapered(mirror(area, cursor), right_shown(area, panel_count, cursor)),
        ),
{
    let panels = planned_panels(area, panel_count, cursor);
    let budget = side_budget(area);
    let count = kept(budget, cursor);
    let more = right_shown(area, panel_count, cursor);
    lemma_widths_fit(area, cursor);
    lemma_kept_fits(budget, cursor);
    lemma_shown_fits(
        mirror(area, cursor),
        right_budget(area, cursor),
        (panel_count - cursor - 1) as nat,
    );

    let dropped = panels.take(cursor - count);
    let left = panels.subrange(cursor - count, cursor as int);
    let own = panels.subrange(cursor as int, cursor as int + 1);
    let right = panels.subrange(cursor as int + 1, cursor as int + 1 + more);
    let rest = panels.subrange(cursor as int + 1 + more, panel_count as int);
    lemma_visible_total_hidden(dropped);
    assert forall|i: int| 0 <= i < left.len() implies (#[trigger] left[i]).visible && left[i].width
        == tapered(budget, count)[i] by {
        lemma_taper_width_bound(budget, count, (count - 1 - i) as nat);
    }
    lemma_visible_total_widths(left, tapered(budget, count));
    assert(panels.take(cursor as int) =~= dropped + left);
    lemma_visible_total_concat(dropped, left);

    assert(own =~= seq![cursor_panel(area)]);
    lemma_visible_total_widths(own, seq![current_width(area)]);
    assert(total(seq![current_width(area)]) == current_width(area)) by {
        assert(seq![current_width(area)] =~= Seq::<int>::empty().push(current_width(area)));
        lemma_total_push(Seq::<int>::empty(), current_width(area));
    }
    assert forall|i: int| 0 <= i < right.len() implies (#[trigger] right[i]).visible
        && right[i].width == right_tapered(mirror(area, cursor), more)[i] by {
        lemma_right_width_bound(mirror(area, cursor), i as nat);
    }
    lemma_visible_total_widths(right, right_tapered(mirror(area, cursor), more));
    lemma_visible_total_hidden(rest);
    assert(panels =~= dropped + left + own + right + rest);
    lemma_visible_total_concat(dropped + left, own);
    lemma_visible_total_concat(dropped + left + own, right);
    lemma_visible_total_concat(dropped + left + own + right, rest);
}

/// Whatever is laid out fits inside the area it was given, the preview's floor
/// and the gutter with it. Anything wider would overflow past the scroller and
/// clip the preview at the window edge.
pub proof fn law_a_layout_fits(area: int, panel_count: nat, cursor: nat)
    requires
        area <= i32::MAX,
        laid_out(area, panel_count, cursor),
    ensures
        gutter(area, cursor) >= 0,
        gutter(area, cursor) + visible_total(planned_panels(area, panel_count, cursor))
            + PREVIEW_MIN <= area,
{
    lemma_layout_parts(area, panel_count, cursor);
    lemma_kept_fits(side_budget(area), cursor);
    lemma_shown_fits(
        mirror(area, cursor),
        right_budget(area, cursor),
        (panel_count - cursor - 1) as nat,
    );
}

/// A single ancestor always fits, so one is on screen whenever there is one.
proof fn lemma_one_ancestor_stays(budget: int, cursor: nat)
    requires
        budget >= SLIVER_MIN,
        cursor > 0,
    ensures
        kept(budget, cursor) > 0,
    decreases cursor,
{
    if cursor == 1 {
        assert(tapered(budget, 1) =~= Seq::<int>::empty().push(taper_width(budget, 1, 0)));
        lemma_total_push(Seq::<int>::empty(), taper_width(budget, 1, 0));
        lemma_taper_width_bound(budget, 1, 0);
    } else if total(tapered(budget, cursor)) > budget {
        lemma_one_ancestor_stays(budget, (cursor - 1) as nat);
    }
}

/// From the first level down the nearest ancestor is on screen, and the gutter
/// and the ancestors fill exactly the side budget, which is what puts the
/// cursor's column in the middle.
pub proof fn law_the_cursor_column_is_centred(area: int, panel_count: nat, cursor: nat)
    requires
        area <= i32::MAX,
        laid_out(area, panel_count, cursor),
        cursor > 0,
    ensures
        planned_panels(area, panel_count, cursor)[cursor - 1].visible,
        gutter(area, cursor) + visible_total(
            planned_panels(area, panel_count, cursor).take(cursor as int),
        ) == (area - planned_panels(area, panel_count, cursor)[cursor as int].width) / 2,
{
    lemma_layout_parts(area, panel_count, cursor);
    lemma_widths_fit(area, cursor);
    lemma_one_ancestor_stays(side_budget(area), cursor);
}

/// The root column has nothing to be centred against and hugs the left edge.
pub proof fn law_the_root_column_hugs_the_left_edge(area: int)
    ensures
        gutter(area, 0) == 0,
{
}

/// The cursor's own column is always a listing, within its bounds.
pub proof fn law_the_cursor_column_is_a_listing(area: int, panel_count: nat, cursor: nat)
    requires
        laid_out(area, panel_count, cursor),
    ensures
        ({
            let panel = planned_panels(area, panel_count, cursor)[cursor as int];
            &&& panel.visible
            &&& !panel.sliver
            &&& CURRENT_MIN <= panel.width <= CURRENT_MAX
        }),
{
}

/// Ancestors on screen are never narrower than the one to their left.
pub proof fn law_ancestors_thin_out_towards_the_left(
    area: int,
    panel_count: nat,
    cursor: nat,
    i: int,
)
    requires
        area <= i32::MAX,
        laid_out(area, panel_count, cursor),
        0 <= i,
        i + 1 < cursor,
        planned_panels(area, panel_count, cursor)[i].visible,
    ensures
        planned_panels(area, panel_count, cursor)[i + 1].visible,
        planned_panels(area, panel_count, cursor)[i].width <= planned_panels(
            area,
            panel_count,
            cursor,
        )[i + 1].width,
{
    let budget = side_budget(area);
    let count = kept(budget, cursor);
    let far = (cursor - 1 - i) as nat;
    let near = (cursor - 2 - i) as nat;
    lemma_widths_fit(area, cursor);
    lemma_kept_fits(budget, cursor);
    lemma_taper_width_bound(budget, count, far);
    lemma_taper_width_bound(budget, count, near);
    lemma_taper_total_positive(count);
    let seven = pow(TAPER_TENTHS as int, near);
    let ten = pow(10, (count - 1 - far) as nat);
    lemma_pow_positive(TAPER_TENTHS as int, near);
    lemma_pow_positive(10, (count - 1 - far) as nat);
    assert(pow(TAPER_TENTHS as int, far) == 7 * seven) by {
        reveal(pow);
    }
    assert(pow(10, (count - 1 - near) as nat) == 10 * ten) by {
        reveal(pow);
    }
    assert((7 * seven) * ten <= seven * (10 * ten)) by (nonlinear_arith)
        requires
            seven > 0,
            ten > 0,
    ;
    assert(budget * taper_weight(count, far) <= budget * taper_weight(count, near))
        by (nonlinear_arith)
        requires
            taper_weight(count, far) <= taper_weight(count, near),
            budget >= 0,
    ;
    lemma_div_is_ordered(
        budget * taper_weight(count, far),
        budget * taper_weight(count, near),
        taper_total(count),
    );
}

/// The panel right of the cursor, when shown, is as wide as the nearest
/// ancestor.
pub proof fn law_the_child_panel_mirrors_the_nearest_ancestor(
    area: int,
    panel_count: nat,
    cursor: nat,
)
    requires
        area <= i32::MAX,
        laid_out(area, panel_count, cursor),
        cursor > 0,
        cursor + 1 < panel_count,
        planned_panels(area, panel_count, cursor)[cursor as int + 1].visible,
    ensures
        planned_panels(area, panel_count, cursor)[cursor as int + 1] == planned_panels(
            area,
            panel_count,
            cursor,
        )[cursor - 1],
{
    let budget = side_budget(area);
    lemma_one_ancestor_stays(budget, cursor);
    lemma_taper_width_bound(budget, kept(budget, cursor), 0);
    let first = mirror(area, cursor);
    lemma_pow0(TAPER_TENTHS as int);
    lemma_pow0(10);
    assert(first * 1 == first);
    assert(first / 1 == first);
}

/// Right of the cursor, panels on screen are never wider than the one before.
pub proof fn law_right_panels_taper_away(area: int, panel_count: nat, cursor: nat, i: int)
    requires
        area <= i32::MAX,
        laid_out(area, panel_count, cursor),
        cursor < i,
        i + 1 < panel_count,
        planned_panels(area, panel_count, cursor)[i + 1].visible,
    ensures
        planned_panels(area, panel_count, cursor)[i].visible,
        planned_panels(area, panel_count, cursor)[i + 1].width <= planned_panels(
            area,
            panel_count,
            cursor,
        )[i].width,
{
    let first = mirror(area, cursor);
    let step = (i - cursor - 1) as nat;
    lemma_widths_fit(area, cursor);
    lemma_right_width_bound(first, step);
    lemma_right_width_bound(first, (step + 1) as nat);
    lemma_right_width_tapers(first, step);
}

/// Every panel on screen but the cursor's is a sliver exactly when it is too
/// narrow for a listing, and none is thinner than the thinnest sliver.
pub proof fn law_slivers_are_the_narrow_panels(
    area: int,
    panel_count: nat,
    cursor: nat,
    i: int,
)
    requires
        area <= i32::MAX,
        laid_out(area, panel_count, cursor),
        0 <= i < panel_count,
        planned_panels(area, panel_count, cursor)[i].visible,
    ensures
        planned_panels(area, panel_count, cursor)[i].sliver <==> planned_panels(
            area,
            panel_count,
            cursor,
        )[i].width < SLIVER_THRESHOLD,
        planned_panels(area, panel_count, cursor)[i].width >= SLIVER_MIN,
{
    let budget = side_budget(area);
    let count = kept(budget, cursor);
    lemma_widths_fit(area, cursor);
    lemma_kept_fits(budget, cursor);
    if i < cursor {
        lemma_taper_width_bound(budget, count, (cursor - 1 - i) as nat);
    } else if i > cursor {
        lemma_right_width_bound(mirror(area, cursor), (i - cursor - 1) as nat);
    }
}

/// No column is evicted while there is room for it: one more ancestor than
/// those on screen would overrun the budget.
pub proof fn law_no_ancestor_is_dropped_needlessly(budget: int, cursor: nat, more: nat)
    requires
        kept(budget, cursor) < more <= cursor,
    ensures
        total(tapered(budget, more)) > budget,
    decreases cursor,
{
    if more < cursor {
        law_no_ancestor_is_dropped_needlessly(budget, (cursor - 1) as nat, more);
    }
}

/// No panel right of the cursor is hidden while there is room for it: one more
/// than those on screen would eat into the preview's floor.
pub proof fn law_no_right_panel_is_dropped_needlessly(
    mirror: int,
    budget: int,
    count: nat,
    more: nat,
)
    requires
        shown(mirror, budget, count) < more <= count,
    ensures
        total(right_tapered(mirror, more)) > budget,
    decreases count,
{
    if more < count {
        law_no_right_panel_is_dropped_needlessly(mirror, budget, (count - 1) as nat, more);
    }
}

/// Where the layout is declined: below an ancestor the preview's floor has to fit
/// into the budget of a side, at the root into all that the cursor's column leaves.
/// Below an ancestor that declines every area narrower than 660 pixels, and no
/// other.
pub proof fn law_when_there_is_no_layout(area: int, panel_count: nat, cursor: nat)
    requires
        cursor < panel_count,
        area <= i32::MAX,
    ensures
        cursor > 0 ==> (laid_out(area, panel_count, cursor) <==> side_budget(area)
            >= PREVIEW_MIN),
        cursor > 0 ==> (laid_out(area, panel_count, cursor) <==> area >= 660),
        cursor == 0 ==> (laid_out(area, panel_count, cursor) <==> area - current_width(area)
            >= PREVIEW_MIN),
{
    let budget = side_budget(area);
    if cursor > 0 && budget >= SLIVER_MIN {
        lemma_one_ancestor_stays(budget, cursor);
    }
    assert(tapered(budget, 0) =~= Seq::<int>::empty());
}

/// The cursor's column takes three tenths of the area, floored, but no less than 260
/// and no more than 520 pixels. Both sides get the same of what is left, to the pixel
/// that halving leaves over.
pub proof fn law_the_cursor_column_takes_three_tenths(area: int)
    ensures
        area * 30 < 260 * 100 ==> current_width(area) == 260,
        area * 30 >= 520 * 100 ==> current_width(area) == 520,
        260 * 100 <= area * 30 < 520 * 100 ==> current_width(area) * 100 <= area * 30 < (
        current_width(area) + 1) * 100,
        area - 1 <= current_width(area) + 2 * side_budget(area) <= area,
{
}

proof fn lemma_floor_is(top: int, bottom: int)
    requires
        bottom > 0,
    ensures
        top / bottom * bottom <= top < (top / bottom + 1) * bottom,
{
    lemma_fundamental_div_mod(top, bottom);
    let quotient = top / bottom;
    assert(quotient * bottom == bottom * quotient) by (nonlinear_arith);
    assert((quotient + 1) * bottom == bottom * quotient + bottom) by (nonlinear_arith);
}

/// Each ancestor weighs seven tenths of the one to its right.
pub proof fn law_each_ancestor_weighs_seven_tenths(count: nat, distance: nat)
    requires
        distance < count,
    ensures
        taper_weight(count, distance) > 0,
        distance + 1 < count ==> 10 * taper_weight(count, distance + 1) == 7 * taper_weight(
            count,
            distance,
        ),
{
    lemma_taper_weight_bound(count, distance);
    if distance + 1 < count {
        let seven = pow(TAPER_TENTHS as int, distance);
        let ten = pow(10, (count - 2 - distance) as nat);
        assert(pow(TAPER_TENTHS as int, distance + 1) == 7 * seven) by {
            reveal(pow);
        }
        assert(pow(10, (count - 1 - distance) as nat) == 10 * ten) by {
            reveal(pow);
        }
        assert(10 * ((7 * seven) * ten) == 7 * (seven * (10 * ten))) by (nonlinear_arith);
    }
}

proof fn lemma_total_scales(widths: Seq<int>, larger: Seq<int>)
    requires
        larger.len() == widths.len(),
        forall|i: int| 0 <= i < widths.len() ==> larger[i] == 10 * #[trigger] widths[i],
    ensures
        total(larger) == 10 * total(widths),
    decreases widths.len(),
{
    if widths.len() > 0 {
        assert(larger[widths.len() - 1] == 10 * widths[widths.len() - 1]);
        assert forall|i: int| 0 <= i < widths.drop_last().len() implies larger.drop_last()[i] == 10
            * #[trigger] widths.drop_last()[i] by {
            assert(larger[i] == 10 * widths[i]);
        }
        lemma_total_scales(widths.drop_last(), larger.drop_last());
    }
}

/// What the weights are measured by is all of them together.
pub proof fn law_the_weights_make_up_the_whole(count: nat)
    ensures
        total(Seq::new(count, |i: int| taper_weight(count, i as nat))) == taper_total(count),
    decreases count,
{
    let weights = Seq::new(count, |i: int| taper_weight(count, i as nat));
    if count > 0 {
        let fewer = (count - 1) as nat;
        let before = Seq::new(fewer, |i: int| taper_weight(fewer, i as nat));
        law_the_weights_make_up_the_whole(fewer);
        assert forall|i: int| 0 <= i < before.len() implies weights.drop_last()[i] == 10
            * #[trigger] before[i] by {
            let seven = pow(TAPER_TENTHS as int, i as nat);
            let ten = pow(10, (fewer - 1 - i) as nat);
            assert(pow(10, (count - 1 - i) as nat) == 10 * ten) by {
                reveal(pow);
            }
            assert(seven * (10 * ten) == 10 * (seven * ten)) by (nonlinear_arith);
        }
        lemma_total_scales(before, weights.drop_last());
        lemma_pow0(10);
        let last = pow(TAPER_TENTHS as int, fewer);
        assert(last * 1 == last);
        assert(weights.last() == last);
    }
}

/// An ancestor gets its share of the budget, floored, but never less than twelve
/// pixels; the nearest one stands rightmost.
pub proof fn law_an_ancestor_gets_its_share(budget: int, count: nat, i: int)
    requires
        0 <= i < count,
        budget >= 0,
    ensures
        tapered(budget, count).len() == count,
        ({
            let width = tapered(budget, count)[i];
            let share = budget * taper_weight(count, (count - 1 - i) as nat);
            &&& width >= 12
            &&& width > 12 ==> width * taper_total(count) <= share
            &&& share < (width + 1) * taper_total(count)
        }),
        taper_total(count) > 0,
{
    let share = budget * taper_weight(count, (count - 1 - i) as nat);
    let whole = taper_total(count);
    lemma_taper_total_positive(count);
    lemma_floor_is(share, whole);
    let width = tapered(budget, count)[i];
    let exact = share / whole;
    assert((exact + 1) * whole <= (width + 1) * whole) by (nonlinear_arith)
        requires
            exact <= width,
            whole > 0,
    ;
}

/// Of the ancestors as many stay as fit into the budget of a side. What they leave of
/// it is the gutter, unless there is none of them.
pub proof fn law_the_gutter_fills_up_the_side(area: int, cursor: nat)
    requires
        side_budget(area) >= 0,
    ensures
        ({
            let budget = side_budget(area);
            let count = kept(budget, cursor);
            let widths = tapered(budget, count);
            &&& count <= cursor
            &&& total(widths) <= budget
            &&& count > 0 ==> gutter(area, cursor) + total(widths) == budget
            &&& count == 0 ==> gutter(area, cursor) == 0
            &&& gutter(area, cursor) + total(widths) + current_width(area) + right_space(
                area,
                cursor,
            ) == area
        }),
{
    lemma_kept_fits(side_budget(area), cursor);
}

/// Widths add up.
pub proof fn law_widths_add_up(widths: Seq<int>, width: int)
    ensures
        total(Seq::empty()) == 0,
        total(widths.push(width)) == total(widths) + width,
{
    lemma_total_push(widths, width);
}

/// The first panel right of the cursor is as wide as the nearest ancestor, or takes 45
/// hundredths of the budget of a side where there is none. Each further one tapers from
/// it by seven tenths, floored, but to no less than twelve pixels.
pub proof fn law_right_panels_taper_by_seven_tenths(area: int, cursor: nat, width: int, step: nat)
    requires
        width >= 0,
    ensures
        kept(side_budget(area), cursor) == 0 ==> 100 * mirror(area, cursor) <= 45 * side_budget(
            area,
        ) < 100 * (mirror(area, cursor) + 1),
        kept(side_budget(area), cursor) > 0 ==> mirror(area, cursor) == tapered(
            side_budget(area),
            kept(side_budget(area), cursor),
        ).last(),
        right_tapered(width, step).len() == step,
        ({
            let narrow = right_tapered(width, step + 1)[step as int];
            &&& narrow >= 12
            &&& narrow > 12 ==> narrow * pow(10, step) <= width * pow(7, step)
            &&& width * pow(7, step) < (narrow + 1) * pow(10, step)
        }),
        width >= 12 ==> right_tapered(width, 1)[0] == width,
{
    let seven = pow(7, step);
    let ten = pow(10, step);
    lemma_pow_positive(10, step);
    lemma_floor_is(width * seven, ten);
    let exact = width * seven / ten;
    let narrow = right_tapered(width, step + 1)[step as int];
    assert((exact + 1) * ten <= (narrow + 1) * ten) by (nonlinear_arith)
        requires
            exact <= narrow,
            ten > 0,
    ;
    lemma_pow0(TAPER_TENTHS as int);
    lemma_pow0(10);
    assert(width * 1 == width);
}

/// Right of the cursor the panels get what the preview does not need: all but 200
/// pixels of the space there. As many of them are shown as fit into that.
pub proof fn law_the_preview_keeps_its_room(
    area: int,
    panel_count: nat,
    cursor: nat,
)
    requires
        cursor < panel_count,
    ensures
        right_space(area, cursor) >= 200 ==> right_budget(area, cursor) + 200 == right_space(
            area,
            cursor,
        ),
        right_space(area, cursor) < 200 ==> right_budget(area, cursor) == 0,
        cursor + right_shown(area, panel_count, cursor) < panel_count,
        total(
            right_tapered(mirror(area, cursor), right_shown(area, panel_count, cursor)),
        ) <= right_budget(area, cursor),
{
    lemma_shown_fits(
        mirror(area, cursor),
        right_budget(area, cursor),
        (panel_count - cursor - 1) as nat,
    );
}

/// What each panel of a layout looks like. The ancestors nearest to the cursor that fit
/// and the first panels right of it that fit are shown at their widths, as slivers under
/// 72 pixels; the cursor's is shown as a listing; all others are hidden.
pub proof fn law_each_panel_has_its_place(area: int, panel_count: nat, cursor: nat, i: int)
    requires
        area <= i32::MAX,
        laid_out(area, panel_count, cursor),
        0 <= i < panel_count,
    ensures
        planned_panels(area, panel_count, cursor).len() == panel_count,
        ({
            let panel = planned_panels(area, panel_count, cursor)[i];
            let count = kept(side_budget(area), cursor);
            let widths = tapered(side_budget(area), count);
            let more = right_shown(area, panel_count, cursor);
            let right = right_tapered(mirror(area, cursor), more);
            &&& i < cursor - count || i > cursor + more ==> !panel.visible
            &&& cursor - count <= i <= cursor + more ==> panel.visible
            &&& i == cursor ==> panel.width == current_width(area) && !panel.sliver
            &&& cursor - count <= i < cursor ==> panel.width == widths[i - (cursor - count)]
            &&& cursor < i <= cursor + more ==> panel.width == right[i - cursor - 1]
            &&& i != cursor && panel.visible ==> (panel.sliver <==> panel.width < 72)
        }),
{
    let budget = side_budget(area);
    let count = kept(budget, cursor);
    lemma_widths_fit(area, cursor);
    lemma_kept_fits(budget, cursor);
    if cursor - count <= i < cursor {
        lemma_taper_width_bound(budget, count, (cursor - 1 - i) as nat);
    } else if i > cursor {
        lemma_right_width_bound(mirror(area, cursor), (i - cursor - 1) as nat);
    }
}

/// Visible panels take their width, and hidden ones nothing.
pub proof fn law_hidden_panels_take_nothing(panels: Seq<PanelLayout>, panel: PanelLayout)
    ensures
        visible_total(Seq::empty()) == 0,
        panel.visible ==> visible_total(panels.push(panel)) == visible_total(panels) + panel.width,
        !panel.visible ==> visible_total(panels.push(panel)) == visible_total(panels),
{
    assert(panels.push(panel).drop_last() =~= panels);
}

/// A panel of a given width is shown, as a sliver if that is under 72 pixels.
pub proof fn law_a_narrow_panel_is_a_sliver(width: i32)
    ensures
        panel_of_width(width as int).width == width,
        panel_of_width(width as int).visible,
        panel_of_width(width as int).sliver <==> width < 72,
{
}

} // verus!
