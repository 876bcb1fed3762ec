//! The placement solver: where a piece of content of a given length goes on one
//! axis, relative to a base range and subject to an overflow policy.

use crate::geometry::{AxisRange, Span, COORD_LIMIT};
use vstd::prelude::*;

verus! {

/// Which edge of the base range the content is aligned with.
#[derive(Clone, Copy, Debug, PartialEq, Eq, Structural)]
pub enum Alignment {
    Start,
    Center,
    End,
}

/// Whether the content lies inside the base range or adjacent to it.
#[derive(Clone, Copy, Debug, PartialEq, Eq, Structural)]
pub enum Spread {
    Inside,
    Outside,
}

/// What to do when the desired placement leaves the bounds.
#[derive(Clone, Copy, Debug, PartialEq, Eq, Structural)]
pub enum OverflowPolicy {
    Ignore,
    Shrink,
    Clamp,
    Flip,
}

/// Placement configuration of one axis.
#[derive(Clone, Copy, Debug, PartialEq, Eq, Structural)]
pub struct AxisParam {
    pub alignment: Alignment,
    pub spread: Spread,
    pub offset: i32,
    pub overflow_policy: OverflowPolicy,
}

impl Alignment {
    /// `Start` and `End` swap; `Center` is its own opposite.
    pub open spec fn spec_opposite(self) -> Alignment {
        match self {
            Alignment::Start => Alignment::End,
            Alignment::Center => Alignment::Center,
            Alignment::End => Alignment::Start,
        }
    }

    #[verifier::when_used_as_spec(spec_opposite)]
    pub fn opposite(self) -> (r: Alignment)
        ensures
            r == self.spec_opposite(),
    {
        match self {
            Alignment::Start => Alignment::End,
            Alignment::Center => Alignment::Center,
            Alignment::End => Alignment::Start,
        }
    }
}

impl AxisParam {
    pub fn new(
        alignment: Alignment,
        spread: Spread,
        offset: i32,
        overflow_policy: OverflowPolicy,
    ) -> (p: AxisParam)
        ensures
            p.alignment == alignment,
            p.spread == spread,
            p.offset == offset,
            p.overflow_policy == overflow_policy,
    {
        AxisParam { alignment, spread, offset, overflow_policy }
    }

    /// Below the anchor, pushed back into the bounds when it overflows.
    pub fn vertical_default() -> (p: AxisParam)
        ensures
            p.alignment == Alignment::End,
            p.spread == Spread::Outside,
            p.offset == 0,
            p.overflow_policy == OverflowPolicy::Clamp,
    {
        AxisParam {
            alignment: Alignment::End,
            spread: Spread::Outside,
            offset: 0,
            overflow_policy: OverflowPolicy::Clamp,
        }
    }

    /// Centred on the anchor.
    pub fn horizontal_default() -> (p: AxisParam)
        ensures
            p.alignment == Alignment::Center,
            p.spread == Spread::Inside,
            p.offset == 0,
            p.overflow_policy == OverflowPolicy::Clamp,
    {
        AxisParam {
            alignment: Alignment::Center,
            spread: Spread::Inside,
            offset: 0,
            overflow_policy: OverflowPolicy::Clamp,
        }
    }

    /// The same configuration with another spread.
    pub fn with_spread(self, spread: Spread) -> (p: AxisParam)
        ensures
            p == (AxisParam { spread, ..self }),
    {
        AxisParam { spread, ..self }
    }
}

/// The range of the given length placed relative to `base`, before any
/// overflow policy is applied. A centred range whose slack is odd sits half a
/// unit towards the start.
pub open spec fn desired_span(
    length: int,
    alignment: Alignment,
    spread: Spread,
    offset: int,
    base: Span,
) -> Span {
    match alignment {
        Alignment::Center => {
            let start = (base.start + base.end - length) / 2 + offset;
            Span { start, end: start + length }
        },
        Alignment::Start => match spread {
            Spread::Inside => Span { start: base.start + offset, end: base.start + offset + length },
            Spread::Outside => Span {
                start: base.start - offset - length,
                end: base.start - offset,
            },
        },
        Alignment::End => match spread {
            Spread::Inside => Span { start: base.end - offset - length, end: base.end - offset },
            Spread::Outside => Span { start: base.end + offset, end: base.end + offset + length },
        },
    }
}

/// Each end of `desired` pulled into `bounds` on its own.
pub open spec fn shrunk_span(desired: Span, bounds: Span) -> Span {
    Span {
        start: if desired.start < bounds.start { bounds.start } else { desired.start },
        end: if bounds.end < desired.end { bounds.end } else { desired.end },
    }
}

/// `desired` slid, at its full length, back to the edge of `bounds` that the
/// alignment grows towards. A centred range is never slid.
pub open spec fn clamped_span(length: int, alignment: Alignment, desired: Span, bounds: Span) -> Span {
    match alignment {
        Alignment::Center => desired,
        Alignment::Start => if bounds.end < desired.end {
            Span { start: bounds.end - length, end: bounds.end }
        } else {
            desired
        },
        Alignment::End => if desired.start < bounds.start {
            Span { start: bounds.start, end: bounds.start + length }
        } else {
            desired
        },
    }
}

/// The range that content of the given length occupies under `param`.
pub open spec fn content_span(length: int, param: AxisParam, base: Span, bounds: Span) -> Span {
    let desired = desired_span(length, param.alignment, param.spread, param.offset as int, base);
    match param.overflow_policy {
        OverflowPolicy::Ignore => desired,
        OverflowPolicy::Shrink => shrunk_span(desired, bounds),
        OverflowPolicy::Clamp => clamped_span(length, param.alignment, desired, bounds),
        OverflowPolicy::Flip => if param.alignment == Alignment::Center || desired.fits_in(bounds) {
            desired
        } else {
            let flipped = param.alignment.opposite();
            clamped_span(
                length,
                flipped,
                desired_span(length, flipped, param.spread, param.offset as int, base),
                bounds,
            )
        },
    }
}

/// What the solver asks of its numeric inputs so that no step overflows.
pub open spec fn solver_inputs_in_limits(length: int, base: Span, bounds: Span) -> bool {
    &&& -COORD_LIMIT <= length <= COORD_LIMIT
    &&& base.in_limits()
    &&& bounds.in_limits()
}

fn half_floor(s: i64) -> (r: i64)
    requires
        -4 * COORD_LIMIT <= s <= 4 * COORD_LIMIT,
    ensures
        r == s / 2,
{
    if s >= 0 {
        s / 2
    } else {
        -((1 - s) / 2)
    }
}

/// Places a range of the given length relative to `base`, ignoring any bounds.
pub fn desired_range(
    length: i64,
    alignment: Alignment,
    spread: Spread,
    offset: i32,
    base: AxisRange,
) -> (r: AxisRange)
    requires
        -COORD_LIMIT <= length <= COORD_LIMIT,
        base@.in_limits(),
    ensures
        r@ == desired_span(length as int, alignment, spread, offset as int, base@),
{
    let off: i64 = offset as i64;
    match alignment {
        Alignment::Center => {
            let start: i64 = half_floor(base.start + base.end - length) + off;
            AxisRange { start, end: start + length }
        },
        Alignment::Start => match spread {
            Spread::Inside => {
                let base_point: i64 = base.start + off;
                AxisRange { start: base_point, end: base_point + length }
            },
            Spread::Outside => {
                let base_point: i64 = base.start - off;
                AxisRange { start: base_point - length, end: base_point }
            },
        },
        Alignment::End => match spread {
            Spread::Inside => {
                let base_point: i64 = base.end - off;
                AxisRange { start: base_point - length, end: base_point }
            },
            Spread::Outside => {
                let base_point: i64 = base.end + off;
                AxisRange { start: base_point, end: base_point + length }
            },
        },
    }
}

/// Computes the range that content of the given length occupies on one axis:
/// first the desired range relative to `base`, then the overflow policy of
/// `param` against `bounds`.
pub fn calc_content_range(
    length: i64,
    param: &AxisParam,
    base: AxisRange,
    bounds: AxisRange,
) -> (r: AxisRange)
    requires
        solver_inputs_in_limits(length as int, base@, bounds@),
    ensures
        r@ == content_span(length as int, *param, base@, bounds@),
        -4 * COORD_LIMIT <= r.start <= 4 * COORD_LIMIT,
        -4 * COORD_LIMIT <= r.end <= 4 * COORD_LIMIT,
    decreases (if param.overflow_policy == OverflowPolicy::Flip { 1int } else { 0int }),
{
    let desired = desired_range(length, param.alignment, param.spread, param.offset, base);
    match param.overflow_policy {
        OverflowPolicy::Ignore => desired,
        OverflowPolicy::Shrink => AxisRange {
            start: if desired.start < bounds.start {
                bounds.start
            } else {
                desired.start
            },
            end: if bounds.end < desired.end {
                bounds.end
            } else {
                desired.end
            },
        },
        OverflowPolicy::Clamp => match param.alignment {
            Alignment::Center => desired,
            Alignment::Start => {
                if bounds.end < desired.end {
                    AxisRange { start: bounds.end - length, end: bounds.end }
                } else {
                    desired
                }
            },
            Alignment::End => {
                if desired.start < bounds.start {
                    AxisRange { start: bounds.start, end: bounds.start + length }
                } else {
                    desired
                }
            },
        },
        OverflowPolicy::Flip => {
            if param.alignment == Alignment::Center || (bounds.start <= desired.start
                && desired.end <= bounds.end) {
                desired
            } else {
                let flipped = AxisParam {
                    alignment: param.alignment.opposite(),
                    spread: param.spread,
                    offset: param.offset,
                    overflow_policy: OverflowPolicy::Clamp,
                };
                calc_content_range(length, &flipped, base, bounds)
            }
        },
    }
}

/// The same as [`calc_content_range`] for callers that cannot vouch for the
/// size of their numbers: `None` when the length or an end of a range lies
/// beyond `COORD_LIMIT`.
pub fn checked_content_range(
    length: i64,
    param: &AxisParam,
    base: AxisRange,
    bounds: AxisRange,
) -> (r: Option<AxisRange>)
    ensures
        r is Some <==> solver_inputs_in_limits(length as int, base@, bounds@),
        r is Some ==> r->0@ == content_span(length as int, *param, base@, bounds@),
{
    if within_limit(length) && within_limit(base.start) && within_limit(base.end) && within_limit(
        bounds.start,
    ) && within_limit(bounds.end) {
        Some(calc_content_range(length, param, base, bounds))
    } else {
        None
    }
}

fn within_limit(v: i64) -> (r: bool)
    ensures
        r == (-COORD_LIMIT <= v <= COORD_LIMIT),
{
    -COORD_LIMIT <= v && v <= COORD_LIMIT
}

/// With `Ignore` the result has exactly the requested length, sits at the
/// base point that its alignment and spread name, and does not depend on the
/// bounds.
pub proof fn lemma_ignore_is_desired(
    length: int,
    param: AxisParam,
    base: Span,
    bounds: Span,
    other_bounds: Span,
)
    requires
        param.overflow_policy == OverflowPolicy::Ignore,
    ensures
        content_span(length, param, base, bounds).len() == length,
        content_span(length, param, base, bounds) == content_span(
            length,
            param,
            base,
            other_bounds,
        ),
        param.alignment == Alignment::Center ==> content_span(length, param, base, bounds).start
            == (base.start + base.end - length) / 2 + param.offset,
        param.alignment == Alignment::Start && param.spread == Spread::Inside ==> content_span(
            length,
            param,
            base,
            bounds,
        ).start == base.start + param.offset,
        param.alignment == Alignment::Start && param.spread == Spread::Outside ==> content_span(
            length,
            param,
            base,
            bounds,
        ).end == base.start - param.offset,
        param.alignment == Alignment::End && param.spread == Spread::Inside ==> content_span(
            length,
            param,
            base,
            bounds,
        ).end == base.end - param.offset,
        param.alignment == Alignment::End && param.spread == Spread::Outside ==> content_span(
            length,
            param,
            base,
            bounds,
        ).start == base.end + param.offset,
{
}

/// A centred range is centred on the midpoint of the base, moved by the
/// offset: its two margins against the base differ by at most one unit.
pub proof fn lemma_center_is_centered(length: int, spread: Spread, base: Span)
    ensures
        ({
            let d = desired_span(length, Alignment::Center, spread, 0, base);
            let before = d.start - base.start;
            let after = base.end - d.end;
            before == after || before + 1 == after
        }),
{
}

/// Centring never clamps: `Clamp` with `Center` gives what `Ignore` gives.
pub proof fn lemma_clamp_center_is_ignore(length: int, param: AxisParam, base: Span, bounds: Span)
    requires
        param.alignment == Alignment::Center,
        param.overflow_policy == OverflowPolicy::Clamp,
    ensures
        content_span(length, param, base, bounds) == content_span(
            length,
            (AxisParam { overflow_policy: OverflowPolicy::Ignore, ..param }),
            base,
            bounds,
        ),
{
}

/// `Clamp` with `Start` leaves a range that ends inside the bounds alone, and
/// otherwise slides it, at full length, so that it ends where the bounds end.
pub proof fn lemma_clamp_start(length: int, param: AxisParam, base: Span, bounds: Span)
    requires
        param.alignment == Alignment::Start,
        param.overflow_policy == OverflowPolicy::Clamp,
    ensures
        ({
            let desired = desired_span(length, param.alignment, param.spread, param.offset as int, base);
            let r = content_span(length, param, base, bounds);
            &&& desired.end <= bounds.end ==> r == desired
            &&& desired.end > bounds.end ==> r.end == bounds.end && r.len() == length
        }),
{
}

/// `Clamp` with `End` leaves a range that starts inside the bounds alone, and
/// otherwise slides it, at full length, so that it starts where the bounds start.
pub proof fn lemma_clamp_end(length: int, param: AxisParam, base: Span, bounds: Span)
    requires
        param.alignment == Alignment::End,
        param.overflow_policy == OverflowPolicy::Clamp,
    ensures
        ({
            let desired = desired_span(length, param.alignment, param.spread, param.offset as int, base);
            let r = content_span(length, param, base, bounds);
            &&& desired.start >= bounds.start ==> r == desired
            &&& desired.start < bounds.start ==> r.start == bounds.start && r.len() == length
        }),
{
}

/// `Flip` keeps a desired range that fits the bounds; otherwise the result is
/// that of `Clamp` with the opposite alignment.
pub proof fn lemma_flip(length: int, param: AxisParam, base: Span, bounds: Span)
    requires
        param.overflow_policy == OverflowPolicy::Flip,
    ensures
        ({
            let desired = desired_span(length, param.alignment, param.spread, param.offset as int, base);
            let r = content_span(length, param, base, bounds);
            let flipped = AxisParam {
                alignment: param.alignment.opposite(),
                overflow_policy: OverflowPolicy::Clamp,
                ..param
            };
            &&& desired.fits_in(bounds) ==> r == desired
            &&& !desired.fits_in(bounds) ==> r == content_span(length, flipped, base, bounds)
        }),
{
}

/// `Shrink` pulls each end into the bounds on its own: the start is never
/// before the bounds' start, the end never after the bounds' end, an end that
/// was inside stays where it was, an end of a range that touches proper bounds
/// lands inside them, and a desired range that covers the bounds is cut down
/// to exactly the bounds.
pub proof fn lemma_shrink(length: int, param: AxisParam, base: Span, bounds: Span)
    requires
        param.overflow_policy == OverflowPolicy::Shrink,
    ensures
        ({
            let desired = desired_span(length, param.alignment, param.spread, param.offset as int, base);
            let r = content_span(length, param, base, bounds);
            &&& r.start >= bounds.start
            &&& r.end <= bounds.end
            &&& r.start == desired.start || r.start == bounds.start
            &&& r.end == desired.end || r.end == bounds.end
            &&& desired.start >= bounds.start ==> r.start == desired.start
            &&& desired.end <= bounds.end ==> r.end == desired.end
            &&& bounds.start <= bounds.end && desired.start <= bounds.end ==> r.start <= bounds.end
            &&& bounds.start <= bounds.end && desired.end >= bounds.start ==> r.end >= bounds.start
            &&& bounds.fits_in(desired) ==> r == bounds
        }),
{
}

/// Every policy but `Shrink` returns a range of exactly the requested length.
pub proof fn lemma_length_is_kept(length: int, param: AxisParam, base: Span, bounds: Span)
    requires
        param.overflow_policy != OverflowPolicy::Shrink,
    ensures
        content_span(length, param, base, bounds).len() == length,
{
}

/// The solver is a function of its inputs: two results for the same inputs
/// are the same range.
pub proof fn lemma_solver_is_deterministic(
    first: AxisRange,
    second: AxisRange,
    length: int,
    param: AxisParam,
    base: Span,
    bounds: Span,
)
    requires
        first@ == content_span(length, param, base, bounds),
        second@ == content_span(length, param, base, bounds),
    ensures
        first == second,
{
}

} // verus!
