//! What the outlet paints: the position of each portal's content, and the
//! order and z-indices of contents and backdrop.

use crate::geometry::{Point, Rect, Size, Span, COORD_LIMIT};
use crate::placement::{calc_content_range, content_span, AxisParam, Spread};
use crate::registry::{
    is_open_stack, overlay_owner, PortalSlot, PortalId, PortalRecord, PortalRegistry,
};
use vstd::prelude::*;

verus! {

/// Where content of the given length starts on one axis. With an anchor the
/// content is placed relative to the anchor's range. Without one it is placed
/// inside the bounds themselves, and the spread, which has no meaning then,
/// counts as `Inside`.
pub open spec fn axis_start(length: int, param: AxisParam, anchor: Option<Span>, bounds: Span) -> int {
    match anchor {
        Some(base) => content_span(length, param, base, bounds).start,
        None => content_span(
            length,
            AxisParam { spread: Spread::Inside, ..param },
            bounds,
            bounds,
        ).start,
    }
}

pub open spec fn horizontal_base(anchor: Option<Rect>) -> Option<Span> {
    match anchor {
        Some(rect) => Some(rect.horizontal_span()),
        None => None,
    }
}

pub open spec fn vertical_base(anchor: Option<Rect>) -> Option<Span> {
    match anchor {
        Some(rect) => Some(rect.vertical_span()),
        None => None,
    }
}

/// The top-left corner of a portal's content, in the coordinates of the
/// rectangles given: each axis is solved on its own with the record's
/// configuration for that axis.
pub fn calc_content_position<C, O>(
    data: &PortalRecord<C, O>,
    content_size: Size,
    anchor: Option<Rect>,
    bounds: Rect,
) -> (p: Point)
    ensures
        p.x == axis_start(
            content_size.width as int,
            data.horizontal_param,
            horizontal_base(anchor),
            bounds.horizontal_span(),
        ),
        p.y == axis_start(
            content_size.height as int,
            data.vertical_param,
            vertical_base(anchor),
            bounds.vertical_span(),
        ),
        -4 * COORD_LIMIT <= p.x <= 4 * COORD_LIMIT,
        -4 * COORD_LIMIT <= p.y <= 4 * COORD_LIMIT,
{
    let bounds_v = bounds.vertical_range();
    let bounds_h = bounds.horizontal_range();
    let height: i64 = content_size.height as i64;
    let width: i64 = content_size.width as i64;
    match anchor {
        Some(anchor) => {
            let anchor_v = anchor.vertical_range();
            let anchor_h = anchor.horizontal_range();
            let range_v = calc_content_range(height, &data.vertical_param, anchor_v, bounds_v);
            let range_h = calc_content_range(width, &data.horizontal_param, anchor_h, bounds_h);
            Point { x: range_h.start, y: range_v.start }
        },
        None => {
            let param_v = data.vertical_param.with_spread(Spread::Inside);
            let param_h = data.horizontal_param.with_spread(Spread::Inside);
            let range_v = calc_content_range(height, &param_v, bounds_v, bounds_v);
            let range_h = calc_content_range(width, &param_h, bounds_h, bounds_h);
            Point { x: range_h.start, y: range_v.start }
        },
    }
}

/// How the content of one portal is to be rendered.
#[derive(Clone, Copy, Debug, PartialEq, Eq, Structural)]
pub enum ContentPlacement {
    /// Nothing is rendered: the portal has no content, or its anchor has not
    /// been measured yet.
    Skipped,
    /// The content is rendered invisibly, so that its size can be measured.
    Measuring,
    /// The content is shown at this offset from the outlet's top-left corner.
    Placed { left: i64, top: i64 },
}

/// Decides how the content of a portal is rendered inside an outlet with the
/// given rectangle, from the record and the measured size of the content, if
/// there is a measurement yet.
pub fn entry_placement<C, O>(
    record: &PortalRecord<C, O>,
    content_size: Option<Size>,
    outlet: Rect,
) -> (r: ContentPlacement)
    ensures
        !record.ready() ==> r == ContentPlacement::Skipped,
        record.ready() && content_size is None ==> r == ContentPlacement::Measuring,
        record.ready() && content_size is Some ==> {
            &&& r is Placed
            &&& r->left == axis_start(
                content_size->0.width as int,
                record.horizontal_param,
                horizontal_base(record.anchor()),
                outlet.horizontal_span(),
            ) - outlet.x
            &&& r->top == axis_start(
                content_size->0.height as int,
                record.vertical_param,
                vertical_base(record.anchor()),
                outlet.vertical_span(),
            ) - outlet.y
        },
{
    if !record.is_ready() {
        return ContentPlacement::Skipped;
    }
    match content_size {
        None => ContentPlacement::Measuring,
        Some(size) => {
            let pos = calc_content_position(record, size, record.anchor_rect(), outlet);
            ContentPlacement::Placed { left: pos.x - outlet.min_x(), top: pos.y - outlet.min_y() }
        },
    }
}

/// One element that the outlet renders.
#[derive(Clone, Copy, Debug, PartialEq, Eq, Structural)]
pub enum RenderItem {
    /// The content of a portal.
    Content { id: PortalId, z_index: usize },
    /// The backdrop of a portal.
    Overlay { id: PortalId, z_index: usize },
}

/// The z-index of the content at the given place in the painting order.
pub open spec fn content_z(place: int) -> int {
    2 * place + 1
}

/// The z-index of a backdrop that belongs to the given place in the painting
/// order: directly below the content of that place.
pub open spec fn overlay_z(place: int) -> int {
    2 * place
}

pub fn content_z_index(place: usize) -> (z: usize)
    requires
        place <= usize::MAX / 2,
    ensures
        z == content_z(place as int),
{
    place * 2 + 1
}

pub fn overlay_z_index(place: usize) -> (z: usize)
    requires
        place <= usize::MAX / 2,
    ensures
        z == overlay_z(place as int),
{
    place * 2
}

/// A backdrop lies directly below the content of its own place and above the
/// content of every place before it.
pub proof fn lemma_overlay_lies_between(below: int, place: int)
    requires
        0 <= below < place,
    ensures
        content_z(below) < overlay_z(place),
        overlay_z(place) + 1 == content_z(place),
{
}

/// The elements for the given painting order: for each place its content
/// and, where the portal of that place owns the backdrop, the backdrop.
pub open spec fn stack_items_of(ids: Seq<PortalId>, overlay: Option<PortalId>) -> Seq<RenderItem>
    decreases ids.len(),
{
    if ids.len() == 0 {
        Seq::empty()
    } else {
        let place = ids.len() - 1;
        let id = ids.last();
        let with_content = stack_items_of(ids.drop_last(), overlay).push(
            RenderItem::Content { id, z_index: content_z(place) as usize },
        );
        if overlay == Some(id) {
            with_content.push(RenderItem::Overlay { id, z_index: overlay_z(place) as usize })
        } else {
            with_content
        }
    }
}

/// Lays out the elements for a painting order and the owner of the backdrop.
pub fn stack_items(ids: &Vec<PortalId>, overlay: Option<PortalId>) -> (items: Vec<RenderItem>)
    requires
        ids@.len() <= usize::MAX / 2,
    ensures
        items@ == stack_items_of(ids@, overlay),
{
    let mut items: Vec<RenderItem> = Vec::new();
    let mut i: usize = 0;
    while i < ids.len()
        invariant
            i <= ids@.len(),
            ids@.len() <= usize::MAX / 2,
            items@ == stack_items_of(ids@.take(i as int), overlay),
        decreases ids@.len() - i,
    {
        let id = ids[i];
        proof {
            let next = ids@.take(i + 1);
            assert(next.last() == id);
            assert(next.drop_last() =~= ids@.take(i as int));
        }
        items.push(RenderItem::Content { id, z_index: content_z_index(i) });
        let owns_overlay = match overlay {
            Some(owner) => owner == id,
            None => false,
        };
        if owns_overlay {
            items.push(RenderItem::Overlay { id, z_index: overlay_z_index(i) });
        }
        i += 1;
    }
    assert(ids@.take(i as int) =~= ids@);
    items
}

/// What the outlet renders. Before the outlet itself has been measured that
/// is nothing. Afterwards it is the content of every open portal in painting
/// order, and the backdrop of the topmost open portal that has one.
pub fn outlet_plan<C, O>(registry: &PortalRegistry<C, O>, outlet_measured: bool) -> (items: Vec<
    RenderItem,
>)
    requires
        registry.wf(),
        registry@.len() <= usize::MAX / 2,
    ensures
        !outlet_measured ==> items@ == Seq::<RenderItem>::empty(),
        outlet_measured ==> exists|ids: Seq<PortalId>|
            #![trigger is_open_stack(registry@, ids)]
            is_open_stack(registry@, ids) && items@ == stack_items_of(
                ids,
                overlay_owner(registry@, ids),
            ),
{
    if !outlet_measured {
        return Vec::new();
    }
    let sorted_ids = registry.snapshot_open_sorted_by_layer();
    let overlay_id = registry.topmost_with_overlay(&sorted_ids);
    stack_items(&sorted_ids, overlay_id)
}

} // verus!
