use dioxus_portal::{
    entry_placement, outlet_plan, stack_items, Alignment, AxisParam, ContentPlacement,
    OverflowPolicy, PortalChange, PortalId, PortalRecord, PortalRegistry, Rect, RenderItem, Size,
    Spread,
};

fn record(open: bool, layer: i32, overlay: bool) -> PortalRecord<u32, u32> {
    let mut r = PortalRecord::new(
        open,
        layer,
        AxisParam::vertical_default(),
        AxisParam::horizontal_default(),
        None,
    );
    if overlay {
        r.overlay = Some(0);
    }
    r
}

#[test]
fn nothing_is_rendered_before_the_outlet_is_measured() {
    let mut reg: PortalRegistry<u32, u32> = PortalRegistry::new();
    reg.register(PortalId(1), record(true, 0, true));
    assert!(outlet_plan(&reg, false).is_empty());
    assert_eq!(outlet_plan(&reg, true).len(), 2);
}

#[test]
fn plan_interleaves_contents_and_the_topmost_overlay() {
    let mut reg: PortalRegistry<u32, u32> = PortalRegistry::new();
    let a = reg.alloc_id();
    let b = reg.alloc_id();
    let c = reg.alloc_id();
    let d = reg.alloc_id();
    reg.register(a, record(true, 5, false));
    reg.register(b, record(true, 1, true));
    reg.register(c, record(true, 3, true));
    reg.register(d, record(false, 9, true));
    let plan = outlet_plan(&reg, true);
    assert_eq!(
        plan,
        vec![
            RenderItem::Content { id: b, z_index: 1 },
            RenderItem::Content { id: c, z_index: 3 },
            RenderItem::Overlay { id: c, z_index: 2 },
            RenderItem::Content { id: a, z_index: 5 },
        ]
    );
}

#[test]
fn plan_without_any_overlay_has_contents_only() {
    let mut reg: PortalRegistry<u32, u32> = PortalRegistry::new();
    reg.register(PortalId(4), record(true, 0, false));
    reg.register(PortalId(2), record(true, 0, false));
    let plan = outlet_plan(&reg, true);
    assert_eq!(
        plan,
        vec![
            RenderItem::Content { id: PortalId(4), z_index: 1 },
            RenderItem::Content { id: PortalId(2), z_index: 3 },
        ]
    );
}

#[test]
fn plan_follows_changes_of_the_registry() {
    let mut reg: PortalRegistry<u32, u32> = PortalRegistry::new();
    let a = reg.alloc_id();
    let b = reg.alloc_id();
    reg.register(a, record(true, 0, true));
    reg.register(b, record(true, 1, true));
    assert_eq!(
        outlet_plan(&reg, true),
        vec![
            RenderItem::Content { id: a, z_index: 1 },
            RenderItem::Content { id: b, z_index: 3 },
            RenderItem::Overlay { id: b, z_index: 2 },
        ]
    );
    reg.update(b, PortalChange::Open(false));
    assert_eq!(
        outlet_plan(&reg, true),
        vec![
            RenderItem::Content { id: a, z_index: 1 },
            RenderItem::Overlay { id: a, z_index: 0 },
        ]
    );
    reg.remove(a);
    assert!(outlet_plan(&reg, true).is_empty());
}

#[test]
fn stack_items_numbers_places_from_zero() {
    let ids = vec![PortalId(8), PortalId(6)];
    assert_eq!(
        stack_items(&ids, Some(PortalId(8))),
        vec![
            RenderItem::Content { id: PortalId(8), z_index: 1 },
            RenderItem::Overlay { id: PortalId(8), z_index: 0 },
            RenderItem::Content { id: PortalId(6), z_index: 3 },
        ]
    );
    assert_eq!(
        stack_items(&ids, Some(PortalId(99))),
        vec![
            RenderItem::Content { id: PortalId(8), z_index: 1 },
            RenderItem::Content { id: PortalId(6), z_index: 3 },
        ]
    );
    assert!(stack_items(&Vec::new(), None).is_empty());
}

#[test]
fn entry_without_content_is_skipped() {
    let r = record(true, 0, false);
    let outlet = Rect::new(0, 0, 800, 600);
    assert_eq!(entry_placement(&r, Some(Size::new(10, 10)), outlet), ContentPlacement::Skipped);
}

#[test]
fn entry_waits_for_the_first_anchor_measurement() {
    let mut r = record(true, 0, false);
    r.content = Some(1);
    r.has_anchor_component = true;
    let outlet = Rect::new(0, 0, 800, 600);
    let size = Some(Size::new(10, 10));
    assert_eq!(entry_placement(&r, size, outlet), ContentPlacement::Skipped);
    r.measured_anchor_rect = Some(Rect::new(100, 100, 50, 20));
    assert_eq!(
        entry_placement(&r, size, outlet),
        ContentPlacement::Placed { left: 120, top: 120 }
    );
}

#[test]
fn custom_anchor_wins_over_the_measured_one() {
    let mut r = record(true, 0, false);
    r.content = Some(1);
    r.has_anchor_component = true;
    r.custom_anchor_rect = Some(Rect::new(200, 300, 40, 10));
    let outlet = Rect::new(0, 0, 800, 600);
    let size = Some(Size::new(10, 10));
    assert_eq!(
        entry_placement(&r, size, outlet),
        ContentPlacement::Placed { left: 215, top: 310 }
    );
    r.measured_anchor_rect = Some(Rect::new(0, 0, 1, 1));
    assert_eq!(
        entry_placement(&r, size, outlet),
        ContentPlacement::Placed { left: 215, top: 310 }
    );
}

#[test]
fn entry_is_invisible_until_its_size_is_known() {
    let mut r = record(true, 0, false);
    r.content = Some(1);
    let outlet = Rect::new(0, 0, 800, 600);
    assert_eq!(entry_placement(&r, None, outlet), ContentPlacement::Measuring);
}

#[test]
fn placement_is_relative_to_the_outlet() {
    let mut r: PortalRecord<u32, u32> = PortalRecord::new(
        true,
        0,
        AxisParam::new(Alignment::End, Spread::Outside, 4, OverflowPolicy::Ignore),
        AxisParam::new(Alignment::Start, Spread::Inside, 0, OverflowPolicy::Ignore),
        Some(Rect::new(130, 240, 50, 20)),
    );
    r.content = Some(1);
    let outlet = Rect::new(30, 40, 800, 600);
    assert_eq!(
        entry_placement(&r, Some(Size::new(80, 30)), outlet),
        ContentPlacement::Placed { left: 100, top: 224 }
    );
}

#[test]
fn entry_without_anchor_is_centered_in_the_outlet() {
    let center = AxisParam::new(Alignment::Center, Spread::Inside, 0, OverflowPolicy::Clamp);
    let mut r: PortalRecord<u32, u32> = PortalRecord::new(true, 0, center, center, None);
    r.content = Some(1);
    let outlet = Rect::new(10, 20, 800, 600);
    assert_eq!(
        entry_placement(&r, Some(Size::new(200, 100)), outlet),
        ContentPlacement::Placed { left: 300, top: 250 }
    );
}
