use dioxus_portal::{
    AxisParam, PortalChange, PortalId, PortalRecord, PortalRegistry, Rect,
};

type Registry = PortalRegistry<String, String>;

fn record(open: bool, layer: i32) -> PortalRecord<String, String> {
    PortalRecord::new(
        open,
        layer,
        AxisParam::vertical_default(),
        AxisParam::horizontal_default(),
        None,
    )
}

fn with_overlay(open: bool, layer: i32) -> PortalRecord<String, String> {
    let mut r = record(open, layer);
    r.overlay = Some(String::from("backdrop"));
    r
}

#[test]
fn identifiers_start_at_one_and_increase() {
    let mut reg = Registry::new();
    let a = reg.alloc_id();
    let b = reg.alloc_id();
    let c = reg.alloc_id();
    assert_eq!(a, PortalId(1));
    assert_eq!(b, PortalId(2));
    assert_eq!(c, PortalId(3));
    assert_eq!(reg.len(), 0);
    assert!(reg.can_alloc_id());
}

#[test]
fn two_registries_count_on_their_own() {
    let mut first = Registry::new();
    let mut second = Registry::new();
    assert_eq!(first.alloc_id(), PortalId(1));
    assert_eq!(first.alloc_id(), PortalId(2));
    assert_eq!(second.alloc_id(), PortalId(1));
}

#[test]
fn new_record_has_nothing_registered() {
    let r = record(true, 4);
    assert!(r.open);
    assert_eq!(r.layer, 4);
    assert!(!r.has_anchor_component);
    assert!(r.measured_anchor_rect.is_none());
    assert!(r.custom_anchor_rect.is_none());
    assert!(r.content.is_none());
    assert!(r.overlay.is_none());
    assert_eq!(r.vertical_param, AxisParam::vertical_default());
    assert_eq!(r.horizontal_param, AxisParam::horizontal_default());
}

#[test]
fn register_then_get() {
    let mut reg = Registry::new();
    let id = reg.alloc_id();
    assert!(!reg.contains(id));
    assert!(reg.get(id).is_none());
    assert!(!reg.register(id, record(true, 2)));
    assert!(reg.contains(id));
    assert_eq!(reg.len(), 1);
    let got = reg.get(id).unwrap();
    assert!(got.open);
    assert_eq!(got.layer, 2);
}

#[test]
fn registering_twice_overwrites_in_place() {
    let mut reg = Registry::new();
    let a = reg.alloc_id();
    let b = reg.alloc_id();
    reg.register(a, record(true, 1));
    reg.register(b, record(true, 1));
    assert!(reg.register(a, record(true, 1)));
    assert_eq!(reg.len(), 2);
    assert_eq!(reg.snapshot_open_sorted_by_layer(), vec![a, b]);
    assert!(reg.register(a, record(false, 9)));
    assert_eq!(reg.get(a).unwrap().layer, 9);
    assert_eq!(reg.snapshot_open_sorted_by_layer(), vec![b]);
}

#[test]
fn update_changes_only_the_named_field() {
    let mut reg = Registry::new();
    let a = reg.alloc_id();
    let b = reg.alloc_id();
    reg.register(a, record(false, 1));
    reg.register(b, record(false, 2));
    let rect = Rect::new(1, 2, 3, 4);

    assert!(reg.update(a, PortalChange::Open(true)));
    assert!(reg.update(a, PortalChange::Layer(7)));
    assert!(reg.update(a, PortalChange::AnchorComponent(true)));
    assert!(reg.update(a, PortalChange::MeasuredAnchor(Some(rect))));
    assert!(reg.update(a, PortalChange::CustomAnchor(Some(Rect::new(9, 9, 9, 9)))));
    assert!(reg.update(a, PortalChange::Vertical(AxisParam::horizontal_default())));
    assert!(reg.update(a, PortalChange::Horizontal(AxisParam::vertical_default())));
    assert!(reg.update(a, PortalChange::Content(Some(String::from("menu")))));
    assert!(reg.update(a, PortalChange::Overlay(Some(String::from("shade")))));

    let ra = reg.get(a).unwrap();
    assert!(ra.open);
    assert_eq!(ra.layer, 7);
    assert!(ra.has_anchor_component);
    assert_eq!(ra.measured_anchor_rect, Some(rect));
    assert_eq!(ra.custom_anchor_rect, Some(Rect::new(9, 9, 9, 9)));
    assert_eq!(ra.vertical_param, AxisParam::horizontal_default());
    assert_eq!(ra.horizontal_param, AxisParam::vertical_default());
    assert_eq!(ra.content.as_deref(), Some("menu"));
    assert_eq!(ra.overlay.as_deref(), Some("shade"));

    let rb = reg.get(b).unwrap();
    assert!(!rb.open);
    assert_eq!(rb.layer, 2);
    assert!(rb.content.is_none());
    assert!(rb.overlay.is_none());

    assert!(reg.update(a, PortalChange::Content(None)));
    assert!(reg.get(a).unwrap().content.is_none());
    assert_eq!(reg.get(a).unwrap().overlay.as_deref(), Some("shade"));
}

#[test]
fn update_after_remove_is_a_no_op() {
    let mut reg = Registry::new();
    let keep = reg.alloc_id();
    let gone = reg.alloc_id();
    reg.register(keep, record(true, 1));
    reg.register(gone, record(true, 2));
    assert!(reg.remove(gone));
    assert!(!reg.update(gone, PortalChange::Open(false)));
    assert!(!reg.update(gone, PortalChange::MeasuredAnchor(Some(Rect::new(0, 0, 1, 1)))));
    assert!(!reg.contains(gone));
    assert_eq!(reg.len(), 1);
    assert!(reg.get(keep).unwrap().open);
    assert_eq!(reg.snapshot_open_sorted_by_layer(), vec![keep]);
}

#[test]
fn update_of_an_unknown_id_is_a_no_op() {
    let mut reg = Registry::new();
    assert!(!reg.update(PortalId(77), PortalChange::Open(true)));
    assert_eq!(reg.len(), 0);
}

#[test]
fn remove_is_idempotent_and_keeps_the_order() {
    let mut reg = Registry::new();
    let a = reg.alloc_id();
    let b = reg.alloc_id();
    let c = reg.alloc_id();
    reg.register(a, record(true, 0));
    reg.register(b, record(true, 0));
    reg.register(c, record(true, 0));
    assert!(reg.remove(b));
    assert!(!reg.remove(b));
    assert!(!reg.remove(PortalId(1000)));
    assert_eq!(reg.len(), 2);
    assert_eq!(reg.snapshot_open_sorted_by_layer(), vec![a, c]);
}

#[test]
fn snapshot_lists_open_portals_by_layer() {
    let mut reg = Registry::new();
    let ids: Vec<PortalId> = (0..5).map(|_| reg.alloc_id()).collect();
    reg.register(ids[0], record(true, 3));
    reg.register(ids[1], record(false, 0));
    reg.register(ids[2], record(true, -1));
    reg.register(ids[3], record(true, 2));
    reg.register(ids[4], record(true, i32::MAX));
    assert_eq!(
        reg.snapshot_open_sorted_by_layer(),
        vec![ids[2], ids[3], ids[0], ids[4]]
    );
}

#[test]
fn snapshot_is_stable_for_equal_layers() {
    let mut reg = Registry::new();
    reg.register(PortalId(9), record(true, 1));
    reg.register(PortalId(3), record(true, 0));
    reg.register(PortalId(7), record(true, 1));
    reg.register(PortalId(1), record(true, 0));
    reg.register(PortalId(5), record(true, 1));
    assert_eq!(
        reg.snapshot_open_sorted_by_layer(),
        vec![PortalId(3), PortalId(1), PortalId(9), PortalId(7), PortalId(5)]
    );
}

#[test]
fn snapshot_of_an_empty_or_closed_registry_is_empty() {
    let mut reg = Registry::new();
    assert!(reg.snapshot_open_sorted_by_layer().is_empty());
    reg.register(PortalId(1), record(false, 1));
    assert!(reg.snapshot_open_sorted_by_layer().is_empty());
}

#[test]
fn topmost_with_overlay_picks_the_highest_layer_that_has_one() {
    let mut reg = Registry::new();
    let one = reg.alloc_id();
    let two = reg.alloc_id();
    let three = reg.alloc_id();
    reg.register(three, with_overlay(true, 3));
    reg.register(one, with_overlay(true, 1));
    reg.register(two, record(true, 2));
    let order = reg.snapshot_open_sorted_by_layer();
    assert_eq!(order, vec![one, two, three]);
    assert_eq!(reg.topmost_with_overlay(&order), Some(three));
}

#[test]
fn topmost_with_overlay_skips_portals_without_one() {
    let mut reg = Registry::new();
    let one = reg.alloc_id();
    let two = reg.alloc_id();
    reg.register(one, with_overlay(true, 1));
    reg.register(two, record(true, 2));
    let order = reg.snapshot_open_sorted_by_layer();
    assert_eq!(reg.topmost_with_overlay(&order), Some(one));
    reg.update(one, PortalChange::Overlay(None));
    assert_eq!(reg.topmost_with_overlay(&order), None);
    assert_eq!(reg.topmost_with_overlay(&Vec::new()), None);
}

#[test]
fn topmost_with_overlay_passes_over_unknown_ids() {
    let mut reg = Registry::new();
    let one = reg.alloc_id();
    reg.register(one, with_overlay(true, 1));
    let order = vec![one, PortalId(50)];
    assert_eq!(reg.topmost_with_overlay(&order), Some(one));
    reg.remove(one);
    assert_eq!(reg.topmost_with_overlay(&order), None);
}

#[test]
fn readiness_and_anchor_choice() {
    let mut r = record(true, 0);
    assert!(!r.is_ready());
    r.content = Some(String::from("tip"));
    assert!(r.is_ready());
    assert_eq!(r.anchor_rect(), None);
    r.has_anchor_component = true;
    assert!(!r.is_ready());
    r.measured_anchor_rect = Some(Rect::new(1, 1, 1, 1));
    assert!(r.is_ready());
    assert_eq!(r.anchor_rect(), Some(Rect::new(1, 1, 1, 1)));
    r.custom_anchor_rect = Some(Rect::new(2, 2, 2, 2));
    assert_eq!(r.anchor_rect(), Some(Rect::new(2, 2, 2, 2)));
    r.measured_anchor_rect = None;
    assert!(r.is_ready());
    r.content = None;
    assert!(!r.is_ready());
}
