//! The registry of portals: one record per mounted portal, kept in the order
//! in which the portals were registered.

use crate::geometry::Rect;
use crate::placement::AxisParam;
use vstd::prelude::*;

verus! {

/// Identity of a portal. Identifiers are handed out by the registry that the
/// portal lives in, in increasing order.
#[derive(Clone, Copy, Debug, PartialEq, Eq, Hash, Structural)]
pub struct PortalId(pub u64);

/// What the registry knows of one portal. `C` is the payload of the floating
/// content and `O` that of its backdrop; the registry only stores them.
#[derive(Debug)]
pub struct PortalRecord<C, O> {
    /// Whether the content should currently be displayed.
    pub open: bool,
    /// Stacking priority: a higher layer is painted above a lower one.
    pub layer: i32,
    /// Whether an anchor element has been registered for this portal.
    pub has_anchor_component: bool,
    /// The most recent measurement of the anchor element, if any arrived yet.
    pub measured_anchor_rect: Option<Rect>,
    /// An anchor rectangle supplied directly; it wins over the measured one.
    pub custom_anchor_rect: Option<Rect>,
    pub vertical_param: AxisParam,
    pub horizontal_param: AxisParam,
    /// The floating content, once registered.
    pub content: Option<C>,
    /// The backdrop, once registered.
    pub overlay: Option<O>,
}

impl<C, O> PortalRecord<C, O> {
    /// The record of a freshly mounted portal: no anchor element, no
    /// measurement, no content and no backdrop yet.
    pub fn new(
        open: bool,
        layer: i32,
        vertical_param: AxisParam,
        horizontal_param: AxisParam,
        custom_anchor_rect: Option<Rect>,
    ) -> (r: Self)
        ensures
            r == (PortalRecord::<C, O> {
                open,
                layer,
                has_anchor_component: false,
                measured_anchor_rect: None,
                custom_anchor_rect,
                vertical_param,
                horizontal_param,
                content: None,
                overlay: None,
            }),
    {
        PortalRecord {
            open,
            layer,
            has_anchor_component: false,
            measured_anchor_rect: None,
            custom_anchor_rect,
            vertical_param,
            horizontal_param,
            content: None,
            overlay: None,
        }
    }

    /// An anchor element is declared, nothing overrides it, and it has not
    /// been measured yet.
    pub open spec fn anchor_pending(self) -> bool {
        self.custom_anchor_rect is None && self.has_anchor_component
            && self.measured_anchor_rect is None
    }

    /// The portal has content and is not waiting for its anchor.
    pub open spec fn ready(self) -> bool {
        self.content is Some && !self.anchor_pending()
    }

    /// The rectangle that placement goes by: the custom one if there is one,
    /// else the measured one.
    pub open spec fn anchor(self) -> Option<Rect> {
        if self.custom_anchor_rect is Some {
            self.custom_anchor_rect
        } else {
            self.measured_anchor_rect
        }
    }

    pub fn is_ready(&self) -> (r: bool)
        ensures
            r == self.ready(),
    {
        let use_custom_anchor = self.custom_anchor_rect.is_some();
        let anchor_preparing = !use_custom_anchor && self.has_anchor_component
            && self.measured_anchor_rect.is_none();
        let has_content = self.content.is_some();
        !(anchor_preparing || !has_content)
    }

    pub fn anchor_rect(&self) -> (r: Option<Rect>)
        ensures
            r == self.anchor(),
    {
        if self.custom_anchor_rect.is_some() {
            self.custom_anchor_rect
        } else {
            self.measured_anchor_rect
        }
    }
}

/// A partial mutation of a record.
#[derive(Debug)]
pub enum PortalChange<C, O> {
    Open(bool),
    Layer(i32),
    AnchorComponent(bool),
    MeasuredAnchor(Option<Rect>),
    CustomAnchor(Option<Rect>),
    Vertical(AxisParam),
    Horizontal(AxisParam),
    Content(Option<C>),
    Overlay(Option<O>),
}

/// The record after a change: the named field replaced, all others kept.
pub open spec fn changed_record<C, O>(record: PortalRecord<C, O>, change: PortalChange<C, O>) -> PortalRecord<
    C,
    O,
> {
    match change {
        PortalChange::Open(open) => PortalRecord { open, ..record },
        PortalChange::Layer(layer) => PortalRecord { layer, ..record },
        PortalChange::AnchorComponent(has_anchor_component) => PortalRecord {
            has_anchor_component,
            ..record
        },
        PortalChange::MeasuredAnchor(measured_anchor_rect) => PortalRecord {
            measured_anchor_rect,
            ..record
        },
        PortalChange::CustomAnchor(custom_anchor_rect) => PortalRecord {
            custom_anchor_rect,
            ..record
        },
        PortalChange::Vertical(vertical_param) => PortalRecord { vertical_param, ..record },
        PortalChange::Horizontal(horizontal_param) => PortalRecord { horizontal_param, ..record },
        PortalChange::Content(content) => PortalRecord { content, ..record },
        PortalChange::Overlay(overlay) => PortalRecord { overlay, ..record },
    }
}

/// A custom anchor rectangle decides alone: whatever is known of an anchor
/// element, the portal does not wait for it and is placed by the custom
/// rectangle.
pub proof fn lemma_custom_anchor_overrides<C, O>(record: PortalRecord<C, O>, other: PortalRecord<C, O>)
    requires
        record.custom_anchor_rect is Some,
        other == (PortalRecord {
            has_anchor_component: other.has_anchor_component,
            measured_anchor_rect: other.measured_anchor_rect,
            ..record
        }),
    ensures
        !record.anchor_pending(),
        record.anchor() == record.custom_anchor_rect,
        other.ready() == record.ready(),
        other.anchor() == record.anchor(),
{
}

/// One slot of the registry.
#[derive(Debug)]
pub struct PortalSlot<C, O> {
    pub id: PortalId,
    pub record: PortalRecord<C, O>,
}

/// Some entry of `s` carries `id`.
pub open spec fn contains_id<C, O>(s: Seq<PortalSlot<C, O>>, id: PortalId) -> bool {
    exists|i: int| 0 <= i < s.len() && (#[trigger] s[i]).id == id
}

/// The index of the entry that carries `id`, where there is one.
pub open spec fn position<C, O>(s: Seq<PortalSlot<C, O>>, id: PortalId) -> int {
    choose|i: int| 0 <= i < s.len() && (#[trigger] s[i]).id == id
}

/// No identifier occurs twice.
pub open spec fn distinct_ids<C, O>(s: Seq<PortalSlot<C, O>>) -> bool {
    forall|i: int, j: int| 0 <= i < j < s.len() ==> (#[trigger] s[i]).id != (#[trigger] s[j]).id
}

/// The entries after `id` is registered with `record`: a new entry goes to
/// the end, and an identifier that is already present keeps its place and
/// gets the new record.
pub open spec fn registered<C, O>(
    s: Seq<PortalSlot<C, O>>,
    id: PortalId,
    record: PortalRecord<C, O>,
) -> Seq<PortalSlot<C, O>> {
    if contains_id(s, id) {
        s.update(position(s, id), PortalSlot { id, record })
    } else {
        s.push(PortalSlot { id, record })
    }
}

/// The entries after `id` is removed: the others, in their order.
pub open spec fn removed<C, O>(s: Seq<PortalSlot<C, O>>, id: PortalId) -> Seq<PortalSlot<C, O>> {
    if contains_id(s, id) {
        s.remove(position(s, id))
    } else {
        s
    }
}

/// The entries after a change is applied to the record of `id`; unchanged
/// when `id` is absent.
pub open spec fn updated<C, O>(
    s: Seq<PortalSlot<C, O>>,
    id: PortalId,
    change: PortalChange<C, O>,
) -> Seq<PortalSlot<C, O>> {
    if contains_id(s, id) {
        let i = position(s, id);
        s.update(i, PortalSlot { id, record: changed_record(s[i].record, change) })
    } else {
        s
    }
}

/// The entry of `a` is painted below that of `b`: it has the lower layer, or
/// the same layer and was registered earlier.
pub open spec fn stacks_below<C, O>(s: Seq<PortalSlot<C, O>>, a: PortalId, b: PortalId) -> bool {
    let i = position(s, a);
    let j = position(s, b);
    precedes(s[i].record.layer, i, s[j].record.layer, j)
}

/// The order of painting on pairs of a layer and an index of registration.
pub open spec fn precedes(layer_a: i32, index_a: int, layer_b: i32, index_b: int) -> bool {
    layer_a < layer_b || (layer_a == layer_b && index_a < index_b)
}

/// `ids` lists exactly the open portals of `s`, lowest layer first, portals
/// of one layer in the order of their registration.
pub open spec fn is_open_stack<C, O>(s: Seq<PortalSlot<C, O>>, ids: Seq<PortalId>) -> bool {
    &&& forall|k: int|
        0 <= k < ids.len() ==> contains_id(s, #[trigger] ids[k]) && s[position(
            s,
            ids[k],
        )].record.open
    &&& forall|i: int| 0 <= i < s.len() && (#[trigger] s[i]).record.open ==> ids.contains(s[i].id)
    &&& strictly_stacked(s, ids)
}

/// Each identifier of `ids` is painted below all that follow it.
pub open spec fn strictly_stacked<C, O>(s: Seq<PortalSlot<C, O>>, ids: Seq<PortalId>) -> bool {
    forall|a: int, b: int|
        0 <= a < b < ids.len() ==> stacks_below(s, #[trigger] ids[a], #[trigger] ids[b])
}

/// `id` is registered and has a backdrop.
pub open spec fn has_overlay<C, O>(s: Seq<PortalSlot<C, O>>, id: PortalId) -> bool {
    contains_id(s, id) && s[position(s, id)].record.overlay is Some
}

/// The last identifier of `ids` that has a backdrop.
pub open spec fn overlay_owner<C, O>(s: Seq<PortalSlot<C, O>>, ids: Seq<PortalId>) -> Option<
    PortalId,
>
    decreases ids.len(),
{
    if ids.len() == 0 {
        None
    } else if has_overlay(s, ids.last()) {
        Some(ids.last())
    } else {
        overlay_owner(s, ids.drop_last())
    }
}

/// In a sequence without repeated identifiers, the entry that carries an
/// identifier is found at one index only.
pub proof fn lemma_position_is_unique<C, O>(s: Seq<PortalSlot<C, O>>, i: int)
    requires
        distinct_ids(s),
        0 <= i < s.len(),
    ensures
        contains_id(s, s[i].id),
        position(s, s[i].id) == i,
{
    let p = position(s, s[i].id);
    assert(0 <= p < s.len() && s[p].id == s[i].id);
    if p < i {
        assert(s[p].id != s[i].id);
    } else if i < p {
        assert(s[i].id != s[p].id);
    }
}

/// The registry: the records of the mounted portals in the order of their
/// registration, and the counter that identifiers are drawn from.
pub struct PortalRegistry<C, O> {
    entries: Vec<PortalSlot<C, O>>,
    next_id: u64,
}

impl<C, O> View for PortalRegistry<C, O> {
    type V = Seq<PortalSlot<C, O>>;

    closed spec fn view(&self) -> Seq<PortalSlot<C, O>> {
        self.entries@
    }
}

impl<C, O> PortalRegistry<C, O> {
    /// How many identifiers this registry has handed out.
    pub closed spec fn issued(&self) -> nat {
        self.next_id as nat
    }

    /// No identifier is registered twice.
    pub open spec fn wf(&self) -> bool {
        distinct_ids(self@)
    }

    pub fn new() -> (r: Self)
        ensures
            r.wf(),
            r@ == Seq::<PortalSlot<C, O>>::empty(),
            r.issued() == 0,
    {
        PortalRegistry { entries: Vec::new(), next_id: 0 }
    }

    /// Whether the counter can still hand out an identifier.
    pub fn can_alloc_id(&self) -> (r: bool)
        ensures
            r == (self.issued() < u64::MAX),
    {
        self.next_id < u64::MAX
    }

    /// Hands out the next identifier: the first is 1, and each one is larger
    /// than all before it. The records are not touched.
    pub fn alloc_id(&mut self) -> (id: PortalId)
        requires
            old(self).issued() < u64::MAX,
        ensures
            final(self).issued() == old(self).issued() + 1,
            id.0 == final(self).issued(),
            final(self)@ == old(self)@,
    {
        self.next_id = self.next_id + 1;
        PortalId(self.next_id)
    }

    pub fn len(&self) -> (n: usize)
        ensures
            n == self@.len(),
    {
        self.entries.len()
    }

    fn find(&self, id: PortalId) -> (r: Option<usize>)
        requires
            self.wf(),
        ensures
            match r {
                Some(i) => i < self@.len() && self@[i as int].id == id && contains_id(self@, id)
                    && position(self@, id) == i,
                None => !contains_id(self@, id),
            },
    {
        let mut i: usize = 0;
        while i < self.entries.len()
            invariant
                self.wf(),
                i <= self.entries@.len(),
                forall|k: int| 0 <= k < i ==> (#[trigger] self.entries@[k]).id != id,
            decreases self.entries@.len() - i,
        {
            if self.entries[i].id == id {
                proof {
                    lemma_position_is_unique(self@, i as int);
                }
                return Some(i);
            }
            i += 1;
        }
        None
    }

    /// Whether `id` is registered.
    pub fn contains(&self, id: PortalId) -> (r: bool)
        requires
            self.wf(),
        ensures
            r == contains_id(self@, id),
    {
        self.find(id).is_some()
    }

    /// The record of `id`, if it is registered.
    pub fn get(&self, id: PortalId) -> (r: Option<&PortalRecord<C, O>>)
        requires
            self.wf(),
        ensures
            match r {
                Some(record) => contains_id(self@, id) && *record == self@[position(
                    self@,
                    id,
                )].record,
                None => !contains_id(self@, id),
            },
    {
        match self.find(id) {
            Some(i) => Some(&self.entries[i].record),
            None => None,
        }
    }

    /// Registers `id` with `record`. An identifier that is already registered
    /// keeps its place in the order and silently gets the new record; the
    /// result says whether that happened.
    pub fn register(&mut self, id: PortalId, record: PortalRecord<C, O>) -> (replaced: bool)
        requires
            old(self).wf(),
        ensures
            final(self).wf(),
            final(self)@ == registered(old(self)@, id, record),
            final(self).issued() == old(self).issued(),
            replaced == contains_id(old(self)@, id),
            contains_id(final(self)@, id),
            final(self)@[position(final(self)@, id)].record == record,
    {
        match self.find(id) {
            Some(i) => {
                self.entries[i] = PortalSlot { id, record };
                proof {
                    lemma_position_is_unique(self@, i as int);
                }
                true
            },
            None => {
                self.entries.push(PortalSlot { id, record });
                proof {
                    lemma_position_is_unique(self@, self@.len() - 1);
                }
                false
            },
        }
    }

    /// Applies `change` to the record of `id`. When `id` is not registered,
    /// for instance because its portal was removed in the meantime, nothing
    /// happens; the result says whether the change was applied.
    pub fn update(&mut self, id: PortalId, change: PortalChange<C, O>) -> (applied: bool)
        requires
            old(self).wf(),
        ensures
            final(self).wf(),
            final(self)@ == updated(old(self)@, id, change),
            final(self).issued() == old(self).issued(),
            applied == contains_id(old(self)@, id),
            !applied ==> final(self)@ == old(self)@,
    {
        match self.find(id) {
            Some(i) => {
                let record = &mut self.entries[i].record;
                match change {
                    PortalChange::Open(open) => {
                        record.open = open;
                    },
                    PortalChange::Layer(layer) => {
                        record.layer = layer;
                    },
                    PortalChange::AnchorComponent(has_anchor_component) => {
                        record.has_anchor_component = has_anchor_component;
                    },
                    PortalChange::MeasuredAnchor(measured_anchor_rect) => {
                        record.measured_anchor_rect = measured_anchor_rect;
                    },
                    PortalChange::CustomAnchor(custom_anchor_rect) => {
                        record.custom_anchor_rect = custom_anchor_rect;
                    },
                    PortalChange::Vertical(vertical_param) => {
                        record.vertical_param = vertical_param;
                    },
                    PortalChange::Horizontal(horizontal_param) => {
                        record.horizontal_param = horizontal_param;
                    },
                    PortalChange::Content(content) => {
                        record.content = content;
                    },
                    PortalChange::Overlay(overlay) => {
                        record.overlay = overlay;
                    },
                }
                assert(self@ =~= updated(old(self)@, id, change));
                true
            },
            None => false,
        }
    }

    /// Removes `id` and its record; the other records keep their order.
    /// Removing an identifier that is not registered does nothing. The result
    /// says whether a record was removed.
    pub fn remove(&mut self, id: PortalId) -> (was_present: bool)
        requires
            old(self).wf(),
        ensures
            final(self).wf(),
            final(self)@ == removed(old(self)@, id),
            final(self).issued() == old(self).issued(),
            was_present == contains_id(old(self)@, id),
            !contains_id(final(self)@, id),
    {
        match self.find(id) {
            Some(i) => {
                let _ = self.entries.remove(i);
                proof {
                    lemma_removed_lacks_id(old(self)@, i as int);
                }
                true
            },
            None => false,
        }
    }

    /// The open portals in painting order: lowest layer first, portals of one
    /// layer in the order in which they were registered.
    pub fn snapshot_open_sorted_by_layer(&self) -> (ids: Vec<PortalId>)
        requires
            self.wf(),
        ensures
            is_open_stack(self@, ids@),
            ids@.len() <= self@.len(),
    {
        let mut ids: Vec<PortalId> = Vec::new();
        let mut layers: Vec<i32> = Vec::new();
        let ghost mut idx: Seq<int> = Seq::empty();
        let n: usize = self.entries.len();
        let mut i: usize = 0;
        while i < n
            invariant
                self.wf(),
                n == self@.len(),
                i <= n,
                ids@.len() == idx.len(),
                layers@.len() == idx.len(),
                idx.len() <= i,
                forall|k: int|
                    0 <= k < idx.len() ==> {
                        &&& 0 <= #[trigger] idx[k] < i
                        &&& self@[idx[k]].record.open
                        &&& ids@[k] == self@[idx[k]].id
                        &&& layers@[k] == self@[idx[k]].record.layer
                    },
                forall|a: int, b: int|
                    0 <= a < b < idx.len() ==> precedes(
                        layers@[a],
                        #[trigger] idx[a],
                        layers@[b],
                        #[trigger] idx[b],
                    ),
                forall|j: int| 0 <= j < i && (#[trigger] self@[j]).record.open ==> idx.contains(j),
            decreases n - i,
        {
            if self.entries[i].record.open {
                let layer: i32 = self.entries[i].record.layer;
                let mut p: usize = ids.len();
                while p > 0 && layers[p - 1] > layer
                    invariant
                        p <= layers@.len(),
                        forall|k: int| p <= k < layers@.len() ==> layers@[k] > layer,
                    decreases p,
                {
                    p -= 1;
                }
                let ghost old_idx = idx;
                let ghost old_ids = ids@;
                let ghost old_layers = layers@;
                ids.insert(p, self.entries[i].id);
                layers.insert(p, layer);
                proof {
                    idx = old_idx.insert(p as int, i as int);
                    old_idx.insert_ensures(p as int, i as int);
                    old_ids.insert_ensures(p as int, self@[i as int].id);
                    old_layers.insert_ensures(p as int, layer);
                    assert forall|k: int| 0 <= k < idx.len() implies {
                        &&& 0 <= #[trigger] idx[k] < i + 1
                        &&& self@[idx[k]].record.open
                        &&& ids@[k] == self@[idx[k]].id
                        &&& layers@[k] == self@[idx[k]].record.layer
                    } by {
                        if k > p {
                            assert(idx[k] == old_idx[k - 1]);
                            assert(ids@[k] == old_ids[k - 1]);
                            assert(layers@[k] == old_layers[k - 1]);
                        }
                    }
                    assert forall|a: int, b: int| 0 <= a < b < idx.len() implies precedes(
                        layers@[a],
                        #[trigger] idx[a],
                        layers@[b],
                        #[trigger] idx[b],
                    ) by {
                        let a0 = if a < p { a } else { a - 1 };
                        let b0 = if b < p { b } else { b - 1 };
                        if a != p {
                            assert(idx[a] == old_idx[a0] && layers@[a] == old_layers[a0]);
                        }
                        if b != p {
                            assert(idx[b] == old_idx[b0] && layers@[b] == old_layers[b0]);
                        }
                        if a == p {
                            assert(idx[a] == i && layers@[a] == layer);
                            assert(old_layers[b0] > layer);
                        }
                        if b == p {
                            assert(idx[b] == i && layers@[b] == layer);
                            assert(old_layers[p - 1] <= layer);
                            assert(0 <= old_idx[a0] < i);
                            if a0 < p - 1 {
                                assert(old_idx[p - 1] < i);
                                assert(old_layers[a0] <= old_layers[p - 1]);
                            }
                        }
                    }
                    assert forall|j: int| 0 <= j < i + 1 && (#[trigger] self@[j]).record.open
                        implies idx.contains(j) by {
                        if j == i {
                            assert(idx[p as int] == j);
                        } else {
                            assert(old_idx.contains(j));
                            let k = choose|k: int| 0 <= k < old_idx.len() && old_idx[k] == j;
                            if k < p {
                                assert(idx[k] == j);
                            } else {
                                assert(idx[k + 1] == j);
                            }
                        }
                    }
                }
            }
            i += 1;
        }
        proof {
            assert forall|k: int| 0 <= k < ids@.len() implies contains_id(self@, #[trigger] ids@[k])
                && position(self@, ids@[k]) == idx[k] by {
                lemma_position_is_unique(self@, idx[k]);
            }
            assert forall|j: int| 0 <= j < self@.len() && (#[trigger] self@[j]).record.open
                implies ids@.contains(self@[j].id) by {
                assert(idx.contains(j));
                let k = choose|k: int| 0 <= k < idx.len() && idx[k] == j;
                assert(ids@[k] == self@[j].id);
            }
            assert forall|a: int, b: int| 0 <= a < b < ids@.len() implies stacks_below(
                self@,
                #[trigger] ids@[a],
                #[trigger] ids@[b],
            ) by {
                assert(position(self@, ids@[a]) == idx[a]);
                assert(position(self@, ids@[b]) == idx[b]);
            }
        }
        ids
    }

    /// Of the given identifiers, the last one whose portal has a backdrop.
    /// Given the painting order, that is the topmost portal with a backdrop.
    /// An identifier that is not registered is passed over.
    pub fn topmost_with_overlay(&self, ids: &Vec<PortalId>) -> (r: Option<PortalId>)
        requires
            self.wf(),
        ensures
            r == overlay_owner(self@, ids@),
    {
        let mut p: usize = ids.len();
        assert(ids@.take(p as int) =~= ids@);
        while p > 0
            invariant
                self.wf(),
                p <= ids@.len(),
                overlay_owner(self@, ids@) == overlay_owner(self@, ids@.take(p as int)),
            decreases p,
        {
            let id = ids[p - 1];
            let ghost prefix = ids@.take(p as int);
            assert(prefix.last() == id);
            assert(prefix.drop_last() =~= ids@.take(p - 1));
            let found = match self.get(id) {
                Some(record) => record.overlay.is_some(),
                None => false,
            };
            if found {
                return Some(id);
            }
            p -= 1;
        }
        assert(ids@.take(0).len() == 0);
        None
    }
}

/// Taking the entry at `i` out of a sequence without repeated identifiers
/// leaves one without repeated identifiers that no longer has that identifier.
pub proof fn lemma_removed_lacks_id<C, O>(s: Seq<PortalSlot<C, O>>, i: int)
    requires
        distinct_ids(s),
        0 <= i < s.len(),
    ensures
        distinct_ids(s.remove(i)),
        !contains_id(s.remove(i), s[i].id),
{
    let r = s.remove(i);
    assert forall|a: int, b: int| 0 <= a < b < r.len() implies (#[trigger] r[a]).id != (
    #[trigger] r[b]).id by {
        let a0 = if a < i { a } else { a + 1 };
        let b0 = if b < i { b } else { b + 1 };
        assert(r[a] == s[a0] && r[b] == s[b0]);
    }
    assert forall|a: int| 0 <= a < r.len() implies (#[trigger] r[a]).id != s[i].id by {
        let a0 = if a < i { a } else { a + 1 };
        assert(r[a] == s[a0]);
        if a0 < i {
            assert(s[a0].id != s[i].id);
        } else {
            assert(s[i].id != s[a0].id);
        }
    }
}

/// Registering keeps the identifiers distinct and makes `id` present.
pub proof fn lemma_registered_is_well_formed<C, O>(
    s: Seq<PortalSlot<C, O>>,
    id: PortalId,
    record: PortalRecord<C, O>,
)
    requires
        distinct_ids(s),
    ensures
        distinct_ids(registered(s, id, record)),
        contains_id(registered(s, id, record), id),
        registered(s, id, record)[position(registered(s, id, record), id)].record == record,
{
    let r = registered(s, id, record);
    if contains_id(s, id) {
        let p = position(s, id);
        assert forall|a: int, b: int| 0 <= a < b < r.len() implies (#[trigger] r[a]).id != (
        #[trigger] r[b]).id by {
            assert(r[a].id == s[a].id && r[b].id == s[b].id);
        }
        lemma_position_is_unique(r, p);
    } else {
        assert forall|a: int, b: int| 0 <= a < b < r.len() implies (#[trigger] r[a]).id != (
        #[trigger] r[b]).id by {
            assert(r[a] == s[a]);
            if b < s.len() {
                assert(r[b] == s[b]);
            }
        }
        lemma_position_is_unique(r, s.len() as int);
    }
}

/// Once a portal has been registered and removed again, it is gone, and a
/// change addressed to it leaves every record as it is.
pub proof fn lemma_update_after_remove_is_noop<C, O>(
    s: Seq<PortalSlot<C, O>>,
    id: PortalId,
    record: PortalRecord<C, O>,
    change: PortalChange<C, O>,
)
    requires
        distinct_ids(s),
    ensures
        !contains_id(removed(registered(s, id, record), id), id),
        updated(removed(registered(s, id, record), id), id, change) == removed(
            registered(s, id, record),
            id,
        ),
{
    let r = registered(s, id, record);
    lemma_registered_is_well_formed(s, id, record);
    lemma_removed_lacks_id(r, position(r, id));
}

/// Removing is idempotent: a second removal of the same identifier changes
/// nothing.
pub proof fn lemma_remove_is_idempotent<C, O>(s: Seq<PortalSlot<C, O>>, id: PortalId)
    requires
        distinct_ids(s),
    ensures
        removed(removed(s, id), id) == removed(s, id),
{
    if contains_id(s, id) {
        lemma_removed_lacks_id(s, position(s, id));
    }
}

/// What `overlay_owner` picks: an identifier of `ids` that has a backdrop and
/// after which none has one; and none only where no identifier has one.
pub proof fn lemma_overlay_owner_is_last<C, O>(s: Seq<PortalSlot<C, O>>, ids: Seq<PortalId>)
    ensures
        match overlay_owner(s, ids) {
            Some(id) => exists|k: int|
                {
                    &&& 0 <= k < ids.len()
                    &&& #[trigger] ids[k] == id
                    &&& has_overlay(s, id)
                    &&& forall|j: int| k < j < ids.len() ==> !has_overlay(s, #[trigger] ids[j])
                },
            None => forall|k: int| 0 <= k < ids.len() ==> !has_overlay(s, #[trigger] ids[k]),
        },
    decreases ids.len(),
{
    if ids.len() > 0 {
        let front = ids.drop_last();
        if has_overlay(s, ids.last()) {
            assert(ids[ids.len() - 1] == ids.last());
        } else {
            lemma_overlay_owner_is_last(s, front);
            match overlay_owner(s, front) {
                Some(id) => {
                    let k = choose|k: int|
                        {
                            &&& 0 <= k < front.len()
                            &&& #[trigger] front[k] == id
                            &&& has_overlay(s, id)
                            &&& forall|j: int|
                                k < j < front.len() ==> !has_overlay(s, #[trigger] front[j])
                        };
                    assert(ids[k] == id);
                    assert forall|j: int| k < j < ids.len() implies !has_overlay(
                        s,
                        #[trigger] ids[j],
                    ) by {
                        if j < front.len() {
                            assert(front[j] == ids[j]);
                        }
                    }
                },
                None => {
                    assert forall|k: int| 0 <= k < ids.len() implies !has_overlay(
                        s,
                        #[trigger] ids[k],
                    ) by {
                        if k < front.len() {
                            assert(front[k] == ids[k]);
                        }
                    }
                },
            }
        }
    }
}

/// Two sequences that are each in painting order and have the same members
/// are the same sequence.
pub proof fn lemma_same_members_same_order<C, O>(
    s: Seq<PortalSlot<C, O>>,
    a: Seq<PortalId>,
    b: Seq<PortalId>,
)
    requires
        strictly_stacked(s, a),
        strictly_stacked(s, b),
        forall|x: PortalId| a.contains(x) <==> b.contains(x),
    ensures
        a == b,
    decreases a.len(),
{
    if a.len() == 0 {
        if b.len() > 0 {
            assert(b.contains(b[0]));
            assert(a.contains(b[0]));
        }
        assert(a =~= b);
    } else {
        let x = a.last();
        assert(a[a.len() - 1] == x);
        assert(a.contains(x));
        assert(b.contains(x));
        let kb = choose|k: int| 0 <= k < b.len() && b[k] == x;
        let y = b.last();
        assert(b[b.len() - 1] == y);
        assert(b.contains(y));
        assert(a.contains(y));
        let ka = choose|k: int| 0 <= k < a.len() && a[k] == y;
        if x != y {
            assert(stacks_below(s, b[kb], b[b.len() - 1]));
            assert(stacks_below(s, a[ka], a[a.len() - 1]));
        }
        let a1 = a.drop_last();
        let b1 = b.drop_last();
        assert forall|i: int, j: int| 0 <= i < j < a1.len() implies stacks_below(
            s,
            #[trigger] a1[i],
            #[trigger] a1[j],
        ) by {
            assert(a1[i] == a[i] && a1[j] == a[j]);
        }
        assert forall|i: int, j: int| 0 <= i < j < b1.len() implies stacks_below(
            s,
            #[trigger] b1[i],
            #[trigger] b1[j],
        ) by {
            assert(b1[i] == b[i] && b1[j] == b[j]);
        }
        assert forall|z: PortalId| a1.contains(z) <==> b1.contains(z) by {
            if a1.contains(z) {
                let k = choose|k: int| 0 <= k < a1.len() && a1[k] == z;
                assert(a[k] == z);
                assert(stacks_below(s, a[k], a[a.len() - 1]));
                assert(a.contains(z));
                assert(b.contains(z));
                let m = choose|m: int| 0 <= m < b.len() && b[m] == z;
                assert(b1[m] == z);
            }
            if b1.contains(z) {
                let k = choose|k: int| 0 <= k < b1.len() && b1[k] == z;
                assert(b[k] == z);
                assert(stacks_below(s, b[k], b[b.len() - 1]));
                assert(b.contains(z));
                assert(a.contains(z));
                let m = choose|m: int| 0 <= m < a.len() && a[m] == z;
                assert(a1[m] == z);
            }
        }
        lemma_same_members_same_order(s, a1, b1);
        assert(a =~= a1.push(x));
        assert(b =~= b1.push(y));
    }
}

/// The painting order is determined by the registry: two sequences that both
/// list the open portals in painting order are equal.
pub proof fn lemma_open_stack_is_unique<C, O>(
    s: Seq<PortalSlot<C, O>>,
    a: Seq<PortalId>,
    b: Seq<PortalId>,
)
    requires
        is_open_stack(s, a),
        is_open_stack(s, b),
    ensures
        a == b,
{
    assert forall|x: PortalId| a.contains(x) <==> b.contains(x) by {
        if a.contains(x) {
            let k = choose|k: int| 0 <= k < a.len() && a[k] == x;
            assert(contains_id(s, a[k]));
            assert(s[position(s, x)].record.open);
        }
        if b.contains(x) {
            let k = choose|k: int| 0 <= k < b.len() && b[k] == x;
            assert(contains_id(s, b[k]));
            assert(s[position(s, x)].record.open);
        }
    }
    lemma_same_members_same_order(s, a, b);
}

} // verus!
