//! Placement of floating content (dropdowns, tooltips, dialogs) relative to an
//! anchor rectangle or centred in a container, together with the registry of
//! portals that drives it and the stacking order in which they are painted.
//!
//! All coordinates are integers in a fixed sub-pixel unit chosen by the caller.

pub mod geometry;
pub mod outlet;
pub mod placement;
pub mod registry;

pub use geometry::{AxisRange, Point, Rect, Size, COORD_LIMIT};
pub use outlet::{
    calc_content_position, entry_placement, outlet_plan, stack_items, ContentPlacement, RenderItem,
};
pub use placement::{
    calc_content_range, checked_content_range, desired_range, Alignment, AxisParam,
    OverflowPolicy, Spread,
};
pub use registry::{PortalChange, PortalId, PortalRecord, PortalRegistry, PortalSlot};
