//! Views: the identifiers the editor gives them, how their children are laid
//! out, the events they exchange, and the layout pipeline they run.

pub mod layout;
pub mod compose;

use vstd::prelude::*;

verus! {

/// The identifier of a view.
#[derive(Debug, Clone, Copy, PartialEq, Eq, Structural, PartialOrd, Ord, Hash)]
pub struct Id(pub usize);

/// How the children of a view are stacked.
#[derive(Debug, PartialEq, Eq, Structural, Clone, Copy)]
pub enum LayoutDirection {
    NotSet,
    Vertical,
    Horizontal,
}

/// The view that sends an event.
#[derive(Debug, Clone, Copy, PartialEq, Eq, Structural)]
pub struct ViewEventSource {
    pub id: Id,
}

/// The view an event is sent to.
#[derive(Debug, Clone, Copy, PartialEq, Eq, Structural)]
pub struct ViewEventDestination {
    pub id: Id,
}

/// What a view tells the views that subscribed to it.
#[derive(Debug, Clone, Copy, PartialEq, Eq, Structural)]
pub enum ViewEvent {
    Subscribe,
    PreLayoutSizing,
    PreComposition,
    PostComposition,
    OffsetsChange { start_offset: u64, end_offset: u64 },
    Enter,
    Leave,
    ViewSelected,
    ViewDeselected,
}

/// The view that drives another one, and the mode it runs.
pub struct ControllerView {
    pub id: Id,
    pub mode_name: &'static str,
}

} // verus!
