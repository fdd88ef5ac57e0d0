//! Identifiers: of widgets within a tree, of windows, and of broadcast
//! channels.

use vstd::prelude::*;

verus! {

/// Identifies a widget within its tree.
///
/// Identifiers are handed out when a tree is configured, in the order in
/// which a depth-first walk first meets each widget: a widget comes before
/// all of its descendants and after everything below its earlier siblings.
/// The value `0` marks a widget that has not been configured.
#[derive(Clone, Copy, Debug, PartialEq, Eq, PartialOrd, Ord, Hash, Structural)]
pub struct WidgetId(pub u32);

impl WidgetId {
    /// The identifier that the root of a configured tree has.
    pub open spec fn spec_first() -> WidgetId {
        WidgetId(1)
    }

    #[verifier::when_used_as_spec(spec_first)]
    pub fn first() -> (r: WidgetId)
        ensures
            r == WidgetId(1),
    {
        WidgetId(1)
    }

    /// The identifier after `self`.
    pub fn next(self) -> (r: WidgetId)
        requires
            self.0 < u32::MAX,
        ensures
            r.0 == self.0 + 1,
    {
        WidgetId(self.0 + 1)
    }

    /// Whether the widget has been given an identifier.
    pub fn is_assigned(self) -> (r: bool)
        ensures
            r == (self.0 != 0),
    {
        self.0 != 0
    }
}

/// Identifies a window; popups are windows too.
#[derive(Clone, Copy, Debug, PartialEq, Eq, Hash, Structural)]
pub struct WindowId(pub u32);

/// Identifies a broadcast channel. Widgets register against a handle and are
/// all told when an update is triggered on it.
#[derive(Clone, Copy, Debug, PartialEq, Eq, Hash, Structural)]
pub struct UpdateHandle(pub u64);

impl UpdateHandle {
    pub fn new(channel: u64) -> (r: UpdateHandle)
        ensures
            r == UpdateHandle(channel),
    {
        UpdateHandle(channel)
    }
}

} // verus!
