//! Data that every widget carries, and small enumerations used throughout.

use vstd::prelude::*;
use crate::geom::{Coord, Rect, Size};
use crate::id::WidgetId;

verus! {

/// The data common to all widgets.
///
/// `id` and `last` delimit the identifiers of the widget's subtree: `id` is
/// the widget's own, `last` that of its last descendant (its own where it
/// has none). Both are set when the tree is configured; `rect` is set by the
/// layout pass.
#[derive(Clone, Copy, Debug, PartialEq, Eq, Structural)]
pub struct CoreData {
    pub rect: Rect,
    pub id: WidgetId,
    pub last: WidgetId,
    pub disabled: bool,
}

impl CoreData {
    /// The data of a widget that has been neither configured nor laid out.
    pub open spec fn spec_unset() -> CoreData {
        CoreData {
            rect: Rect { pos: Coord(0, 0), size: Size(0, 0) },
            id: WidgetId(0),
            last: WidgetId(0),
            disabled: false,
        }
    }

    /// Whether `id` names the widget or one of its descendants.
    pub open spec fn spec_covers(&self, id: WidgetId) -> bool {
        self.id.0 <= id.0 && id.0 <= self.last.0
    }

    /// The same data with another rectangle.
    pub open spec fn with_rect(self, rect: Rect) -> CoreData {
        CoreData { rect, ..self }
    }

    #[verifier::when_used_as_spec(spec_unset)]
    pub fn unset() -> (r: CoreData)
        ensures
            r == Self::spec_unset(),
    {
        CoreData {
            rect: Rect { pos: Coord(0, 0), size: Size(0, 0) },
            id: WidgetId(0),
            last: WidgetId(0),
            disabled: false,
        }
    }

    #[verifier::when_used_as_spec(spec_covers)]
    pub fn covers(&self, id: WidgetId) -> (r: bool)
        ensures
            r == self.spec_covers(id),
    {
        self.id.0 <= id.0 && id.0 <= self.last.0
    }
}

impl Default for CoreData {
    fn default() -> (r: CoreData)
        ensures
            r == CoreData::spec_unset(),
    {
        CoreData::unset()
    }
}

/// Alignment of content within the space that it is given.
#[derive(Clone, Copy, Debug, PartialEq, Eq, Hash, Structural)]
pub enum Align {
    /// At the left or top.
    Begin,
    /// In the middle.
    Centre,
    /// At the right or bottom.
    End,
    /// Stretched over all of the space.
    Stretch,
}

impl Default for Align {
    fn default() -> (r: Align)
        ensures
            r == Align::Begin,
    {
        Align::Begin
    }
}

/// Alignment that a parent suggests to a child, per axis; `None` leaves the
/// choice to the child.
#[derive(Clone, Copy, Debug, PartialEq, Eq)]
pub struct AlignHints {
    pub horiz: Option<Align>,
    pub vert: Option<Align>,
}

impl AlignHints {
    /// No suggestion on either axis.
    pub open spec fn spec_unhinted() -> AlignHints {
        AlignHints { horiz: None, vert: None }
    }

    #[verifier::when_used_as_spec(spec_unhinted)]
    pub fn unhinted() -> (r: AlignHints)
        ensures
            r == Self::spec_unhinted(),
    {
        AlignHints { horiz: None, vert: None }
    }

    pub fn new(horiz: Option<Align>, vert: Option<Align>) -> (r: AlignHints)
        ensures
            r == (AlignHints { horiz, vert }),
    {
        AlignHints { horiz, vert }
    }
}

/// The direction in which a sequence of widgets runs or a popup opens.
#[derive(Clone, Copy, Debug, PartialEq, Eq, Hash, Structural)]
pub enum Direction {
    Right,
    Down,
    Left,
    Up,
}

impl Direction {
    pub open spec fn spec_is_vertical(self) -> bool {
        self == Direction::Down || self == Direction::Up
    }

    pub open spec fn spec_is_reversed(self) -> bool {
        self == Direction::Left || self == Direction::Up
    }

    #[verifier::when_used_as_spec(spec_is_vertical)]
    pub fn is_vertical(self) -> (r: bool)
        ensures
            r == self.spec_is_vertical(),
    {
        match self {
            Direction::Down | Direction::Up => true,
            _ => false,
        }
    }

    pub fn is_horizontal(self) -> (r: bool)
        ensures
            r == !self.spec_is_vertical(),
    {
        !self.is_vertical()
    }

    #[verifier::when_used_as_spec(spec_is_reversed)]
    pub fn is_reversed(self) -> (r: bool)
        ensures
            r == self.spec_is_reversed(),
    {
        match self {
            Direction::Left | Direction::Up => true,
            _ => false,
        }
    }
}

/// What the toolkit has to do once the current event has been handled.
/// Later variants include the work of earlier ones.
#[derive(Clone, Copy, Debug, PartialEq, Eq, Hash, Structural)]
pub enum TkAction {
    /// No action needed.
    Nothing,
    /// The window needs drawing again.
    Redraw,
    /// Some widgets have moved; hover targets are stale.
    RegionMoved,
    /// The popup stack has changed.
    Popup,
    /// The tree has changed shape and must be configured and laid out again.
    Reconfigure,
    /// The window should close.
    Close,
    /// All windows should close.
    CloseAll,
}

impl TkAction {
    pub open spec fn spec_rank(self) -> u8 {
        match self {
            TkAction::Nothing => 0u8,
            TkAction::Redraw => 1u8,
            TkAction::RegionMoved => 2u8,
            TkAction::Popup => 3u8,
            TkAction::Reconfigure => 4u8,
            TkAction::Close => 5u8,
            TkAction::CloseAll => 6u8,
        }
    }

    /// The action that includes the other; `self` where both are alike.
    pub open spec fn spec_stronger(self, rhs: TkAction) -> TkAction {
        if self.spec_rank() >= rhs.spec_rank() {
            self
        } else {
            rhs
        }
    }

    #[verifier::when_used_as_spec(spec_rank)]
    pub fn rank(self) -> (r: u8)
        ensures
            r == self.spec_rank(),
    {
        match self {
            TkAction::Nothing => 0,
            TkAction::Redraw => 1,
            TkAction::RegionMoved => 2,
            TkAction::Popup => 3,
            TkAction::Reconfigure => 4,
            TkAction::Close => 5,
            TkAction::CloseAll => 6,
        }
    }

    #[verifier::when_used_as_spec(spec_stronger)]
    pub fn stronger(self, rhs: TkAction) -> (r: TkAction)
        ensures
            r == self.spec_stronger(rhs),
    {
        if self.rank() >= rhs.rank() {
            self
        } else {
            rhs
        }
    }
}

} // verus!
