//! Events, the sources of pointer input, and the response of a widget to an
//! event.

use vstd::prelude::*;
use crate::geom::Coord;
use crate::id::{UpdateHandle, WidgetId};

verus! {

/// A button of the mouse.
#[derive(Clone, Copy, Debug, PartialEq, Eq, Hash, Structural)]
pub enum MouseButton {
    Left,
    Right,
    Middle,
    Other(u8),
}

/// Where a press comes from: a mouse button, or a finger on a touch screen.
#[derive(Clone, Copy, Debug, PartialEq, Eq, Hash, Structural)]
pub enum PressSource {
    Mouse(MouseButton),
    Touch(u64),
}

impl PressSource {
    /// A press of the left mouse button, or any touch.
    pub open spec fn spec_is_primary(self) -> bool {
        match self {
            PressSource::Mouse(button) => button == MouseButton::Left,
            PressSource::Touch(_) => true,
        }
    }

    #[verifier::when_used_as_spec(spec_is_primary)]
    pub fn is_primary(self) -> (r: bool)
        ensures
            r == self.spec_is_primary(),
    {
        match self {
            PressSource::Mouse(MouseButton::Left) => true,
            PressSource::Mouse(_) => false,
            PressSource::Touch(_) => true,
        }
    }

    /// Whether two sources are the same.
    pub fn same(self, other: PressSource) -> (r: bool)
        ensures
            r == (self == other),
    {
        match (self, other) {
            (PressSource::Mouse(a), PressSource::Mouse(b)) => match (a, b) {
                (MouseButton::Left, MouseButton::Left) => true,
                (MouseButton::Right, MouseButton::Right) => true,
                (MouseButton::Middle, MouseButton::Middle) => true,
                (MouseButton::Other(x), MouseButton::Other(y)) => x == y,
                _ => false,
            },
            (PressSource::Touch(a), PressSource::Touch(b)) => a == b,
            _ => false,
        }
    }
}

/// What a grab is for.
#[derive(Clone, Copy, Debug, PartialEq, Eq, Hash, Structural)]
pub enum GrabMode {
    /// Deliver the moves and the end of the press to the grabbing widget.
    Grab,
    /// Deliver the moves as panning.
    Pan,
}

/// The shape of the mouse cursor over a widget.
#[derive(Clone, Copy, Debug, PartialEq, Eq, Hash, Structural)]
pub enum CursorIcon {
    Default,
    Hand,
    Text,
    Grabbing,
}

/// A key with a meaning for navigation or editing.
#[derive(Clone, Copy, Debug, PartialEq, Eq, Hash, Structural)]
pub enum ControlKey {
    Return,
    Escape,
    Tab,
    Left,
    Right,
    Up,
    Down,
    Home,
    End,
    Backspace,
    Delete,
}

/// Something that happened and is delivered to a widget.
#[derive(Clone, Copy, Debug, PartialEq, Eq)]
pub enum Event {
    /// No event.
    Nothing,
    /// The widget is activated: clicked, or chosen with the keyboard.
    Activate,
    /// A key was pressed while the widget had the keyboard focus.
    Control(ControlKey),
    /// A character was typed while the widget had the keyboard focus.
    ReceivedCharacter(char),
    /// A press began. `start_id` is the widget under `coord`.
    PressStart { source: PressSource, start_id: WidgetId, coord: Coord },
    /// A grabbed press moved. `cur_id` is the widget now under `coord`.
    PressMove { source: PressSource, cur_id: Option<WidgetId>, coord: Coord, delta: Coord },
    /// A grabbed press ended. `end_id` is the widget under `coord`.
    PressEnd { source: PressSource, end_id: Option<WidgetId>, coord: Coord },
    /// The widget should open its popup, if it has one.
    OpenPopup,
    /// An update was triggered on a handle that the widget registered for.
    HandleUpdate { handle: UpdateHandle, payload: u64 },
}

impl Event {
    /// Whether the event reports a press: its start, a move or its end.
    pub open spec fn spec_is_press(&self) -> bool {
        self is PressStart || self is PressMove || self is PressEnd
    }

    #[verifier::when_used_as_spec(spec_is_press)]
    pub fn is_press(&self) -> (r: bool)
        ensures
            r == self.spec_is_press(),
    {
        match self {
            Event::PressStart { .. } => true,
            Event::PressMove { .. } => true,
            Event::PressEnd { .. } => true,
            _ => false,
        }
    }
}

/// What came of delivering an event to a widget.
#[derive(Debug, PartialEq, Eq)]
pub enum Response<M> {
    /// The event was handled and there is nothing to report.
    Nothing,
    /// The widget did not use the event; the caller may offer it elsewhere.
    Unhandled(Event),
    /// The widget asks for its window to be closed.
    Close,
    /// The event was handled and led to a message for the parent.
    Msg(M),
}

impl<M> Response<M> {
    #[verifier::when_used_as_spec(spec_is_nothing)]
    pub fn is_nothing(&self) -> (r: bool)
        ensures
            r == (self is Nothing),
    {
        match self {
            Response::Nothing => true,
            _ => false,
        }
    }

    pub open spec fn spec_is_nothing(&self) -> bool {
        self is Nothing
    }

    #[verifier::when_used_as_spec(spec_is_unhandled)]
    pub fn is_unhandled(&self) -> (r: bool)
        ensures
            r == (self is Unhandled),
    {
        match self {
            Response::Unhandled(_) => true,
            _ => false,
        }
    }

    pub open spec fn spec_is_unhandled(&self) -> bool {
        self is Unhandled
    }

    #[verifier::when_used_as_spec(spec_is_msg)]
    pub fn is_msg(&self) -> (r: bool)
        ensures
            r == (self is Msg),
    {
        match self {
            Response::Msg(_) => true,
            _ => false,
        }
    }

    pub open spec fn spec_is_msg(&self) -> bool {
        self is Msg
    }
}

/// The highlights with which a widget is drawn.
#[derive(Clone, Copy, Debug, PartialEq, Eq, Structural)]
pub struct HighlightState {
    /// The mouse is over the widget.
    pub hover: bool,
    /// The widget is pressed.
    pub depress: bool,
    /// The widget has the keyboard focus.
    pub key_focus: bool,
}

impl HighlightState {
    /// No highlight at all.
    pub open spec fn spec_plain() -> HighlightState {
        HighlightState { hover: false, depress: false, key_focus: false }
    }

    #[verifier::when_used_as_spec(spec_plain)]
    pub fn plain() -> (r: HighlightState)
        ensures
            r == Self::spec_plain(),
    {
        HighlightState { hover: false, depress: false, key_focus: false }
    }

    /// Whether any highlight is set.
    pub fn any(&self) -> (r: bool)
        ensures
            r == (self.hover || self.depress || self.key_focus),
    {
        self.hover || self.depress || self.key_focus
    }
}

} // verus!
