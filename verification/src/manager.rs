//! The event manager: the state of pointer grabs, focus and popups of one
//! window, and the operations through which widgets change it.
//!
//! The state has a mathematical model, [`ManagerModel`], and every operation
//! is a function on that model. The executable operations are proved to
//! compute those functions.

use vstd::prelude::*;
use crate::data::{Direction, TkAction};
use crate::event::{CursorIcon, GrabMode, HighlightState, PressSource};
use crate::geom::Coord;
use crate::id::{UpdateHandle, WidgetId, WindowId};

verus! {

/// A transient overlay: the widget `id` is shown in a window of its own,
/// anchored to the widget `parent` and opening in `direction`.
#[derive(Clone, Copy, Debug, PartialEq, Eq, Structural)]
pub struct Popup {
    pub id: WidgetId,
    pub parent: WidgetId,
    pub direction: Direction,
}

/// A pointer grab: the presses of `source` belong to the widget `id`.
#[derive(Clone, Copy, Debug, PartialEq, Eq)]
pub struct Grab {
    pub source: PressSource,
    /// The widget that holds the grab.
    pub id: WidgetId,
    pub mode: GrabMode,
    /// The widget that is drawn as pressed, if any.
    pub depress: Option<WidgetId>,
    /// Where the press was last seen.
    pub coord: Coord,
    /// The cursor shown while the grab lasts, if it is to change.
    pub cursor: Option<CursorIcon>,
}

/// An entry of the popup stack.
#[derive(Clone, Copy, Debug, PartialEq, Eq, Structural)]
pub struct OpenPopup {
    pub window: WindowId,
    pub popup: Popup,
}

/// The interest of a widget in a broadcast channel.
#[derive(Clone, Copy, Debug, PartialEq, Eq, Structural)]
pub struct Registration {
    pub handle: UpdateHandle,
    pub id: WidgetId,
    /// The time at which the widget registered.
    pub stamp: u64,
}

/// A triggered update that has not been delivered yet.
#[derive(Clone, Copy, Debug, PartialEq, Eq, Structural)]
pub struct Update {
    pub handle: UpdateHandle,
    pub payload: u64,
    /// The time at which the update was triggered.
    pub stamp: u64,
}

/// The state of a manager as a mathematical value.
pub struct ManagerModel {
    /// The grabs in force, in the order in which they were granted.
    pub grabs: Seq<Grab>,
    /// The widget that receives keyboard input.
    pub key_focus: Option<WidgetId>,
    /// The widget highlighted for keyboard navigation.
    pub nav_focus: Option<WidgetId>,
    /// The widget that a press has given the focus to.
    pub press_focus: Option<WidgetId>,
    /// The widget under the mouse.
    pub hover: Option<WidgetId>,
    /// The open popups, the topmost last.
    pub popups: Seq<OpenPopup>,
    /// The number that the next popup window gets.
    pub next_window: u32,
    /// Who is told of updates on which handle.
    pub registrations: Seq<Registration>,
    /// Updates triggered and not yet delivered, the oldest first.
    pub pending: Seq<Update>,
    /// The time: it goes on with every registration and every update that
    /// is triggered, so that it is known which came first.
    pub clock: u64,
    /// What the toolkit has to do after the current event.
    pub action: TkAction,
}

impl ManagerModel {
    /// The state of a new window: nothing grabbed, focused or open.
    pub open spec fn initial() -> ManagerModel {
        ManagerModel {
            grabs: Seq::empty(),
            key_focus: None,
            nav_focus: None,
            press_focus: None,
            hover: None,
            popups: Seq::empty(),
            next_window: 1,
            registrations: Seq::empty(),
            pending: Seq::empty(),
            clock: 0,
            action: TkAction::Nothing,
        }
    }

    /// The state a moment later. Time stands still once it cannot be
    /// counted any further.
    pub open spec fn ticked(self) -> ManagerModel {
        ManagerModel {
            clock: if self.clock < u64::MAX {
                (self.clock + 1) as u64
            } else {
                self.clock
            },
            ..self
        }
    }

    /// The state with the time set forward to `time`, if that is later.
    pub open spec fn advanced(self, time: u64) -> ManagerModel {
        ManagerModel {
            clock: if self.clock < time {
                time
            } else {
                self.clock
            },
            ..self
        }
    }

    /// No source is grabbed twice, and no two popups share a window, each
    /// window number having been handed out already.
    pub open spec fn wf(self) -> bool {
        &&& forall|i: int, j: int|
            0 <= i < j < self.grabs.len() ==> (#[trigger] self.grabs[i]).source != (
            #[trigger] self.grabs[j]).source
        &&& forall|i: int, j: int|
            0 <= i < j < self.popups.len() ==> (#[trigger] self.popups[i]).window != (
            #[trigger] self.popups[j]).window
        &&& forall|i: int|
            0 <= i < self.popups.len() ==> (#[trigger] self.popups[i]).window.0 < self.next_window
    }

    /// Whether `source` is grabbed.
    pub open spec fn has_grab(self, source: PressSource) -> bool {
        exists|i: int| 0 <= i < self.grabs.len() && (#[trigger] self.grabs[i]).source == source
    }

    /// The place of the grab of `source` among the grabs.
    pub open spec fn grab_index(self, source: PressSource) -> int {
        choose|i: int| 0 <= i < self.grabs.len() && (#[trigger] self.grabs[i]).source == source
    }

    /// The grab of `source`, if it is grabbed.
    pub open spec fn grab_of(self, source: PressSource) -> Option<Grab> {
        if self.has_grab(source) {
            Some(self.grabs[self.grab_index(source)])
        } else {
            None
        }
    }

    /// The widget that holds the grab of `source`, if any does.
    pub open spec fn holder(self, source: PressSource) -> Option<WidgetId> {
        match self.grab_of(source) {
            Some(g) => Some(g.id),
            None => None,
        }
    }

    /// Whether some grab shows `id` as pressed.
    pub open spec fn depressed(self, id: WidgetId) -> bool {
        exists|i: int| 0 <= i < self.grabs.len() && (#[trigger] self.grabs[i]).depress == Some(id)
    }

    /// Whether a popup is open in window `window`.
    pub open spec fn has_window(self, window: WindowId) -> bool {
        exists|i: int| 0 <= i < self.popups.len() && (#[trigger] self.popups[i]).window == window
    }

    /// The place of the popup of window `window` on the stack.
    pub open spec fn window_index(self, window: WindowId) -> int {
        choose|i: int| 0 <= i < self.popups.len() && (#[trigger] self.popups[i]).window == window
    }

    /// The same state with the action raised to include `action`.
    pub open spec fn with_action(self, action: TkAction) -> ManagerModel {
        ManagerModel { action: self.action.spec_stronger(action), ..self }
    }

    /// A request for the grab of `source` by widget `id`. It is granted if
    /// and only if the source is not grabbed; the new grab shows `id` itself
    /// as pressed. A request that is refused changes nothing.
    pub open spec fn request_grab(
        self,
        id: WidgetId,
        source: PressSource,
        coord: Coord,
        mode: GrabMode,
        cursor: Option<CursorIcon>,
    ) -> (ManagerModel, bool) {
        if self.has_grab(source) {
            (self, false)
        } else {
            let grab = Grab { source, id, mode, depress: Some(id), coord, cursor };
            (ManagerModel { grabs: self.grabs.push(grab), ..self }.with_action(TkAction::Redraw), true)
        }
    }

    /// The widget drawn as pressed under the grab of `source` becomes
    /// `target`. Who holds the grab does not change; without a grab nothing
    /// does.
    pub open spec fn set_grab_depress(self, source: PressSource, target: Option<WidgetId>) -> ManagerModel {
        if self.has_grab(source) {
            let i = self.grab_index(source);
            let grab = Grab { depress: target, ..self.grabs[i] };
            ManagerModel { grabs: self.grabs.update(i, grab), ..self }.with_action(TkAction::Redraw)
        } else {
            self
        }
    }

    /// The grab of `source` records that the press is now at `coord`.
    pub open spec fn move_grab(self, source: PressSource, coord: Coord) -> ManagerModel {
        if self.has_grab(source) {
            let i = self.grab_index(source);
            let grab = Grab { coord, ..self.grabs[i] };
            ManagerModel { grabs: self.grabs.update(i, grab), ..self }
        } else {
            self
        }
    }

    /// The grab of `source` ends, whoever holds it.
    pub open spec fn end_grab(self, source: PressSource) -> ManagerModel {
        if self.has_grab(source) {
            ManagerModel { grabs: self.grabs.remove(self.grab_index(source)), ..self }.with_action(
                TkAction::Redraw,
            )
        } else {
            self
        }
    }

    /// All grabs end, as when the window loses the focus.
    pub open spec fn release_grabs(self) -> ManagerModel {
        if self.grabs.len() > 0 {
            ManagerModel { grabs: Seq::empty(), ..self }.with_action(TkAction::Redraw)
        } else {
            self
        }
    }

    /// `popup` is pushed onto the stack under a new window number, which is
    /// returned. When the numbers have run out, nothing changes and `None`
    /// is returned.
    pub open spec fn add_popup(self, popup: Popup) -> (ManagerModel, Option<WindowId>) {
        if self.next_window < u32::MAX {
            let window = WindowId(self.next_window);
            (
                ManagerModel {
                    popups: self.popups.push(OpenPopup { window, popup }),
                    next_window: (self.next_window + 1) as u32,
                    ..self
                }.with_action(TkAction::Popup),
                Some(window),
            )
        } else {
            (self, None)
        }
    }

    /// The popup of window `window` leaves the stack; the others keep their
    /// order. Without such a popup nothing changes.
    pub open spec fn close_window(self, window: WindowId) -> ManagerModel {
        if self.has_window(window) {
            ManagerModel { popups: self.popups.remove(self.window_index(window)), ..self }.with_action(
                TkAction::Popup,
            )
        } else {
            self
        }
    }

    pub open spec fn set_press_focus(self, target: Option<WidgetId>) -> ManagerModel {
        ManagerModel { press_focus: target, ..self }
    }

    pub open spec fn set_key_focus(self, target: Option<WidgetId>) -> ManagerModel {
        if self.key_focus == target {
            self
        } else {
            ManagerModel { key_focus: target, ..self }.with_action(TkAction::Redraw)
        }
    }

    pub open spec fn set_nav_focus(self, target: Option<WidgetId>) -> ManagerModel {
        if self.nav_focus == target {
            self
        } else {
            ManagerModel { nav_focus: target, ..self }.with_action(TkAction::Redraw)
        }
    }

    pub open spec fn set_hover(self, target: Option<WidgetId>) -> ManagerModel {
        if self.hover == target {
            self
        } else {
            ManagerModel { hover: target, ..self }.with_action(TkAction::Redraw)
        }
    }

    /// Widget `id` will be told of the updates on `handle` that are triggered
    /// from now on.
    pub open spec fn update_on_handle(self, handle: UpdateHandle, id: WidgetId) -> ManagerModel {
        ManagerModel {
            registrations: self.registrations.push(Registration { handle, id, stamp: self.clock }),
            ..self
        }.ticked()
    }

    /// An update on `handle` is scheduled; it is delivered after the
    /// current event.
    pub open spec fn trigger_update(self, handle: UpdateHandle, payload: u64) -> ManagerModel {
        ManagerModel { pending: self.pending.push(Update { handle, payload, stamp: self.clock }), ..self }.ticked()
    }

    /// The state with no update pending.
    pub open spec fn without_pending(self) -> ManagerModel {
        ManagerModel { pending: Seq::empty(), ..self }
    }

    /// The state with no action asked of the toolkit.
    pub open spec fn without_action(self) -> ManagerModel {
        ManagerModel { action: TkAction::Nothing, ..self }
    }

    /// The highlights with which widget `id` is drawn.
    pub open spec fn highlights(self, id: WidgetId, disabled: bool) -> HighlightState {
        if disabled {
            HighlightState::spec_plain()
        } else {
            HighlightState {
                hover: self.hover == Some(id),
                depress: self.depressed(id),
                key_focus: self.key_focus == Some(id),
            }
        }
    }
}

/// The widgets registered for `handle`, in the order of registration.
pub open spec fn registered(registrations: Seq<Registration>, handle: UpdateHandle) -> Seq<WidgetId>
    decreases registrations.len(),
{
    if registrations.len() == 0 {
        Seq::empty()
    } else {
        let rest = registered(registrations.drop_last(), handle);
        if registrations.last().handle == handle {
            rest.push(registrations.last().id)
        } else {
            rest
        }
    }
}

/// The widgets that an update is delivered to, in the order of
/// registration: those that registered for its handle before the update was
/// triggered. A widget that registers later is not told of it.
pub open spec fn served(registrations: Seq<Registration>, update: Update) -> Seq<WidgetId>
    decreases registrations.len(),
{
    if registrations.len() == 0 {
        Seq::empty()
    } else {
        let rest = served(registrations.drop_last(), update);
        let last = registrations.last();
        if last.handle == update.handle && last.stamp < update.stamp {
            rest.push(last.id)
        } else {
            rest
        }
    }
}

/// A widget that registers after an update was triggered is not told of
/// that update: the update is delivered to the same widgets as if the
/// widget had not registered.
pub proof fn lemma_late_registration_lost(
    m: ManagerModel,
    handle: UpdateHandle,
    payload: u64,
    other: UpdateHandle,
    id: WidgetId,
)
    ensures
        ({
            let triggered = m.trigger_update(handle, payload);
            let update = triggered.pending.last();
            let late = triggered.update_on_handle(other, id);
            &&& update == (Update { handle, payload, stamp: m.clock })
            &&& late.pending == triggered.pending
            &&& served(late.registrations, update) == served(m.registrations, update)
        }),
{
    let triggered = m.trigger_update(handle, payload);
    let late = triggered.update_on_handle(other, id);
    assert(late.registrations.drop_last() =~= m.registrations);
}

/// A widget that registers before an update on its handle is triggered is
/// told of that update, as long as time can be counted.
pub proof fn lemma_early_registration_served(m: ManagerModel, handle: UpdateHandle, payload: u64, id: WidgetId)
    requires
        m.clock < u64::MAX,
    ensures
        ({
            let early = m.update_on_handle(handle, id);
            let triggered = early.trigger_update(handle, payload);
            let update = triggered.pending.last();
            served(triggered.registrations, update) == served(m.registrations, update).push(id)
        }),
{
    let early = m.update_on_handle(handle, id);
    assert(early.registrations.drop_last() =~= m.registrations);
}

/// The part of a manager that lasts from one event to the next and that
/// widgets may read while they are drawn.
pub struct ManagerState {
    grabs: Vec<Grab>,
    key_focus: Option<WidgetId>,
    nav_focus: Option<WidgetId>,
    press_focus: Option<WidgetId>,
    hover: Option<WidgetId>,
    popups: Vec<OpenPopup>,
    next_window: u32,
    registrations: Vec<Registration>,
}

/// The manager of one window. It owns the window's [`ManagerState`]; widgets
/// are lent the manager while they handle an event and change the state
/// only through its methods.
pub struct Manager {
    state: ManagerState,
    pending: Vec<Update>,
    clock: u64,
    action: TkAction,
}

impl View for Manager {
    type V = ManagerModel;

    closed spec fn view(&self) -> ManagerModel {
        ManagerModel {
            grabs: self.state.grabs@,
            key_focus: self.state.key_focus,
            nav_focus: self.state.nav_focus,
            press_focus: self.state.press_focus,
            hover: self.state.hover,
            popups: self.state.popups@,
            next_window: self.state.next_window,
            registrations: self.state.registrations@,
            pending: self.pending@,
            clock: self.clock,
            action: self.action,
        }
    }
}

/// Whether two optional identifiers are equal.
pub fn same_target(a: Option<WidgetId>, b: Option<WidgetId>) -> (r: bool)
    ensures
        r == (a == b),
{
    match (a, b) {
        (Some(x), Some(y)) => x.0 == y.0,
        (None, None) => true,
        _ => false,
    }
}

impl ManagerState {
    /// The highlights with which widget `id` is drawn, as they stand in a
    /// manager whose model is `m`.
    pub closed spec fn shows(&self, id: WidgetId, disabled: bool) -> HighlightState {
        if disabled {
            HighlightState::spec_plain()
        } else {
            HighlightState {
                hover: self.hover == Some(id),
                depress: exists|i: int| 0 <= i < self.grabs@.len() && (#[trigger] self.grabs@[i]).depress == Some(id),
                key_focus: self.key_focus == Some(id),
            }
        }
    }

    /// Whether some grab shows widget `id` as pressed.
    pub fn is_depressed(&self, id: WidgetId) -> (r: bool)
        ensures
            r == self.shows(id, false).depress,
    {
        let mut i: usize = 0;
        while i < self.grabs.len()
            invariant
                0 <= i <= self.grabs.len(),
                forall|j: int| 0 <= j < i ==> (#[trigger] self.grabs@[j]).depress != Some(id),
            decreases self.grabs.len() - i,
        {
            if same_target(self.grabs[i].depress, Some(id)) {
                return true;
            }
            i += 1;
        }
        false
    }

    /// The highlights with which widget `id` is drawn; none for a disabled
    /// widget.
    pub fn highlights(&self, id: WidgetId, disabled: bool) -> (r: HighlightState)
        ensures
            r == self.shows(id, disabled),
    {
        if disabled {
            HighlightState::plain()
        } else {
            HighlightState {
                hover: same_target(self.hover, Some(id)),
                depress: self.is_depressed(id),
                key_focus: same_target(self.key_focus, Some(id)),
            }
        }
    }
}

impl Manager {
    /// A manager for a new window.
    pub fn new() -> (r: Manager)
        ensures
            r@ == ManagerModel::initial(),
            r@.wf(),
    {
        Manager {
            state: ManagerState {
                grabs: Vec::new(),
                key_focus: None,
                nav_focus: None,
                press_focus: None,
                hover: None,
                popups: Vec::new(),
                next_window: 1,
                registrations: Vec::new(),
            },
            pending: Vec::new(),
            clock: 0,
            action: TkAction::Nothing,
        }
    }

    /// The state that widgets read while they are drawn.
    pub fn state(&self) -> (r: &ManagerState)
        ensures
            forall|id: WidgetId, disabled: bool| #[trigger] r.shows(id, disabled) == self@.highlights(id, disabled),
    {
        &self.state
    }

    /// Where the grab of `source` stands among the grabs, if there is one.
    fn find_grab(&self, source: PressSource) -> (r: Option<usize>)
        ensures
            r is Some == self@.has_grab(source),
            r matches Some(i) ==> i < self@.grabs.len() && self@.grabs[i as int].source == source,
    {
        let mut i: usize = 0;
        while i < self.state.grabs.len()
            invariant
                0 <= i <= self.state.grabs.len(),
                forall|j: int| 0 <= j < i ==> (#[trigger] self.state.grabs@[j]).source != source,
            decreases self.state.grabs.len() - i,
        {
            if self.state.grabs[i].source.same(source) {
                return Some(i);
            }
            i += 1;
        }
        None
    }

    /// Where the popup of `window` stands on the stack, if it is open.
    fn find_window(&self, window: WindowId) -> (r: Option<usize>)
        ensures
            r is Some == self@.has_window(window),
            r matches Some(i) ==> i < self@.popups.len() && self@.popups[i as int].window == window,
    {
        let mut i: usize = 0;
        while i < self.state.popups.len()
            invariant
                0 <= i <= self.state.popups.len(),
                forall|j: int| 0 <= j < i ==> (#[trigger] self.state.popups@[j]).window != window,
            decreases self.state.popups.len() - i,
        {
            if self.state.popups[i].window.0 == window.0 {
                return Some(i);
            }
            i += 1;
        }
        None
    }

    /// Raises the action asked of the toolkit to include `action`.
    pub fn send_action(&mut self, action: TkAction)
        ensures
            final(self)@ == old(self)@.with_action(action),
    {
        self.action = self.action.stronger(action);
    }

    /// The grab of `source`, if it is grabbed.
    pub fn grab_of(&self, source: PressSource) -> (r: Option<Grab>)
        requires
            self@.wf(),
        ensures
            r == self@.grab_of(source),
    {
        match self.find_grab(source) {
            Some(i) => Some(self.state.grabs[i]),
            None => None,
        }
    }

    /// The widget that holds the grab of `source`, if any does.
    pub fn grab_holder(&self, source: PressSource) -> (r: Option<WidgetId>)
        requires
            self@.wf(),
        ensures
            r == self@.holder(source),
    {
        match self.grab_of(source) {
            Some(g) => Some(g.id),
            None => None,
        }
    }

    /// Asks for the grab of `source` on behalf of widget `id`.
    ///
    /// Returns `true` and installs the grab if the source was free; returns
    /// `false` and changes nothing if it was not.
    pub fn request_grab(
        &mut self,
        id: WidgetId,
        source: PressSource,
        coord: Coord,
        mode: GrabMode,
        cursor: Option<CursorIcon>,
    ) -> (r: bool)
        requires
            old(self)@.wf(),
        ensures
            (final(self)@, r) == old(self)@.request_grab(id, source, coord, mode, cursor),
            r == !old(self)@.has_grab(source),
            !r ==> final(self)@ == old(self)@,
            r ==> final(self)@.holder(source) == Some(id),
            final(self)@.wf(),
    {
        if self.find_grab(source).is_some() {
            return false;
        }
        self.state.grabs.push(Grab { source, id, mode, depress: Some(id), coord, cursor });
        self.action = self.action.stronger(TkAction::Redraw);
        proof {
            lemma_request_grab(old(self)@, id, source, coord, mode, cursor);
        }
        true
    }

    /// Sets the widget that is drawn as pressed under the grab of `source`.
    pub fn set_grab_depress(&mut self, source: PressSource, target: Option<WidgetId>)
        requires
            old(self)@.wf(),
        ensures
            final(self)@ == old(self)@.set_grab_depress(source, target),
            final(self)@.wf(),
            forall|s: PressSource| final(self)@.holder(s) == old(self)@.holder(s),
    {
        proof {
            lemma_set_grab_depress(self@, source, target);
        }
        if let Some(i) = self.find_grab(source) {
            let g = self.state.grabs[i];
            self.state.grabs.set(i, Grab { depress: target, ..g });
            self.action = self.action.stronger(TkAction::Redraw);
        }
    }

    /// Records where the grabbed press of `source` now is.
    pub fn move_grab(&mut self, source: PressSource, coord: Coord)
        requires
            old(self)@.wf(),
        ensures
            final(self)@ == old(self)@.move_grab(source, coord),
            final(self)@.wf(),
    {
        proof {
            lemma_move_grab(self@, source, coord);
        }
        if let Some(i) = self.find_grab(source) {
            let g = self.state.grabs[i];
            self.state.grabs.set(i, Grab { coord, ..g });
        }
    }

    /// Ends the grab of `source`, whoever holds it.
    pub fn end_grab(&mut self, source: PressSource)
        requires
            old(self)@.wf(),
        ensures
            final(self)@ == old(self)@.end_grab(source),
            final(self)@.wf(),
            !final(self)@.has_grab(source),
    {
        proof {
            lemma_end_grab(self@, source);
        }
        if let Some(i) = self.find_grab(source) {
            self.state.grabs.remove(i);
            self.action = self.action.stronger(TkAction::Redraw);
        }
    }

    /// Ends all grabs without asking their holders.
    pub fn release_grabs(&mut self)
        requires
            old(self)@.wf(),
        ensures
            final(self)@ == old(self)@.release_grabs(),
            final(self)@.wf(),
            final(self)@.grabs.len() == 0,
    {
        if self.state.grabs.len() > 0 {
            self.state.grabs.clear();
            self.action = self.action.stronger(TkAction::Redraw);
        }
    }

    /// Opens `popup` on top of the stack and returns the number of its
    /// window; `None`, with nothing changed, when the numbers have run out.
    pub fn add_popup(&mut self, popup: Popup) -> (r: Option<WindowId>)
        requires
            old(self)@.wf(),
        ensures
            (final(self)@, r) == old(self)@.add_popup(popup),
            final(self)@.wf(),
    {
        if self.state.next_window < u32::MAX {
            let window = WindowId(self.state.next_window);
            self.state.popups.push(OpenPopup { window, popup });
            self.state.next_window = self.state.next_window + 1;
            self.action = self.action.stronger(TkAction::Popup);
            Some(window)
        } else {
            None
        }
    }

    /// Closes the popup of window `window`, if it is open.
    pub fn close_window(&mut self, window: WindowId)
        requires
            old(self)@.wf(),
        ensures
            final(self)@ == old(self)@.close_window(window),
            final(self)@.wf(),
            !final(self)@.has_window(window),
    {
        proof {
            lemma_close_window(self@, window);
        }
        if let Some(i) = self.find_window(window) {
            self.state.popups.remove(i);
            self.action = self.action.stronger(TkAction::Popup);
        }
    }

    /// The number of open popups.
    pub fn popup_count(&self) -> (r: usize)
        ensures
            r == self@.popups.len(),
    {
        self.state.popups.len()
    }

    /// The topmost popup, if any is open.
    pub fn top_popup(&self) -> (r: Option<OpenPopup>)
        ensures
            r == if self@.popups.len() > 0 {
                Some(self@.popups.last())
            } else {
                None
            },
    {
        let n = self.state.popups.len();
        if n > 0 {
            Some(self.state.popups[n - 1])
        } else {
            None
        }
    }

    pub fn set_press_focus(&mut self, target: Option<WidgetId>)
        ensures
            final(self)@ == old(self)@.set_press_focus(target),
    {
        self.state.press_focus = target;
    }

    pub fn set_key_focus(&mut self, target: Option<WidgetId>)
        ensures
            final(self)@ == old(self)@.set_key_focus(target),
    {
        if !same_target(self.state.key_focus, target) {
            self.state.key_focus = target;
            self.action = self.action.stronger(TkAction::Redraw);
        }
    }

    pub fn set_nav_focus(&mut self, target: Option<WidgetId>)
        ensures
            final(self)@ == old(self)@.set_nav_focus(target),
    {
        if !same_target(self.state.nav_focus, target) {
            self.state.nav_focus = target;
            self.action = self.action.stronger(TkAction::Redraw);
        }
    }

    pub fn set_hover(&mut self, target: Option<WidgetId>)
        ensures
            final(self)@ == old(self)@.set_hover(target),
    {
        if !same_target(self.state.hover, target) {
            self.state.hover = target;
            self.action = self.action.stronger(TkAction::Redraw);
        }
    }

    pub fn key_focus(&self) -> (r: Option<WidgetId>)
        ensures
            r == self@.key_focus,
    {
        self.state.key_focus
    }

    pub fn nav_focus(&self) -> (r: Option<WidgetId>)
        ensures
            r == self@.nav_focus,
    {
        self.state.nav_focus
    }

    pub fn press_focus(&self) -> (r: Option<WidgetId>)
        ensures
            r == self@.press_focus,
    {
        self.state.press_focus
    }

    pub fn hover(&self) -> (r: Option<WidgetId>)
        ensures
            r == self@.hover,
    {
        self.state.hover
    }

    /// Registers widget `id` for the updates on `handle`.
    pub fn update_on_handle(&mut self, handle: UpdateHandle, id: WidgetId)
        ensures
            final(self)@ == old(self)@.update_on_handle(handle, id),
    {
        self.state.registrations.push(Registration { handle, id, stamp: self.clock });
        if self.clock < u64::MAX {
            self.clock = self.clock + 1;
        }
    }

    /// Schedules an update on `handle`. Nothing is delivered before the
    /// current event has been handled.
    pub fn trigger_update(&mut self, handle: UpdateHandle, payload: u64)
        ensures
            final(self)@ == old(self)@.trigger_update(handle, payload),
    {
        self.pending.push(Update { handle, payload, stamp: self.clock });
        if self.clock < u64::MAX {
            self.clock = self.clock + 1;
        }
    }

    /// Takes the updates that wait for delivery, the oldest first.
    pub fn take_pending(&mut self) -> (r: Vec<Update>)
        ensures
            r@ == old(self)@.pending,
            final(self)@ == old(self)@.without_pending(),
    {
        let mut out: Vec<Update> = Vec::new();
        std::mem::swap(&mut out, &mut self.pending);
        out
    }

    /// Takes the action asked of the toolkit and resets it.
    pub fn take_action(&mut self) -> (r: TkAction)
        ensures
            r == old(self)@.action,
            final(self)@ == old(self)@.without_action(),
    {
        let action = self.action;
        self.action = TkAction::Nothing;
        action
    }

    /// The time of the manager.
    pub fn clock(&self) -> (r: u64)
        ensures
            r == self@.clock,
    {
        self.clock
    }

    /// Sets the time forward to `time`, if that is later. Managers that
    /// share updates are kept in time with each other in this way.
    pub fn advance_clock(&mut self, time: u64)
        ensures
            final(self)@ == old(self)@.advanced(time),
    {
        if self.clock < time {
            self.clock = time;
        }
    }

    /// The widgets that `update` is delivered to, in the order of
    /// registration.
    pub fn served(&self, update: Update) -> (r: Vec<WidgetId>)
        ensures
            r@ == served(self@.registrations, update),
    {
        let mut out: Vec<WidgetId> = Vec::new();
        let mut i: usize = 0;
        while i < self.state.registrations.len()
            invariant
                0 <= i <= self.state.registrations.len(),
                out@ == served(self.state.registrations@.subrange(0, i as int), update),
            decreases self.state.registrations.len() - i,
        {
            proof {
                let next = self.state.registrations@.subrange(0, i as int + 1);
                assert(next.drop_last() =~= self.state.registrations@.subrange(0, i as int));
            }
            let reg = self.state.registrations[i];
            if reg.handle.0 == update.handle.0 && reg.stamp < update.stamp {
                out.push(reg.id);
            }
            i += 1;
        }
        proof {
            assert(self.state.registrations@.subrange(0, i as int) =~= self.state.registrations@);
        }
        out
    }

    /// The widgets registered for `handle`, in the order of registration.
    pub fn registered(&self, handle: UpdateHandle) -> (r: Vec<WidgetId>)
        ensures
            r@ == registered(self@.registrations, handle),
    {
        let mut out: Vec<WidgetId> = Vec::new();
        let mut i: usize = 0;
        while i < self.state.registrations.len()
            invariant
                0 <= i <= self.state.registrations.len(),
                out@ == registered(self.state.registrations@.subrange(0, i as int), handle),
            decreases self.state.registrations.len() - i,
        {
            proof {
                let next = self.state.registrations@.subrange(0, i as int + 1);
                assert(next.drop_last() =~= self.state.registrations@.subrange(0, i as int));
            }
            let reg = self.state.registrations[i];
            if reg.handle.0 == handle.0 {
                out.push(reg.id);
            }
            i += 1;
        }
        proof {
            assert(self.state.registrations@.subrange(0, i as int) =~= self.state.registrations@);
        }
        out
    }
}

/// Granting a grab keeps the state well-formed and makes the widget that
/// asked the holder.
pub proof fn lemma_request_grab(
    m: ManagerModel,
    id: WidgetId,
    source: PressSource,
    coord: Coord,
    mode: GrabMode,
    cursor: Option<CursorIcon>,
)
    requires
        m.wf(),
    ensures
        m.request_grab(id, source, coord, mode, cursor).0.wf(),
        m.request_grab(id, source, coord, mode, cursor).1 ==> m.request_grab(id, source, coord, mode, cursor).0.holder(
            source,
        ) == Some(id),
{
    let after = m.request_grab(id, source, coord, mode, cursor).0;
    if !m.has_grab(source) {
        let n = m.grabs.len() as int;
        assert(after.grabs[n].source == source);
        assert(after.has_grab(source));
        let k = after.grab_index(source);
        if k < n {
            assert(m.grabs[k].source == source);
        }
        assert forall|i: int, j: int| 0 <= i < j < after.grabs.len() implies (#[trigger] after.grabs[i]).source != (
        #[trigger] after.grabs[j]).source by {
            if j < n {
                assert(m.grabs[i].source != m.grabs[j].source);
            } else {
                assert(m.grabs[i].source != source);
            }
        }
    }
}

/// Changing the pressed widget of a grab keeps the state well-formed and
/// leaves every grab with its holder.
pub proof fn lemma_set_grab_depress(m: ManagerModel, source: PressSource, target: Option<WidgetId>)
    requires
        m.wf(),
    ensures
        m.set_grab_depress(source, target).wf(),
        forall|s: PressSource| m.set_grab_depress(source, target).holder(s) == m.holder(s),
{
    let after = m.set_grab_depress(source, target);
    if m.has_grab(source) {
        let i = m.grab_index(source);
        assert forall|s: PressSource| after.holder(s) == m.holder(s) by {
            if m.has_grab(s) {
                let k = m.grab_index(s);
                assert(after.grabs[k].source == s);
                assert(after.has_grab(s));
                let k2 = after.grab_index(s);
                assert(m.grabs[k2].source == s);
            } else {
                if after.has_grab(s) {
                    let k2 = after.grab_index(s);
                    assert(m.grabs[k2].source == s);
                }
            }
        }
        assert forall|a: int, b: int| 0 <= a < b < after.grabs.len() implies (#[trigger] after.grabs[a]).source != (
        #[trigger] after.grabs[b]).source by {
            assert(m.grabs[a].source != m.grabs[b].source);
        }
    }
}

/// Recording the position of a press keeps the state well-formed.
pub proof fn lemma_move_grab(m: ManagerModel, source: PressSource, coord: Coord)
    requires
        m.wf(),
    ensures
        m.move_grab(source, coord).wf(),
        forall|s: PressSource| m.move_grab(source, coord).holder(s) == m.holder(s),
{
    let after = m.move_grab(source, coord);
    if m.has_grab(source) {
        assert forall|s: PressSource| after.holder(s) == m.holder(s) by {
            if m.has_grab(s) {
                let k = m.grab_index(s);
                assert(after.grabs[k].source == s);
                assert(after.has_grab(s));
                let k2 = after.grab_index(s);
                assert(m.grabs[k2].source == s);
            } else {
                if after.has_grab(s) {
                    let k2 = after.grab_index(s);
                    assert(m.grabs[k2].source == s);
                }
            }
        }
        assert forall|a: int, b: int| 0 <= a < b < after.grabs.len() implies (#[trigger] after.grabs[a]).source != (
        #[trigger] after.grabs[b]).source by {
            assert(m.grabs[a].source != m.grabs[b].source);
        }
    }
}

/// Ending a grab keeps the state well-formed and frees the source.
pub proof fn lemma_end_grab(m: ManagerModel, source: PressSource)
    requires
        m.wf(),
    ensures
        m.end_grab(source).wf(),
        !m.end_grab(source).has_grab(source),
{
    let after = m.end_grab(source);
    if m.has_grab(source) {
        let i = m.grab_index(source);
        assert forall|a: int, b: int| 0 <= a < b < after.grabs.len() implies (#[trigger] after.grabs[a]).source != (
        #[trigger] after.grabs[b]).source by {
            let a0 = if a < i { a } else { a + 1 };
            let b0 = if b < i { b } else { b + 1 };
            assert(m.grabs[a0].source != m.grabs[b0].source);
        }
        if after.has_grab(source) {
            let k = after.grab_index(source);
            let k0 = if k < i { k } else { k + 1 };
            assert(m.grabs[k0].source == source);
            assert(m.grabs[i].source == source);
            assert(false);
        }
    }
}

/// Opening a popup keeps the state well-formed; the popup is on top of
/// the stack, which has grown by one, unless the window numbers have run
/// out.
pub proof fn lemma_add_popup(m: ManagerModel, popup: Popup)
    requires
        m.wf(),
    ensures
        m.add_popup(popup).0.wf(),
        m.add_popup(popup).1 matches Some(w) ==> {
            &&& m.add_popup(popup).0.has_window(w)
            &&& !m.has_window(w)
            &&& m.add_popup(popup).0.popups.len() == m.popups.len() + 1
            &&& m.add_popup(popup).0.popups.last() == (OpenPopup { window: w, popup })
        },
        m.add_popup(popup).1 is None ==> m.add_popup(popup).0 == m,
{
    let after = m.add_popup(popup).0;
    if m.next_window < u32::MAX {
        let n = m.popups.len() as int;
        assert(after.popups[n].window == WindowId(m.next_window));
        assert forall|i: int, j: int| 0 <= i < j < after.popups.len() implies (#[trigger] after.popups[i]).window != (
        #[trigger] after.popups[j]).window by {
            if j < n {
                assert(m.popups[i].window != m.popups[j].window);
            } else {
                assert(m.popups[i].window.0 < m.next_window);
            }
        }
        assert forall|i: int| 0 <= i < after.popups.len() implies (#[trigger] after.popups[i]).window.0
            < after.next_window by {
            if i < n {
                assert(m.popups[i].window.0 < m.next_window);
            }
        }
        if m.has_window(WindowId(m.next_window)) {
            let k = m.window_index(WindowId(m.next_window));
            assert(m.popups[k].window.0 < m.next_window);
        }
    }
}

/// Closing a window keeps the state well-formed and leaves no popup in
/// that window.
pub proof fn lemma_close_window(m: ManagerModel, window: WindowId)
    requires
        m.wf(),
    ensures
        m.close_window(window).wf(),
        !m.close_window(window).has_window(window),
        m.close_window(window).popups.len() == if m.has_window(window) {
            m.popups.len() - 1
        } else {
            m.popups.len() as int
        },
{
    let after = m.close_window(window);
    if m.has_window(window) {
        let i = m.window_index(window);
        assert forall|a: int, b: int| 0 <= a < b < after.popups.len() implies (#[trigger] after.popups[a]).window != (
        #[trigger] after.popups[b]).window by {
            let a0 = if a < i { a } else { a + 1 };
            let b0 = if b < i { b } else { b + 1 };
            assert(m.popups[a0].window != m.popups[b0].window);
        }
        assert forall|a: int| 0 <= a < after.popups.len() implies (#[trigger] after.popups[a]).window.0
            < after.next_window by {
            let a0 = if a < i { a } else { a + 1 };
            assert(m.popups[a0].window.0 < m.next_window);
        }
        if after.has_window(window) {
            let k = after.window_index(window);
            let k0 = if k < i { k } else { k + 1 };
            assert(m.popups[k0].window == window);
            assert(m.popups[i].window == window);
            assert(false);
        }
    }
}

/// For one source, at most one widget holds the grab: two grabs of the same
/// source are one and the same.
pub proof fn lemma_grab_exclusive(m: ManagerModel, i: int, j: int)
    requires
        m.wf(),
        0 <= i < m.grabs.len(),
        0 <= j < m.grabs.len(),
        m.grabs[i].source == m.grabs[j].source,
    ensures
        i == j,
        m.grabs[i].id == m.grabs[j].id,
{
    if i < j {
        assert(m.grabs[i].source != m.grabs[j].source);
    } else if j < i {
        assert(m.grabs[j].source != m.grabs[i].source);
    }
}

/// While a source is grabbed, a further request for it is refused and
/// changes nothing, whichever widget asks.
pub proof fn lemma_second_request_refused(
    m: ManagerModel,
    first: WidgetId,
    second: WidgetId,
    source: PressSource,
    coord: Coord,
    mode: GrabMode,
    cursor: Option<CursorIcon>,
    coord2: Coord,
    mode2: GrabMode,
    cursor2: Option<CursorIcon>,
)
    requires
        m.wf(),
        m.request_grab(first, source, coord, mode, cursor).1,
    ensures
        ({
            let held = m.request_grab(first, source, coord, mode, cursor).0;
            &&& held.request_grab(second, source, coord2, mode2, cursor2) == (held, false)
            &&& held.holder(source) == Some(first)
        }),
{
    lemma_request_grab(m, first, source, coord, mode, cursor);
    let held = m.request_grab(first, source, coord, mode, cursor).0;
    assert(held.grabs[m.grabs.len() as int].source == source);
}

} // verus!
