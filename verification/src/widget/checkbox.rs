//! A box that is checked or not, and that can follow a broadcast channel.

use vstd::prelude::*;
use crate::class::HasBool;
use crate::data::{AlignHints, CoreData, TkAction};
use crate::event::{CursorIcon, Event, Response};
use crate::geom::{Coord, Rect};
use crate::id::{UpdateHandle, WidgetId};
use crate::layout::{AxisInfo, SizeRules};
use crate::manager::{Manager, ManagerModel, ManagerState};
use crate::theme::{DrawCmd, DrawHandle, SizeHandle, SizeModel};
use crate::traits::{generic, lemma_generic, Handler, Layout, SendEvent, Sent, Visitor, WidgetCore};

verus! {

/// A checkbox. Activating it toggles it and sends the new state as a
/// message. A checkbox that was given an update handle registers for it when
/// it is configured and takes its state from the updates on that handle: a
/// payload of zero unchecks it, any other checks it.
#[derive(Clone, Copy, Debug)]
pub struct CheckBox {
    core: CoreData,
    state: bool,
    handle: Option<UpdateHandle>,
}

/// A [`CheckBox`] as a mathematical value.
pub struct CheckBoxModel {
    pub core: CoreData,
    /// Whether the box is checked.
    pub state: bool,
    /// The handle whose updates the box follows.
    pub handle: Option<UpdateHandle>,
}

impl CheckBox {
    /// An unchecked checkbox, not yet configured.
    pub fn new() -> (r: CheckBox)
        ensures
            r.model() == (CheckBoxModel { core: CoreData::spec_unset(), state: false, handle: None }),
    {
        CheckBox { core: CoreData::unset(), state: false, handle: None }
    }

    /// The same checkbox, following the updates on `handle`.
    pub fn on_handle(self, handle: UpdateHandle) -> (r: CheckBox)
        ensures
            r.model() == (CheckBoxModel { handle: Some(handle), ..self.model() }),
    {
        CheckBox { handle: Some(handle), ..self }
    }

    /// The same checkbox in the given state.
    pub fn with_state(self, state: bool) -> (r: CheckBox)
        ensures
            r.model() == (CheckBoxModel { state, ..self.model() }),
    {
        CheckBox { state, ..self }
    }

    /// The rules of a checkbox along `axis`: the fixed size that the theme
    /// gives it, with the margins between widgets.
    pub open spec fn rules(sizes: SizeModel, axis: AxisInfo) -> SizeRules {
        SizeRules::spec_extract_fixed(axis.vertical, sizes.checkbox, sizes.outer_margins)
    }
}

impl HasBool for CheckBox {
    closed spec fn state(&self) -> bool {
        self.state
    }

    fn get_bool(&self) -> (r: bool)
        ensures
            r == self.model().state,
    {
        self.state
    }

    fn set_bool(&mut self, state: bool) -> (r: TkAction)
        ensures
            final(self).model() == (CheckBoxModel { state, ..old(self).model() }),
            r == TkAction::Redraw,
    {
        self.state = state;
        TkAction::Redraw
    }
}

impl WidgetCore for CheckBox {
    type Model = CheckBoxModel;

    closed spec fn model(&self) -> CheckBoxModel {
        CheckBoxModel { core: self.core, state: self.state, handle: self.handle }
    }

    open spec fn own(m: CheckBoxModel) -> CoreData {
        m.core
    }

    open spec fn children(m: CheckBoxModel) -> Seq<CoreData> {
        Seq::empty()
    }

    open spec fn nodes(m: CheckBoxModel) -> Seq<CoreData> {
        seq![Self::own(m)]
    }

    open spec fn valid(m: CheckBoxModel) -> bool {
        Self::own(m).id.0 >= 1 && Self::own(m).last == Self::own(m).id
    }

    /// The box takes `first` as its identifier and registers for its
    /// handle, if it has one.
    open spec fn configured(m: CheckBoxModel, mgr: ManagerModel, first: WidgetId) -> (CheckBoxModel, ManagerModel) {
        (
            CheckBoxModel { core: CoreData { id: first, last: first, ..m.core }, ..m },
            match m.handle {
                Some(handle) => mgr.update_on_handle(handle, first),
                None => mgr,
            },
        )
    }

    open spec fn name() -> Seq<char> {
        "CheckBox"@
    }

    open spec fn navigable(m: CheckBoxModel) -> bool {
        true
    }

    open spec fn cursor(m: CheckBoxModel) -> CursorIcon {
        CursorIcon::Default
    }

    open spec fn with_disabled(m: CheckBoxModel, disabled: bool) -> CheckBoxModel {
        CheckBoxModel { core: CoreData { disabled, ..m.core }, ..m }
    }

    proof fn lemma_with_disabled(m: CheckBoxModel, disabled: bool) {
        assert(Self::nodes(Self::with_disabled(m, disabled)) =~= Self::nodes(m).update(
            0,
            CoreData { disabled, ..Self::own(m) },
        ));
    }

    proof fn lemma_count(m: CheckBoxModel) {
    }

    proof fn lemma_tree(m: CheckBoxModel) {
    }

    proof fn lemma_configured(m: CheckBoxModel, mgr: ManagerModel, first: WidgetId) {
    }

    fn core_data(&self) -> (r: &CoreData) {
        &self.core
    }

    fn widget_name(&self) -> (r: &'static str) {
        "CheckBox"
    }

    fn key_nav(&self) -> (r: bool) {
        true
    }

    fn cursor_icon(&self) -> (r: CursorIcon) {
        CursorIcon::Default
    }

    fn set_disabled(&mut self, disabled: bool) -> (r: TkAction) {
        self.core.disabled = disabled;
        TkAction::Redraw
    }

    fn len(&self) -> (r: usize) {
        0
    }

    fn get(&self, index: usize) -> (r: Option<CoreData>) {
        None
    }

    fn find(&self, id: WidgetId) -> (r: Option<CoreData>) {
        if id.0 == self.core.id.0 {
            Some(self.core)
        } else {
            None
        }
    }

    fn walk<V: Visitor>(&self, visitor: &mut V) {
        visitor.visit(&self.core);
        assert(old(visitor).seen().push(self.core) =~= old(visitor).seen() + seq![self.core]);
    }

    fn configure(&mut self, mgr: &mut Manager, first: WidgetId) -> (next: WidgetId) {
        self.core.id = first;
        self.core.last = first;
        match self.handle {
            Some(handle) => {
                mgr.update_on_handle(handle, first);
            },
            None => {},
        }
        first.next()
    }
}

impl Layout for CheckBox {
    /// There is no child.
    open spec fn spatial(m: CheckBoxModel) -> (usize, usize) {
        (0usize, usize::MAX)
    }

    open spec fn sized(m: CheckBoxModel, sizes: SizeModel, axis: AxisInfo) -> (CheckBoxModel, SizeRules) {
        (m, Self::rules(sizes, axis))
    }

    /// The box takes `rect`.
    open spec fn placed(m: CheckBoxModel, rect: Rect, align: AlignHints) -> CheckBoxModel {
        CheckBoxModel { core: CoreData { rect, ..m.core }, ..m }
    }

    /// The box itself, within its rectangle.
    open spec fn hit(m: CheckBoxModel, coord: Coord) -> Option<WidgetId> {
        if Self::own(m).rect.spec_contains(coord) {
            Some(Self::own(m).id)
        } else {
            None
        }
    }

    /// The box, checked or not, with the highlights that the manager shows
    /// for it.
    open spec fn painted(m: CheckBoxModel, mgr: ManagerState, disabled: bool) -> Seq<DrawCmd> {
        seq![
            DrawCmd::Checkbox {
                rect: Self::own(m).rect,
                checked: m.state,
                highlights: mgr.shows(Self::own(m).id, disabled || Self::own(m).disabled),
            },
        ]
    }

    /// There is nothing to negotiate but the widget's own rules.
    open spec fn ready(m: CheckBoxModel) -> bool {
        true
    }

    proof fn lemma_ready(
        m: CheckBoxModel,
        sizes: SizeModel,
        across: AxisInfo,
        down: AxisInfo,
        axis: AxisInfo,
        rect: Rect,
        align: AlignHints,
    ) {
    }

    proof fn lemma_layout(m: CheckBoxModel, sizes: SizeModel, axis: AxisInfo, rect: Rect, align: AlignHints, coord: Coord) {
    }

    fn size_rules<S: SizeHandle>(&mut self, size_handle: &mut S, axis: AxisInfo) -> (r: SizeRules) {
        let size = size_handle.checkbox();
        let margins = size_handle.outer_margins();
        SizeRules::extract_fixed(axis.is_vertical(), size, margins)
    }

    fn set_rect(&mut self, rect: Rect, align: AlignHints) {
        self.core.rect = rect;
    }

    fn spatial_range(&self) -> (r: (usize, usize)) {
        (0, usize::MAX)
    }

    fn find_id(&self, coord: Coord) -> (r: Option<WidgetId>) {
        if self.core.rect.contains(coord) {
            Some(self.core.id)
        } else {
            None
        }
    }

    fn draw<D: DrawHandle>(&self, draw_handle: &mut D, mgr: &ManagerState, disabled: bool) {
        let highlights = mgr.highlights(self.core.id, disabled || self.core.disabled);
        draw_handle.checkbox(self.core.rect, self.state, highlights);
        assert(final(draw_handle).drawn() =~= old(draw_handle).drawn() + Self::painted(self.model(), *mgr, disabled));
    }
}

impl Handler for CheckBox {
    type Msg = bool;

    open spec fn activable(m: CheckBoxModel) -> bool {
        true
    }

    /// Activation toggles the box and sends the new state. An update on the
    /// handle that the box follows sets the state: checked unless the
    /// payload is zero. Any other event is handed back as it is.
    open spec fn handled(m: CheckBoxModel, mgr: ManagerModel, event: Event) -> Sent<CheckBoxModel, bool> {
        match event {
            Event::Activate => Sent {
                widget: CheckBoxModel { state: !m.state, ..m },
                mgr: mgr.with_action(TkAction::Redraw),
                response: Response::Msg(!m.state),
            },
            Event::HandleUpdate { handle, payload } => if m.handle == Some(handle) {
                Sent {
                    widget: CheckBoxModel { state: payload != 0, ..m },
                    mgr: mgr.with_action(TkAction::Redraw),
                    response: Response::Nothing,
                }
            } else {
                Sent { widget: m, mgr, response: Response::Unhandled(event) }
            },
            _ => Sent { widget: m, mgr, response: Response::Unhandled(event) },
        }
    }

    proof fn lemma_handled(m: CheckBoxModel, mgr: ManagerModel, event: Event) {
    }

    fn activation_via_press(&self) -> (r: bool) {
        true
    }

    fn handle(&mut self, mgr: &mut Manager, event: Event) -> (r: Response<bool>) {
        match event {
            Event::Activate => {
                self.state = !self.state;
                mgr.send_action(TkAction::Redraw);
                Response::Msg(self.state)
            },
            Event::HandleUpdate { handle, payload } => {
                let mine = match self.handle {
                    Some(h) => h.0 == handle.0,
                    None => false,
                };
                if mine {
                    self.state = payload != 0;
                    mgr.send_action(TkAction::Redraw);
                    Response::Nothing
                } else {
                    Response::Unhandled(event)
                }
            },
            _ => Response::Unhandled(event),
        }
    }
}

impl SendEvent for CheckBox {
    /// An event for a disabled box, or for another widget, comes back
    /// unhandled; any other gets the default treatment of presses.
    open spec fn sent(m: CheckBoxModel, mgr: ManagerModel, id: WidgetId, event: Event) -> Sent<CheckBoxModel, bool> {
        if Self::own(m).disabled || id != Self::own(m).id {
            Sent { widget: m, mgr, response: Response::Unhandled(event) }
        } else {
            generic::<CheckBox>(m, mgr, event)
        }
    }

    proof fn lemma_sent(m: CheckBoxModel, mgr: ManagerModel, id: WidgetId, event: Event) {
        lemma_generic::<CheckBox>(m, mgr, event);
    }

    fn send(&mut self, mgr: &mut Manager, id: WidgetId, event: Event) -> (r: Response<bool>) {
        if self.core.disabled || id.0 != self.core.id.0 {
            return Response::Unhandled(event);
        }
        Manager::handle_generic(self, mgr, event)
    }
}

} // verus!
