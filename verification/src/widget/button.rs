//! A button with a text on it.

use vstd::prelude::*;
use crate::class::HasText;
use crate::data::{Align, AlignHints, CoreData, TkAction};
use crate::event::{CursorIcon, Event, HighlightState, Response};
use crate::geom::{Coord, Rect};
use crate::id::WidgetId;
use crate::layout::{AxisInfo, SizeRules};
use crate::manager::{Manager, ManagerModel, ManagerState};
use crate::theme::{DrawCmd, DrawHandle, SizeHandle, SizeModel, TextClass, TextProperties};
use crate::traits::{generic, lemma_generic, Handler, Layout, SendEvent, Sent, Visitor, WidgetCore};

verus! {

/// The rules of a button with the text `label`: those of the text, within
/// the sides of a button, with the margins of the text inside and the
/// margins between widgets outside.
pub open spec fn button_rules(sizes: SizeModel, label: Seq<char>, axis: AxisInfo) -> SizeRules {
    let sides = sizes.button_surround;
    let frame_rules = SizeRules::spec_extract_fixed(
        axis.vertical,
        sides.0.spec_plus(sides.1),
        sizes.outer_margins,
    );
    (sizes.text_bound)(label, TextClass::Button, axis).spec_surrounded_by(frame_rules, true)
}

/// What a button with the text `label` draws in `rect`: the button, then
/// the text in its middle.
pub open spec fn button_painted(rect: Rect, label: Seq<char>, highlights: HighlightState) -> Seq<DrawCmd> {
    seq![
        DrawCmd::Button { rect, highlights },
        DrawCmd::Text {
            rect,
            text: label,
            props: TextProperties { class: TextClass::Button, horiz: Align::Centre, vert: Align::Centre },
        },
    ]
}

/// Computes the rules of a button with the text `label`.
pub fn button_size_rules<S: SizeHandle>(size_handle: &mut S, label: &str, axis: AxisInfo) -> (r: SizeRules)
    ensures
        r == button_rules(old(size_handle).answers(), label@, axis),
        final(size_handle).answers() == old(size_handle).answers(),
{
    let sides = size_handle.button_surround();
    let margins = size_handle.outer_margins();
    let frame_rules = SizeRules::extract_fixed(axis.is_vertical(), sides.0.plus(sides.1), margins);
    let content_rules = size_handle.text_bound(label, TextClass::Button, axis);
    content_rules.surrounded_by(frame_rules, true)
}

/// Draws a button with the text `label` in `rect`.
pub fn draw_button<D: DrawHandle>(draw_handle: &mut D, rect: Rect, label: &str, highlights: HighlightState)
    ensures
        final(draw_handle).drawn() == old(draw_handle).drawn() + button_painted(rect, label@, highlights),
        final(draw_handle).target() == old(draw_handle).target(),
        final(draw_handle).outer() == old(draw_handle).outer(),
{
    draw_handle.button(rect, highlights);
    let props = TextProperties { class: TextClass::Button, horiz: Align::Centre, vert: Align::Centre };
    draw_handle.text(rect, label, props);
    assert(final(draw_handle).drawn() =~= old(draw_handle).drawn() + button_painted(rect, label@, highlights));
}

/// A button that sends its message when it is activated.
#[derive(Clone, Debug)]
pub struct TextButton<M: Copy> {
    core: CoreData,
    label: String,
    msg: M,
}

/// A [`TextButton`] as a mathematical value.
pub struct TextButtonModel<M> {
    pub core: CoreData,
    /// The text on the button.
    pub label: Seq<char>,
    /// The message that the button sends.
    pub msg: M,
}

impl<M: Copy> TextButton<M> {
    /// A button with the text `label` that sends `msg`, not yet configured.
    pub fn new(label: String, msg: M) -> (r: TextButton<M>)
        ensures
            r.model() == (TextButtonModel { core: CoreData::spec_unset(), label: label@, msg }),
    {
        TextButton { core: CoreData::unset(), label, msg }
    }
}

impl<M: Copy> HasText for TextButton<M> {
    closed spec fn text(&self) -> Seq<char> {
        self.label@
    }

    fn get_text(&self) -> (r: &str)
        ensures
            r@ == self.model().label,
    {
        self.label.as_str()
    }

    fn set_cow_string(&mut self, text: String) -> (r: TkAction)
        ensures
            final(self).model() == (TextButtonModel { label: text@, ..old(self).model() }),
    {
        self.label = text;
        TkAction::Redraw
    }
}

impl<M: Copy> WidgetCore for TextButton<M> {
    type Model = TextButtonModel<M>;

    closed spec fn model(&self) -> TextButtonModel<M> {
        TextButtonModel { core: self.core, label: self.label@, msg: self.msg }
    }

    open spec fn own(m: TextButtonModel<M>) -> CoreData {
        m.core
    }

    open spec fn children(m: TextButtonModel<M>) -> Seq<CoreData> {
        Seq::empty()
    }

    open spec fn nodes(m: TextButtonModel<M>) -> Seq<CoreData> {
        seq![Self::own(m)]
    }

    open spec fn valid(m: TextButtonModel<M>) -> bool {
        Self::own(m).id.0 >= 1 && Self::own(m).last == Self::own(m).id
    }

    open spec fn configured(m: TextButtonModel<M>, mgr: ManagerModel, first: WidgetId) -> (
        TextButtonModel<M>,
        ManagerModel,
    ) {
        (TextButtonModel { core: CoreData { id: first, last: first, ..m.core }, ..m }, mgr)
    }

    open spec fn name() -> Seq<char> {
        "TextButton"@
    }

    open spec fn navigable(m: TextButtonModel<M>) -> bool {
        true
    }

    open spec fn cursor(m: TextButtonModel<M>) -> CursorIcon {
        CursorIcon::Default
    }

    open spec fn with_disabled(m: TextButtonModel<M>, disabled: bool) -> TextButtonModel<M> {
        TextButtonModel { core: CoreData { disabled, ..m.core }, ..m }
    }

    proof fn lemma_with_disabled(m: TextButtonModel<M>, disabled: bool) {
        assert(Self::nodes(Self::with_disabled(m, disabled)) =~= Self::nodes(m).update(
            0,
            CoreData { disabled, ..Self::own(m) },
        ));
    }

    proof fn lemma_count(m: TextButtonModel<M>) {
    }

    proof fn lemma_tree(m: TextButtonModel<M>) {
    }

    proof fn lemma_configured(m: TextButtonModel<M>, mgr: ManagerModel, first: WidgetId) {
    }

    fn core_data(&self) -> (r: &CoreData) {
        &self.core
    }

    fn widget_name(&self) -> (r: &'static str) {
        "TextButton"
    }

    fn key_nav(&self) -> (r: bool) {
        true
    }

    fn cursor_icon(&self) -> (r: CursorIcon) {
        CursorIcon::Default
    }

    fn set_disabled(&mut self, disabled: bool) -> (r: TkAction) {
        self.core.disabled = disabled;
        TkAction::Redraw
    }

    fn len(&self) -> (r: usize) {
        0
    }

    fn get(&self, index: usize) -> (r: Option<CoreData>) {
        None
    }

    fn find(&self, id: WidgetId) -> (r: Option<CoreData>) {
        if id.0 == self.core.id.0 {
            Some(self.core)
        } else {
            None
        }
    }

    fn walk<V: Visitor>(&self, visitor: &mut V) {
        visitor.visit(&self.core);
        assert(old(visitor).seen().push(self.core) =~= old(visitor).seen() + seq![self.core]);
    }

    fn configure(&mut self, mgr: &mut Manager, first: WidgetId) -> (next: WidgetId) {
        self.core.id = first;
        self.core.last = first;
        first.next()
    }
}

impl<M: Copy> Layout for TextButton<M> {
    /// There is no child.
    open spec fn spatial(m: TextButtonModel<M>) -> (usize, usize) {
        (0usize, usize::MAX)
    }

    /// The rules of a button with the text.
    open spec fn sized(m: TextButtonModel<M>, sizes: SizeModel, axis: AxisInfo) -> (TextButtonModel<M>, SizeRules) {
        (m, button_rules(sizes, m.label, axis))
    }

    /// The button takes `rect`.
    open spec fn placed(m: TextButtonModel<M>, rect: Rect, align: AlignHints) -> TextButtonModel<M> {
        TextButtonModel { core: CoreData { rect, ..m.core }, ..m }
    }

    /// The button itself, within its rectangle.
    open spec fn hit(m: TextButtonModel<M>, coord: Coord) -> Option<WidgetId> {
        if Self::own(m).rect.spec_contains(coord) {
            Some(Self::own(m).id)
        } else {
            None
        }
    }

    /// A button with the text, with the highlights that the manager shows
    /// for it.
    open spec fn painted(m: TextButtonModel<M>, mgr: ManagerState, disabled: bool) -> Seq<DrawCmd> {
        button_painted(
            Self::own(m).rect,
            m.label,
            mgr.shows(Self::own(m).id, disabled || Self::own(m).disabled),
        )
    }

    /// There is nothing to negotiate but the widget's own rules.
    open spec fn ready(m: TextButtonModel<M>) -> bool {
        true
    }

    proof fn lemma_ready(
        m: TextButtonModel<M>,
        sizes: SizeModel,
        across: AxisInfo,
        down: AxisInfo,
        axis: AxisInfo,
        rect: Rect,
        align: AlignHints,
    ) {
    }

    proof fn lemma_layout(
        m: TextButtonModel<M>,
        sizes: SizeModel,
        axis: AxisInfo,
        rect: Rect,
        align: AlignHints,
        coord: Coord,
    ) {
    }

    fn size_rules<S: SizeHandle>(&mut self, size_handle: &mut S, axis: AxisInfo) -> (r: SizeRules) {
        button_size_rules(size_handle, self.label.as_str(), axis)
    }

    fn set_rect(&mut self, rect: Rect, align: AlignHints) {
        self.core.rect = rect;
    }

    fn spatial_range(&self) -> (r: (usize, usize)) {
        (0, usize::MAX)
    }

    fn find_id(&self, coord: Coord) -> (r: Option<WidgetId>) {
        if self.core.rect.contains(coord) {
            Some(self.core.id)
        } else {
            None
        }
    }

    fn draw<D: DrawHandle>(&self, draw_handle: &mut D, mgr: &ManagerState, disabled: bool) {
        let highlights = mgr.highlights(self.core.id, disabled || self.core.disabled);
        draw_button(draw_handle, self.core.rect, self.label.as_str(), highlights);
    }
}

impl<M: Copy> Handler for TextButton<M> {
    type Msg = M;

    open spec fn activable(m: TextButtonModel<M>) -> bool {
        true
    }

    /// Activation sends the button's message; the button has no use for any
    /// other event.
    open spec fn handled(m: TextButtonModel<M>, mgr: ManagerModel, event: Event) -> Sent<TextButtonModel<M>, M> {
        if event is Activate {
            Sent { widget: m, mgr, response: Response::Msg(m.msg) }
        } else {
            Sent { widget: m, mgr, response: Response::Unhandled(event) }
        }
    }

    proof fn lemma_handled(m: TextButtonModel<M>, mgr: ManagerModel, event: Event) {
    }

    fn activation_via_press(&self) -> (r: bool) {
        true
    }

    fn handle(&mut self, mgr: &mut Manager, event: Event) -> (r: Response<M>) {
        match event {
            Event::Activate => Response::Msg(self.msg),
            _ => Response::Unhandled(event),
        }
    }
}

impl<M: Copy> SendEvent for TextButton<M> {
    /// An event for a disabled button, or for another widget, comes back
    /// unhandled; any other gets the default treatment of presses.
    open spec fn sent(m: TextButtonModel<M>, mgr: ManagerModel, id: WidgetId, event: Event) -> Sent<TextButtonModel<M>, M> {
        if Self::own(m).disabled || id != Self::own(m).id {
            Sent { widget: m, mgr, response: Response::Unhandled(event) }
        } else {
            generic::<TextButton<M>>(m, mgr, event)
        }
    }

    proof fn lemma_sent(m: TextButtonModel<M>, mgr: ManagerModel, id: WidgetId, event: Event) {
        lemma_generic::<TextButton<M>>(m, mgr, event);
    }

    fn send(&mut self, mgr: &mut Manager, id: WidgetId, event: Event) -> (r: Response<M>) {
        if self.core.disabled || id.0 != self.core.id.0 {
            return Response::Unhandled(event);
        }
        Manager::handle_generic(self, mgr, event)
    }
}

/// An event that a button hands back is the event that was sent to it.
pub proof fn lemma_button_hands_back<M: Copy>(m: TextButtonModel<M>, mgr: ManagerModel, id: WidgetId, event: Event)
    ensures
        TextButton::<M>::sent(m, mgr, id, event).response matches Response::Unhandled(e) ==> e == event,
        TextButton::<M>::handled(m, mgr, event).response matches Response::Unhandled(e) ==> e == event,
{
}

} // verus!
