//! A piece of text.

use vstd::prelude::*;
use crate::class::HasText;
use crate::data::{Align, AlignHints, CoreData, TkAction};
use crate::event::{CursorIcon, Event, Response};
use crate::geom::{Coord, Rect};
use crate::id::WidgetId;
use crate::layout::{AxisInfo, SizeRules};
use crate::manager::{Manager, ManagerModel, ManagerState};
use crate::theme::{DrawCmd, DrawHandle, SizeHandle, SizeModel, TextClass, TextProperties};
use crate::traits::{generic, lemma_generic, Handler, Layout, SendEvent, Sent, Visitor, WidgetCore};

verus! {

/// The type of the messages of a widget that sends none. It has no value.
#[derive(Debug)]
pub struct VoidMsg(core::convert::Infallible);

/// A widget that shows a text and takes no input.
#[derive(Clone, Debug)]
pub struct Label {
    core: CoreData,
    halign: Align,
    valign: Align,
    text: String,
}

/// A [`Label`] as a mathematical value.
pub struct LabelModel {
    pub core: CoreData,
    pub text: Seq<char>,
    /// The alignment of the text, from left to right and from top to
    /// bottom.
    pub align: (Align, Align),
}

impl Label {
    /// A label with the given text, not yet configured.
    pub fn new(text: String) -> (r: Label)
        ensures
            r.model() == (LabelModel {
                core: CoreData::spec_unset(),
                text: text@,
                align: (Align::Begin, Align::Centre),
            }),
    {
        Label { core: CoreData::unset(), halign: Align::Begin, valign: Align::Centre, text }
    }

    /// The alignment that the label chooses where the parent gives no hint:
    /// at the start of a line, in the middle of its height.
    pub open spec fn aligned(align: AlignHints) -> (Align, Align) {
        (
            match align.horiz {
                Some(a) => a,
                None => Align::Begin,
            },
            match align.vert {
                Some(a) => a,
                None => Align::Centre,
            },
        )
    }
}

impl HasText for Label {
    closed spec fn text(&self) -> Seq<char> {
        self.text@
    }

    fn get_text(&self) -> (r: &str)
        ensures
            r@ == self.model().text,
    {
        self.text.as_str()
    }

    fn set_cow_string(&mut self, text: String) -> (r: TkAction)
        ensures
            final(self).model() == (LabelModel { text: text@, ..old(self).model() }),
    {
        self.text = text;
        TkAction::Redraw
    }
}

impl WidgetCore for Label {
    type Model = LabelModel;

    closed spec fn model(&self) -> LabelModel {
        LabelModel { core: self.core, text: self.text@, align: (self.halign, self.valign) }
    }

    open spec fn own(m: LabelModel) -> CoreData {
        m.core
    }

    open spec fn children(m: LabelModel) -> Seq<CoreData> {
        Seq::empty()
    }

    open spec fn nodes(m: LabelModel) -> Seq<CoreData> {
        seq![Self::own(m)]
    }

    open spec fn valid(m: LabelModel) -> bool {
        Self::own(m).id.0 >= 1 && Self::own(m).last == Self::own(m).id
    }

    open spec fn configured(m: LabelModel, mgr: ManagerModel, first: WidgetId) -> (LabelModel, ManagerModel) {
        (LabelModel { core: CoreData { id: first, last: first, ..m.core }, ..m }, mgr)
    }

    open spec fn name() -> Seq<char> {
        "Label"@
    }

    open spec fn navigable(m: LabelModel) -> bool {
        false
    }

    open spec fn cursor(m: LabelModel) -> CursorIcon {
        CursorIcon::Default
    }

    open spec fn with_disabled(m: LabelModel, disabled: bool) -> LabelModel {
        LabelModel { core: CoreData { disabled, ..m.core }, ..m }
    }

    proof fn lemma_with_disabled(m: LabelModel, disabled: bool) {
        assert(Self::nodes(Self::with_disabled(m, disabled)) =~= Self::nodes(m).update(
            0,
            CoreData { disabled, ..Self::own(m) },
        ));
    }

    proof fn lemma_count(m: LabelModel) {
    }

    proof fn lemma_tree(m: LabelModel) {
    }

    proof fn lemma_configured(m: LabelModel, mgr: ManagerModel, first: WidgetId) {
    }

    fn core_data(&self) -> (r: &CoreData) {
        &self.core
    }

    fn widget_name(&self) -> (r: &'static str) {
        "Label"
    }

    fn key_nav(&self) -> (r: bool) {
        false
    }

    fn cursor_icon(&self) -> (r: CursorIcon) {
        CursorIcon::Default
    }

    fn set_disabled(&mut self, disabled: bool) -> (r: TkAction) {
        self.core.disabled = disabled;
        TkAction::Redraw
    }

    fn len(&self) -> (r: usize) {
        0
    }

    fn get(&self, index: usize) -> (r: Option<CoreData>) {
        None
    }

    fn find(&self, id: WidgetId) -> (r: Option<CoreData>) {
        if id.0 == self.core.id.0 {
            Some(self.core)
        } else {
            None
        }
    }

    fn walk<V: Visitor>(&self, visitor: &mut V) {
        visitor.visit(&self.core);
        assert(old(visitor).seen().push(self.core) =~= old(visitor).seen() + seq![self.core]);
    }

    fn configure(&mut self, mgr: &mut Manager, first: WidgetId) -> (next: WidgetId) {
        self.core.id = first;
        self.core.last = first;
        first.next()
    }
}

impl Layout for Label {
    /// There is no child.
    open spec fn spatial(m: LabelModel) -> (usize, usize) {
        (0usize, usize::MAX)
    }

    /// The rules that the theme gives for the text.
    open spec fn sized(m: LabelModel, sizes: SizeModel, axis: AxisInfo) -> (LabelModel, SizeRules) {
        (m, (sizes.text_bound)(m.text, TextClass::Label, axis))
    }

    /// The label takes `rect` and the alignment that the hints suggest.
    open spec fn placed(m: LabelModel, rect: Rect, align: AlignHints) -> LabelModel {
        LabelModel { core: CoreData { rect, ..m.core }, align: Self::aligned(align), ..m }
    }

    /// The label itself, within its rectangle.
    open spec fn hit(m: LabelModel, coord: Coord) -> Option<WidgetId> {
        if Self::own(m).rect.spec_contains(coord) {
            Some(Self::own(m).id)
        } else {
            None
        }
    }

    /// The text, in the label's rectangle and with its alignment.
    open spec fn painted(m: LabelModel, mgr: ManagerState, disabled: bool) -> Seq<DrawCmd> {
        seq![
            DrawCmd::Text {
                rect: Self::own(m).rect,
                text: m.text,
                props: TextProperties { class: TextClass::Label, horiz: m.align.0, vert: m.align.1 },
            },
        ]
    }

    /// There is nothing to negotiate but the widget's own rules.
    open spec fn ready(m: LabelModel) -> bool {
        true
    }

    proof fn lemma_ready(
        m: LabelModel,
        sizes: SizeModel,
        across: AxisInfo,
        down: AxisInfo,
        axis: AxisInfo,
        rect: Rect,
        align: AlignHints,
    ) {
    }

    proof fn lemma_layout(m: LabelModel, sizes: SizeModel, axis: AxisInfo, rect: Rect, align: AlignHints, coord: Coord) {
    }

    fn size_rules<S: SizeHandle>(&mut self, size_handle: &mut S, axis: AxisInfo) -> (r: SizeRules) {
        size_handle.text_bound(self.text.as_str(), TextClass::Label, axis)
    }

    fn set_rect(&mut self, rect: Rect, align: AlignHints) {
        self.core.rect = rect;
        self.halign = match align.horiz {
            Some(a) => a,
            None => Align::Begin,
        };
        self.valign = match align.vert {
            Some(a) => a,
            None => Align::Centre,
        };
    }

    fn spatial_range(&self) -> (r: (usize, usize)) {
        (0, usize::MAX)
    }

    fn find_id(&self, coord: Coord) -> (r: Option<WidgetId>) {
        if self.core.rect.contains(coord) {
            Some(self.core.id)
        } else {
            None
        }
    }

    fn draw<D: DrawHandle>(&self, draw_handle: &mut D, mgr: &ManagerState, disabled: bool) {
        let props = TextProperties { class: TextClass::Label, horiz: self.halign, vert: self.valign };
        draw_handle.text(self.core.rect, self.text.as_str(), props);
        assert(final(draw_handle).drawn() =~= old(draw_handle).drawn() + Self::painted(self.model(), *mgr, disabled));
    }
}

impl Handler for Label {
    type Msg = VoidMsg;

    open spec fn activable(m: LabelModel) -> bool {
        false
    }

    /// A label has no use for any event.
    open spec fn handled(m: LabelModel, mgr: ManagerModel, event: Event) -> Sent<LabelModel, VoidMsg> {
        Sent { widget: m, mgr, response: Response::Unhandled(event) }
    }

    proof fn lemma_handled(m: LabelModel, mgr: ManagerModel, event: Event) {
    }

    fn activation_via_press(&self) -> (r: bool) {
        false
    }

    fn handle(&mut self, mgr: &mut Manager, event: Event) -> (r: Response<VoidMsg>) {
        Response::Unhandled(event)
    }

}

impl SendEvent for Label {
    /// An event for a disabled label, or for another widget, comes back
    /// unhandled.
    open spec fn sent(m: LabelModel, mgr: ManagerModel, id: WidgetId, event: Event) -> Sent<LabelModel, VoidMsg> {
        if Self::own(m).disabled || id != Self::own(m).id {
            Sent { widget: m, mgr, response: Response::Unhandled(event) }
        } else {
            generic::<Label>(m, mgr, event)
        }
    }

    proof fn lemma_sent(m: LabelModel, mgr: ManagerModel, id: WidgetId, event: Event) {
        lemma_generic::<Label>(m, mgr, event);
    }

    fn send(&mut self, mgr: &mut Manager, id: WidgetId, event: Event) -> (r: Response<VoidMsg>) {
        if self.core.disabled || id.0 != self.core.id.0 {
            return Response::Unhandled(event);
        }
        Manager::handle_generic(self, mgr, event)
    }
}

/// A label hands every event back as it came.
pub proof fn lemma_label_hands_back(m: LabelModel, mgr: ManagerModel, id: WidgetId, event: Event)
    ensures
        Label::sent(m, mgr, id, event) == (Sent { widget: m, mgr, response: Response::<VoidMsg>::Unhandled(event) }),
{
}

} // verus!
