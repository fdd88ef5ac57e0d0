//! The frame and background of a menu.

use vstd::prelude::*;
use crate::class::{Editable, HasBool, HasText};
use crate::data::{AlignHints, CoreData, TkAction};
use crate::event::{CursorIcon, Event, Response};
use crate::geom::{clamp_u32, add_extent, Coord, Margins, Rect, Size};
use crate::id::WidgetId;
use crate::layout::{AxisInfo, SizeRules};
use crate::manager::{Manager, ManagerModel, ManagerState};
use crate::theme::{DrawCmd, DrawHandle, SizeHandle, SizeModel};
use crate::traits::{
    find_below, lemma_one_child, generic, lemma_generic, lemma_same_ids, lemma_same_nodes, Handler, Layout, SendEvent, Sent,
    Visitor, WidgetCore,
};

verus! {

/// A frame around content, with a background. The frame passes events and
/// messages through.
#[derive(Clone, Debug)]
pub struct MenuFrame<W> {
    core: CoreData,
    pub inner: W,
    m0: Size,
    m1: Size,
}

/// A [`MenuFrame`] as a mathematical value; `I` is the model of the content.
pub struct MenuFrameModel<I> {
    pub core: CoreData,
    pub inner: I,
    /// What the frame and the content's margin take at the top left.
    pub m0: Size,
    /// What they take at the bottom right.
    pub m1: Size,
}

impl<W: WidgetCore> MenuFrame<W> {
    /// A frame around `inner`, not yet configured.
    pub fn new(inner: W) -> (r: MenuFrame<W>)
        ensures
            r.model() == (MenuFrameModel {
                core: CoreData::spec_unset(),
                inner: inner.model(),
                m0: Size(0, 0),
                m1: Size(0, 0),
            }),
    {
        MenuFrame { core: CoreData::unset(), inner, m0: Size::zero(), m1: Size::zero() }
    }
}

impl<W: WidgetCore> WidgetCore for MenuFrame<W> {
    type Model = MenuFrameModel<W::Model>;

    closed spec fn model(&self) -> MenuFrameModel<W::Model> {
        MenuFrameModel { core: self.core, inner: self.inner.model(), m0: self.m0, m1: self.m1 }
    }

    open spec fn own(m: MenuFrameModel<W::Model>) -> CoreData {
        m.core
    }

    open spec fn children(m: MenuFrameModel<W::Model>) -> Seq<CoreData> {
        seq![W::own(m.inner)]
    }

    open spec fn nodes(m: MenuFrameModel<W::Model>) -> Seq<CoreData> {
        seq![m.core] + W::nodes(m.inner)
    }

    /// The content is valid and has the identifiers that follow the
    /// frame's own.
    open spec fn valid(m: MenuFrameModel<W::Model>) -> bool {
        &&& m.core.id.0 >= 1
        &&& W::valid(m.inner)
        &&& W::own(m.inner).id.0 == m.core.id.0 + 1
        &&& m.core.last == W::own(m.inner).last
    }

    open spec fn configured(m: MenuFrameModel<W::Model>, mgr: ManagerModel, first: WidgetId) -> (
        MenuFrameModel<W::Model>,
        ManagerModel,
    ) {
        let inner = W::configured(m.inner, mgr, WidgetId((first.0 + 1) as u32));
        (
            MenuFrameModel {
                core: CoreData { id: first, last: W::own(inner.0).last, ..m.core },
                inner: inner.0,
                ..m
            },
            inner.1,
        )
    }

    open spec fn name() -> Seq<char> {
        "MenuFrame"@
    }

    open spec fn navigable(m: MenuFrameModel<W::Model>) -> bool {
        false
    }

    open spec fn cursor(m: MenuFrameModel<W::Model>) -> CursorIcon {
        CursorIcon::Default
    }

    open spec fn with_disabled(m: MenuFrameModel<W::Model>, disabled: bool) -> MenuFrameModel<W::Model> {
        MenuFrameModel { core: CoreData { disabled, ..m.core }, ..m }
    }

    proof fn lemma_with_disabled(m: MenuFrameModel<W::Model>, disabled: bool) {
        assert(Self::nodes(Self::with_disabled(m, disabled)) =~= Self::nodes(m).update(
            0,
            CoreData { disabled, ..m.core },
        ));
    }

    proof fn lemma_count(m: MenuFrameModel<W::Model>) {
    }

    proof fn lemma_tree(m: MenuFrameModel<W::Model>) {
        lemma_one_child::<W>(m.core, m.inner);
    }

    proof fn lemma_configured(m: MenuFrameModel<W::Model>, mgr: ManagerModel, first: WidgetId) {
        let next = WidgetId((first.0 + 1) as u32);
        W::lemma_configured(m.inner, mgr, next);
        W::lemma_tree(W::configured(m.inner, mgr, next).0);
    }

    fn core_data(&self) -> (r: &CoreData) {
        &self.core
    }

    fn widget_name(&self) -> (r: &'static str) {
        "MenuFrame"
    }

    fn key_nav(&self) -> (r: bool) {
        false
    }

    fn cursor_icon(&self) -> (r: CursorIcon) {
        CursorIcon::Default
    }

    fn set_disabled(&mut self, disabled: bool) -> (r: TkAction) {
        self.core.disabled = disabled;
        TkAction::Redraw
    }

    fn len(&self) -> (r: usize) {
        1
    }

    fn get(&self, index: usize) -> (r: Option<CoreData>) {
        if index == 0 {
            Some(*self.inner.core_data())
        } else {
            None
        }
    }

    fn find(&self, id: WidgetId) -> (r: Option<CoreData>) {
        find_below(&self.core, &self.inner, id)
    }

    fn walk<V: Visitor>(&self, visitor: &mut V) {
        visitor.visit(&self.core);
        self.inner.walk(visitor);
        assert(final(visitor).seen() =~= old(visitor).seen() + Self::nodes(self.model()));
    }

    fn configure(&mut self, mgr: &mut Manager, first: WidgetId) -> (next: WidgetId) {
        proof {
            W::lemma_configured(self.inner.model(), mgr@, WidgetId((first.0 + 1) as u32));
            W::lemma_tree(W::configured(self.inner.model(), mgr@, WidgetId((first.0 + 1) as u32)).0);
        }
        self.core.id = first;
        let next = self.inner.configure(mgr, first.next());
        self.core.last = self.inner.core_data().last;
        next
    }
}

impl<W: Layout> MenuFrame<W> {
    /// The extent that the frame and one margin of the content take.
    pub open spec fn inset(frame: u32, margin: u16) -> u32 {
        clamp_u32(frame + margin)
    }

    /// The insets after sizing along `axis`: those of that axis are set from
    /// the frame's thickness and the content's margins, the others stay.
    pub open spec fn insets(m0: Size, m1: Size, frame: Size, margins: (u16, u16), axis: AxisInfo) -> (Size, Size) {
        if !axis.vertical {
            (Size(Self::inset(frame.0, margins.0), m0.1), Size(Self::inset(frame.0, margins.1), m1.1))
        } else {
            (Size(m0.0, Self::inset(frame.1, margins.0)), Size(m1.0, Self::inset(frame.1, margins.1)))
        }
    }
}

impl<W: Layout> Layout for MenuFrame<W> {
    /// The one child lies within the rectangle.
    open spec fn spatial(m: MenuFrameModel<W::Model>) -> (usize, usize) {
        (0usize, 0usize)
    }

    /// The rules of the content within a frame on both sides, the content's
    /// margins inside the frame. The frame remembers what it takes on each
    /// side of the axis.
    open spec fn sized(m: MenuFrameModel<W::Model>, sizes: SizeModel, axis: AxisInfo) -> (
        MenuFrameModel<W::Model>,
        SizeRules,
    ) {
        let size = sizes.frame;
        let frame_rules = SizeRules::spec_extract_fixed(
            axis.vertical,
            size.spec_plus(size),
            Margins { horiz: (0u16, 0u16), vert: (0u16, 0u16) },
        );
        let inner = W::sized(m.inner, sizes, axis);
        let insets = Self::insets(m.m0, m.m1, size, inner.1.margins, axis);
        (
            MenuFrameModel { inner: inner.0, m0: insets.0, m1: insets.1, ..m },
            inner.1.spec_surrounded_by(frame_rules, true),
        )
    }

    /// The frame takes `rect`; the content gets what is left within the
    /// insets.
    open spec fn placed(m: MenuFrameModel<W::Model>, rect: Rect, align: AlignHints) -> MenuFrameModel<W::Model> {
        MenuFrameModel {
            core: CoreData { rect, ..m.core },
            inner: W::placed(m.inner, rect.spec_shrunk(m.m0, m.m1), align),
            ..m
        }
    }

    /// Within the frame's rectangle: what the content finds, or else the
    /// frame itself.
    open spec fn hit(m: MenuFrameModel<W::Model>, coord: Coord) -> Option<WidgetId> {
        if !m.core.rect.spec_contains(coord) {
            None
        } else {
            match W::hit(m.inner, coord) {
                Some(id) => Some(id),
                None => Some(m.core.id),
            }
        }
    }

    /// The frame, then the content.
    open spec fn painted(m: MenuFrameModel<W::Model>, mgr: ManagerState, disabled: bool) -> Seq<DrawCmd> {
        seq![DrawCmd::MenuFrame { rect: m.core.rect }] + W::painted(m.inner, mgr, disabled || m.core.disabled)
    }

    /// The content is ready.
    open spec fn ready(m: MenuFrameModel<W::Model>) -> bool {
        W::ready(m.inner)
    }

    proof fn lemma_ready(
        m: MenuFrameModel<W::Model>,
        sizes: SizeModel,
        across: AxisInfo,
        down: AxisInfo,
        axis: AxisInfo,
        rect: Rect,
        align: AlignHints,
    ) {
        W::lemma_ready(m.inner, sizes, across, down, axis, rect.spec_shrunk(m.m0, m.m1), align);
    }

    proof fn lemma_layout(
        m: MenuFrameModel<W::Model>,
        sizes: SizeModel,
        axis: AxisInfo,
        rect: Rect,
        align: AlignHints,
        coord: Coord,
    ) {
        let inner_rect = rect.spec_shrunk(m.m0, m.m1);
        W::lemma_layout(m.inner, sizes, axis, inner_rect, align, coord);
        W::lemma_tree(m.inner);
        lemma_same_nodes::<W>(W::sized(m.inner, sizes, axis).0, m.inner);
        lemma_same_ids::<W>(W::placed(m.inner, inner_rect, align), m.inner);
        let placed = Self::placed(m, rect, align);
        let a = Self::nodes(placed);
        let b = Self::nodes(m);
        let ia = W::nodes(placed.inner);
        let ib = W::nodes(m.inner);
        assert forall|i: int| 0 <= i < a.len() implies {
            &&& (#[trigger] a[i]).id == b[i].id
            &&& a[i].last == b[i].last
            &&& a[i].disabled == b[i].disabled
        } by {
            if i > 0 {
                assert(a[i] == ia[i - 1]);
                assert(b[i] == ib[i - 1]);
            }
        }
    }

    fn size_rules<S: SizeHandle>(&mut self, size_handle: &mut S, axis: AxisInfo) -> (r: SizeRules) {
        let size = size_handle.frame();
        let margins = Margins::zero();
        let frame_rules = SizeRules::extract_fixed(axis.is_vertical(), size.plus(size), margins);

        let child_rules = self.inner.size_rules(size_handle, axis);
        let m = child_rules.margins();

        if axis.is_horizontal() {
            self.m0.0 = add_extent(size.0, m.0 as u32);
            self.m1.0 = add_extent(size.0, m.1 as u32);
        } else {
            self.m0.1 = add_extent(size.1, m.0 as u32);
            self.m1.1 = add_extent(size.1, m.1 as u32);
        }

        child_rules.surrounded_by(frame_rules, true)
    }

    fn set_rect(&mut self, rect: Rect, align: AlignHints) {
        self.core.rect = rect;
        self.inner.set_rect(rect.shrunk(self.m0, self.m1), align);
    }

    fn spatial_range(&self) -> (r: (usize, usize)) {
        (0, 0)
    }

    fn find_id(&self, coord: Coord) -> (r: Option<WidgetId>) {
        if !self.core.rect.contains(coord) {
            return None;
        }
        match self.inner.find_id(coord) {
            Some(id) => Some(id),
            None => Some(self.core.id),
        }
    }

    fn draw<D: DrawHandle>(&self, draw_handle: &mut D, mgr: &ManagerState, disabled: bool) {
        draw_handle.menu_frame(self.core.rect);
        let disabled = disabled || self.core.disabled;
        self.inner.draw(draw_handle, mgr, disabled);
        assert(final(draw_handle).drawn() =~= old(draw_handle).drawn() + Self::painted(
            self.model(),
            *mgr,
            disabled,
        ));
    }
}

impl<W: Handler> Handler for MenuFrame<W> {
    type Msg = W::Msg;

    open spec fn activable(m: MenuFrameModel<W::Model>) -> bool {
        false
    }

    /// The frame itself has no use for any event.
    open spec fn handled(m: MenuFrameModel<W::Model>, mgr: ManagerModel, event: Event) -> Sent<
        MenuFrameModel<W::Model>,
        W::Msg,
    > {
        Sent { widget: m, mgr, response: Response::Unhandled(event) }
    }

    proof fn lemma_handled(m: MenuFrameModel<W::Model>, mgr: ManagerModel, event: Event) {
    }

    fn activation_via_press(&self) -> (r: bool) {
        false
    }

    fn handle(&mut self, mgr: &mut Manager, event: Event) -> (r: Response<W::Msg>) {
        Response::Unhandled(event)
    }
}

impl<W: SendEvent> SendEvent for MenuFrame<W> {
    /// A disabled frame hands the event back. An event for the content or
    /// something below it goes there, and what comes back is passed on as
    /// it is. Any other event is the frame's own.
    open spec fn sent(m: MenuFrameModel<W::Model>, mgr: ManagerModel, id: WidgetId, event: Event) -> Sent<
        MenuFrameModel<W::Model>,
        W::Msg,
    > {
        if m.core.disabled {
            Sent { widget: m, mgr, response: Response::Unhandled(event) }
        } else if W::own(m.inner).spec_covers(id) {
            let s = W::sent(m.inner, mgr, id, event);
            Sent { widget: MenuFrameModel { inner: s.widget, ..m }, mgr: s.mgr, response: s.response }
        } else {
            generic::<MenuFrame<W>>(m, mgr, event)
        }
    }

    proof fn lemma_sent(m: MenuFrameModel<W::Model>, mgr: ManagerModel, id: WidgetId, event: Event) {
        W::lemma_sent(m.inner, mgr, id, event);
        lemma_same_nodes::<W>(W::sent(m.inner, mgr, id, event).widget, m.inner);
        lemma_generic::<MenuFrame<W>>(m, mgr, event);
    }

    fn send(&mut self, mgr: &mut Manager, id: WidgetId, event: Event) -> (r: Response<W::Msg>) {
        if self.core.disabled {
            return Response::Unhandled(event);
        }
        if self.inner.core_data().covers(id) {
            return self.inner.send(mgr, id, event);
        }
        Manager::handle_generic(self, mgr, event)
    }
}

impl<W> MenuFrame<W> {
    /// The widget inside the frame.
    pub closed spec fn content(&self) -> W {
        self.inner
    }
}

impl<W: HasBool> HasBool for MenuFrame<W> {
    /// The state of the content.
    closed spec fn state(&self) -> bool {
        self.inner.state()
    }

    fn get_bool(&self) -> (r: bool)
        ensures
            r == self.content().state(),
    {
        self.inner.get_bool()
    }

    fn set_bool(&mut self, state: bool) -> (r: TkAction)
        ensures
            final(self).content().state() == state,
    {
        self.inner.set_bool(state)
    }
}

impl<W: HasText> HasText for MenuFrame<W> {
    /// The text of the content.
    closed spec fn text(&self) -> Seq<char> {
        self.inner.text()
    }

    fn get_text(&self) -> (r: &str)
        ensures
            r@ == self.content().text(),
    {
        self.inner.get_text()
    }

    fn set_cow_string(&mut self, text: String) -> (r: TkAction)
        ensures
            final(self).content().text() == text@,
    {
        self.inner.set_cow_string(text)
    }
}

impl<W: Editable> Editable for MenuFrame<W> {
    /// Whether the content is editable.
    closed spec fn editable(&self) -> bool {
        self.inner.editable()
    }

    fn is_editable(&self) -> (r: bool)
        ensures
            r == self.content().editable(),
    {
        self.inner.is_editable()
    }

    fn set_editable(&mut self, editable: bool)
        ensures
            final(self).content().editable() == editable,
    {
        self.inner.set_editable(editable);
    }
}

/// What comes back from the content of a frame is passed on as it is.
pub proof fn lemma_frame_passes_on<W: SendEvent>(
    m: MenuFrameModel<W::Model>,
    mgr: ManagerModel,
    id: WidgetId,
    event: Event,
)
    requires
        !m.core.disabled,
        W::own(m.inner).spec_covers(id),
    ensures
        MenuFrame::<W>::sent(m, mgr, id, event).response == W::sent(m.inner, mgr, id, event).response,
{
}

/// An event that a frame hands back itself is the event that came.
pub proof fn lemma_frame_hands_back<W: SendEvent>(
    m: MenuFrameModel<W::Model>,
    mgr: ManagerModel,
    id: WidgetId,
    event: Event,
)
    requires
        m.core.disabled || !W::own(m.inner).spec_covers(id),
    ensures
        MenuFrame::<W>::sent(m, mgr, id, event).response == Response::<W::Msg>::Unhandled(event),
{
}

} // verus!
