//! Windows: the roots of widget trees.

use vstd::prelude::*;
use crate::data::{AlignHints, CoreData, TkAction};
use crate::driver::{dispatched, Input};
use crate::event::{CursorIcon, Event, Response};
use crate::geom::{Coord, Rect, Size};
use crate::id::WidgetId;
use crate::layout::{AxisInfo, SizeRules};
use crate::manager::{Manager, ManagerModel, ManagerState};
use crate::theme::{DrawCmd, DrawHandle, SizeHandle, SizeModel};
use crate::traits::{
    find_below, lemma_one_child, generic, lemma_generic, lemma_same_ids, lemma_same_nodes, same_ids, Handler, Layout, SendEvent, Sent,
    Visitor, WidgetCore,
};
use crate::data::Align;
use crate::theme::{TextClass, TextProperties};
use crate::widget::button::{TextButton, TextButtonModel};
use crate::widget::label::VoidMsg;
use crate::widget::list::{lemma_covering_unique, lemma_list_item, List, ListModel};

verus! {

/// The axis from left to right, with nothing fixed on the other.
pub open spec fn across() -> AxisInfo {
    AxisInfo { vertical: false, other: None }
}

/// The axis from top to bottom, for content that is `width` wide.
pub open spec fn down(width: u32) -> AxisInfo {
    AxisInfo { vertical: true, other: Some(width) }
}

/// A widget after both passes of layout for a window of `size`: it was
/// asked for its rules from left to right, then, given the width, for its
/// rules from top to bottom, and then took all of the window.
pub open spec fn laid_out<W: Layout>(m: W::Model, sizes: SizeModel, size: Size) -> W::Model {
    let h = W::sized(m, sizes, across());
    let v = W::sized(h.0, sizes, down(size.0));
    W::placed(v.0, Rect { pos: Coord(0, 0), size }, AlignHints::spec_unhinted())
}

/// The least size of a widget: its minimum along each axis, the height for
/// content that is `width` wide.
pub open spec fn least_size<W: Layout>(m: W::Model, sizes: SizeModel, width: u32) -> Size {
    let h = W::sized(m, sizes, across());
    let v = W::sized(h.0, sizes, down(width));
    Size(h.1.min, v.1.min)
}

/// Layout keeps a valid widget valid and names the same widgets as before.
pub proof fn lemma_laid_out<W: Layout>(m: W::Model, sizes: SizeModel, size: Size)
    requires
        W::valid(m),
    ensures
        W::valid(laid_out::<W>(m, sizes, size)),
        same_ids(W::nodes(laid_out::<W>(m, sizes, size)), W::nodes(m)),
        W::own(laid_out::<W>(m, sizes, size)).rect == (Rect { pos: Coord(0, 0), size }),
{
    let origin = Coord(0, 0);
    let rect = Rect { pos: origin, size };
    let h = W::sized(m, sizes, across());
    W::lemma_layout(m, sizes, across(), rect, AlignHints::spec_unhinted(), origin);
    let v = W::sized(h.0, sizes, down(size.0));
    W::lemma_layout(h.0, sizes, down(size.0), rect, AlignHints::spec_unhinted(), origin);
    W::lemma_layout(v.0, sizes, across(), rect, AlignHints::spec_unhinted(), origin);
}

/// Runs both passes of layout on `widget` for a window of `size`. Returns
/// the least size of the widget.
pub fn solve<W: Layout, S: SizeHandle>(widget: &mut W, size_handle: &mut S, size: Size) -> (r: Size)
    ensures
        final(widget).model() == laid_out::<W>(old(widget).model(), old(size_handle).answers(), size),
        r == least_size::<W>(old(widget).model(), old(size_handle).answers(), size.0),
        final(size_handle).answers() == old(size_handle).answers(),
{
    let ghost m = widget.model();
    let ghost sizes = size_handle.answers();
    let h = widget.size_rules(size_handle, AxisInfo::new(false, None));
    let v = widget.size_rules(size_handle, AxisInfo::new(true, Some(size.0)));
    proof {
        W::lemma_ready(
            m,
            sizes,
            across(),
            down(size.0),
            across(),
            Rect { pos: Coord(0, 0), size },
            AlignHints::spec_unhinted(),
        );
    }
    widget.set_rect(Rect { pos: Coord(0, 0), size }, AlignHints::unhinted());
    Size(h.min_size(), v.min_size())
}

/// A window: a widget that is the root of a tree and is driven by the event
/// loop.
pub trait Window: SendEvent + Sized {
    /// Configures the window and everything in it.
    fn configure_widgets(&mut self, mgr: &mut Manager)
        requires
            Self::nodes(old(self).model()).len() < u32::MAX,
            old(mgr)@.wf(),
        ensures
            (final(self).model(), final(mgr)@) == Self::configured(
                old(self).model(),
                old(mgr)@,
                WidgetId::spec_first(),
            ),
            Self::valid(final(self).model()),
            final(mgr)@.wf(),
    ;

    /// Lays the window out for the size `size`: both passes of layout are
    /// run. The window must have been configured.
    fn resize<S: SizeHandle>(&mut self, size_handle: &mut S, size: Size)
        requires
            Self::valid(old(self).model()),
        ensures
            final(self).model() == laid_out::<Self>(old(self).model(), old(size_handle).answers(), size),
            Self::valid(final(self).model()),
            same_ids(Self::nodes(final(self).model()), Self::nodes(old(self).model())),
            Self::own(final(self).model()).rect == (Rect { pos: Coord(0, 0), size }),
            final(size_handle).answers() == old(size_handle).answers(),
    ;

    /// Handles one input, as [`dispatched`] says.
    fn handle_input(&mut self, mgr: &mut Manager, input: Input) -> (r: Response<Self::Msg>)
        requires
            Self::valid(old(self).model()),
            old(mgr)@.wf(),
        ensures
            (Sent { widget: final(self).model(), mgr: final(mgr)@, response: r }) == dispatched::<Self>(
                old(self).model(),
                old(mgr)@,
                input,
            ),
            Self::valid(final(self).model()),
            Self::nodes(final(self).model()) == Self::nodes(old(self).model()),
            final(mgr)@.wf(),
    ;
}

/// A plain window around one widget.
#[derive(Clone, Debug)]
pub struct SimpleWindow<W> {
    core: CoreData,
    min_size: Size,
    w: W,
}

/// A [`SimpleWindow`] as a mathematical value; `I` is the model of the
/// content.
pub struct SimpleWindowModel<I> {
    pub core: CoreData,
    /// The least size of the content, as of the last layout.
    pub min_size: Size,
    pub w: I,
}

impl<W: WidgetCore> SimpleWindow<W> {
    /// A window around `w`, not yet configured.
    pub fn new(w: W) -> (r: SimpleWindow<W>)
        ensures
            r.model() == (SimpleWindowModel { core: CoreData::spec_unset(), min_size: Size(0, 0), w: w.model() }),
    {
        SimpleWindow { core: CoreData::unset(), min_size: Size::zero(), w }
    }

    /// The least size of the content, as of the last layout.
    pub fn min_size(&self) -> (r: Size)
        ensures
            r == self.model().min_size,
    {
        self.min_size
    }

    /// The content of the window.
    pub fn content(&self) -> (r: &W)
        ensures
            r.model() == self.model().w,
    {
        &self.w
    }
}

impl<W: WidgetCore> WidgetCore for SimpleWindow<W> {
    type Model = SimpleWindowModel<W::Model>;

    closed spec fn model(&self) -> SimpleWindowModel<W::Model> {
        SimpleWindowModel { core: self.core, min_size: self.min_size, w: self.w.model() }
    }

    open spec fn own(m: SimpleWindowModel<W::Model>) -> CoreData {
        m.core
    }

    open spec fn children(m: SimpleWindowModel<W::Model>) -> Seq<CoreData> {
        seq![W::own(m.w)]
    }

    open spec fn nodes(m: SimpleWindowModel<W::Model>) -> Seq<CoreData> {
        seq![m.core] + W::nodes(m.w)
    }

    /// The content is valid and has the identifiers that follow the
    /// window's own.
    open spec fn valid(m: SimpleWindowModel<W::Model>) -> bool {
        &&& m.core.id.0 >= 1
        &&& W::valid(m.w)
        &&& W::own(m.w).id.0 == m.core.id.0 + 1
        &&& m.core.last == W::own(m.w).last
    }

    open spec fn configured(m: SimpleWindowModel<W::Model>, mgr: ManagerModel, first: WidgetId) -> (
        SimpleWindowModel<W::Model>,
        ManagerModel,
    ) {
        let w = W::configured(m.w, mgr, WidgetId((first.0 + 1) as u32));
        (SimpleWindowModel { core: CoreData { id: first, last: W::own(w.0).last, ..m.core }, w: w.0, ..m }, w.1)
    }

    open spec fn name() -> Seq<char> {
        "SimpleWindow"@
    }

    open spec fn navigable(m: SimpleWindowModel<W::Model>) -> bool {
        false
    }

    open spec fn cursor(m: SimpleWindowModel<W::Model>) -> CursorIcon {
        CursorIcon::Default
    }

    open spec fn with_disabled(m: SimpleWindowModel<W::Model>, disabled: bool) -> SimpleWindowModel<W::Model> {
        SimpleWindowModel { core: CoreData { disabled, ..m.core }, ..m }
    }

    proof fn lemma_with_disabled(m: SimpleWindowModel<W::Model>, disabled: bool) {
        assert(Self::nodes(Self::with_disabled(m, disabled)) =~= Self::nodes(m).update(
            0,
            CoreData { disabled, ..m.core },
        ));
    }

    proof fn lemma_count(m: SimpleWindowModel<W::Model>) {
    }

    proof fn lemma_tree(m: SimpleWindowModel<W::Model>) {
        lemma_one_child::<W>(m.core, m.w);
    }

    proof fn lemma_configured(m: SimpleWindowModel<W::Model>, mgr: ManagerModel, first: WidgetId) {
        let next = WidgetId((first.0 + 1) as u32);
        W::lemma_configured(m.w, mgr, next);
        W::lemma_tree(W::configured(m.w, mgr, next).0);
    }

    fn core_data(&self) -> (r: &CoreData) {
        &self.core
    }

    fn widget_name(&self) -> (r: &'static str) {
        "SimpleWindow"
    }

    fn key_nav(&self) -> (r: bool) {
        false
    }

    fn cursor_icon(&self) -> (r: CursorIcon) {
        CursorIcon::Default
    }

    fn set_disabled(&mut self, disabled: bool) -> (r: TkAction) {
        self.core.disabled = disabled;
        TkAction::Redraw
    }

    fn len(&self) -> (r: usize) {
        1
    }

    fn get(&self, index: usize) -> (r: Option<CoreData>) {
        match index {
            0 => Some(*self.w.core_data()),
            _ => None,
        }
    }

    fn find(&self, id: WidgetId) -> (r: Option<CoreData>) {
        find_below(&self.core, &self.w, id)
    }

    fn walk<V: Visitor>(&self, visitor: &mut V) {
        visitor.visit(&self.core);
        self.w.walk(visitor);
        assert(final(visitor).seen() =~= old(visitor).seen() + Self::nodes(self.model()));
    }

    fn configure(&mut self, mgr: &mut Manager, first: WidgetId) -> (next: WidgetId) {
        proof {
            W::lemma_configured(self.w.model(), mgr@, WidgetId((first.0 + 1) as u32));
            W::lemma_tree(W::configured(self.w.model(), mgr@, WidgetId((first.0 + 1) as u32)).0);
        }
        self.core.id = first;
        let next = self.w.configure(mgr, first.next());
        self.core.last = self.w.core_data().last;
        next
    }
}

impl<W: Layout> Layout for SimpleWindow<W> {
    /// The one child lies within the rectangle.
    open spec fn spatial(m: SimpleWindowModel<W::Model>) -> (usize, usize) {
        (0usize, 0usize)
    }

    /// The rules of the content; the window notes the minimum.
    open spec fn sized(m: SimpleWindowModel<W::Model>, sizes: SizeModel, axis: AxisInfo) -> (
        SimpleWindowModel<W::Model>,
        SizeRules,
    ) {
        let w = W::sized(m.w, sizes, axis);
        let min_size = if axis.vertical {
            Size(m.min_size.0, w.1.min)
        } else {
            Size(w.1.min, m.min_size.1)
        };
        (SimpleWindowModel { w: w.0, min_size, ..m }, w.1)
    }

    /// The window and its content take `rect`.
    open spec fn placed(m: SimpleWindowModel<W::Model>, rect: Rect, align: AlignHints) -> SimpleWindowModel<
        W::Model,
    > {
        SimpleWindowModel { core: CoreData { rect, ..m.core }, w: W::placed(m.w, rect, align), ..m }
    }

    /// What the content finds; otherwise the window itself within its
    /// rectangle.
    open spec fn hit(m: SimpleWindowModel<W::Model>, coord: Coord) -> Option<WidgetId> {
        match W::hit(m.w, coord) {
            Some(id) => Some(id),
            None => if m.core.rect.spec_contains(coord) {
                Some(m.core.id)
            } else {
                None
            },
        }
    }

    /// The content.
    open spec fn painted(m: SimpleWindowModel<W::Model>, mgr: ManagerState, disabled: bool) -> Seq<DrawCmd> {
        W::painted(m.w, mgr, disabled || m.core.disabled)
    }

    /// The content is ready.
    open spec fn ready(m: SimpleWindowModel<W::Model>) -> bool {
        W::ready(m.w)
    }

    proof fn lemma_ready(
        m: SimpleWindowModel<W::Model>,
        sizes: SizeModel,
        across: AxisInfo,
        down: AxisInfo,
        axis: AxisInfo,
        rect: Rect,
        align: AlignHints,
    ) {
        W::lemma_ready(m.w, sizes, across, down, axis, rect, align);
    }

    proof fn lemma_layout(
        m: SimpleWindowModel<W::Model>,
        sizes: SizeModel,
        axis: AxisInfo,
        rect: Rect,
        align: AlignHints,
        coord: Coord,
    ) {
        W::lemma_layout(m.w, sizes, axis, rect, align, coord);
        W::lemma_tree(m.w);
        lemma_same_nodes::<W>(W::sized(m.w, sizes, axis).0, m.w);
        lemma_same_ids::<W>(W::placed(m.w, rect, align), m.w);
        let placed = Self::placed(m, rect, align);
        let a = Self::nodes(placed);
        let b = Self::nodes(m);
        let ia = W::nodes(placed.w);
        let ib = W::nodes(m.w);
        assert forall|i: int| 0 <= i < a.len() implies {
            &&& (#[trigger] a[i]).id == b[i].id
            &&& a[i].last == b[i].last
            &&& a[i].disabled == b[i].disabled
        } by {
            if i > 0 {
                assert(a[i] == ia[i - 1]);
                assert(b[i] == ib[i - 1]);
            }
        }
    }

    fn size_rules<S: SizeHandle>(&mut self, size_handle: &mut S, axis: AxisInfo) -> (r: SizeRules) {
        let rules = self.w.size_rules(size_handle, axis);
        if axis.is_vertical() {
            self.min_size.1 = rules.min_size();
        } else {
            self.min_size.0 = rules.min_size();
        }
        rules
    }

    fn set_rect(&mut self, rect: Rect, align: AlignHints) {
        self.core.rect = rect;
        self.w.set_rect(rect, align);
    }

    fn spatial_range(&self) -> (r: (usize, usize)) {
        (0, 0)
    }

    fn find_id(&self, coord: Coord) -> (r: Option<WidgetId>) {
        match self.w.find_id(coord) {
            Some(id) => Some(id),
            None => if self.core.rect.contains(coord) {
                Some(self.core.id)
            } else {
                None
            },
        }
    }

    fn draw<D: DrawHandle>(&self, draw_handle: &mut D, mgr: &ManagerState, disabled: bool) {
        let disabled = disabled || self.core.disabled;
        self.w.draw(draw_handle, mgr, disabled);
    }
}

impl<W: Handler> Handler for SimpleWindow<W> {
    type Msg = W::Msg;

    open spec fn activable(m: SimpleWindowModel<W::Model>) -> bool {
        false
    }

    /// The window itself has no use for any event.
    open spec fn handled(m: SimpleWindowModel<W::Model>, mgr: ManagerModel, event: Event) -> Sent<
        SimpleWindowModel<W::Model>,
        W::Msg,
    > {
        Sent { widget: m, mgr, response: Response::Unhandled(event) }
    }

    proof fn lemma_handled(m: SimpleWindowModel<W::Model>, mgr: ManagerModel, event: Event) {
    }

    fn activation_via_press(&self) -> (r: bool) {
        false
    }

    fn handle(&mut self, mgr: &mut Manager, event: Event) -> (r: Response<W::Msg>) {
        Response::Unhandled(event)
    }
}

impl<W: SendEvent> SendEvent for SimpleWindow<W> {
    /// A disabled window hands the event back. An event for the content or
    /// something below it goes there, and what comes back is passed on as
    /// it is; when the content asks for the window to be closed, the toolkit
    /// is told. Any other event is the window's own.
    open spec fn sent(m: SimpleWindowModel<W::Model>, mgr: ManagerModel, id: WidgetId, event: Event) -> Sent<
        SimpleWindowModel<W::Model>,
        W::Msg,
    > {
        if m.core.disabled {
            Sent { widget: m, mgr, response: Response::Unhandled(event) }
        } else if W::own(m.w).spec_covers(id) {
            let s = W::sent(m.w, mgr, id, event);
            Sent {
                widget: SimpleWindowModel { w: s.widget, ..m },
                mgr: if s.response is Close {
                    s.mgr.with_action(TkAction::Close)
                } else {
                    s.mgr
                },
                response: s.response,
            }
        } else {
            generic::<SimpleWindow<W>>(m, mgr, event)
        }
    }

    proof fn lemma_sent(m: SimpleWindowModel<W::Model>, mgr: ManagerModel, id: WidgetId, event: Event) {
        W::lemma_sent(m.w, mgr, id, event);
        lemma_same_nodes::<W>(W::sent(m.w, mgr, id, event).widget, m.w);
        lemma_generic::<SimpleWindow<W>>(m, mgr, event);
    }

    fn send(&mut self, mgr: &mut Manager, id: WidgetId, event: Event) -> (r: Response<W::Msg>) {
        if self.core.disabled {
            return Response::Unhandled(event);
        }
        if self.w.core_data().covers(id) {
            let r = self.w.send(mgr, id, event);
            match r {
                Response::Close => {
                    mgr.send_action(TkAction::Close);
                },
                _ => {},
            }
            return r;
        }
        Manager::handle_generic(self, mgr, event)
    }
}

impl<W: SendEvent> Window for SimpleWindow<W> {
    fn configure_widgets(&mut self, mgr: &mut Manager) {
        mgr.configure(self);
    }

    /// The window notes the least size of its content.
    fn resize<S: SizeHandle>(&mut self, size_handle: &mut S, size: Size)
        ensures
            final(self).model().min_size == least_size::<W>(
                old(self).model().w,
                old(size_handle).answers(),
                size.0,
            ),
    {
        proof {
            lemma_laid_out::<SimpleWindow<W>>(self.model(), size_handle.answers(), size);
        }
        solve(self, size_handle, size);
    }

    fn handle_input(&mut self, mgr: &mut Manager, input: Input) -> (r: Response<W::Msg>) {
        mgr.dispatch(self, input)
    }
}

/// An action that asks for the window to be closed, for use as the action
/// of a button.
pub fn action_close() -> (action: impl Fn() -> Response<VoidMsg>)
    ensures
        action.requires(()),
        forall|r: Response<VoidMsg>| action.ensures((), r) ==> r is Close,
{
    || -> (r: Response<VoidMsg>)
        ensures
            r is Close,
        { Response::Close }
}

/// A window that shows a message above a button. The button sends the
/// message box's action.
#[derive(Clone, Debug)]
pub struct MessageBox<M: Copy> {
    core: CoreData,
    message: String,
    /// The height that the message takes, as of the last layout.
    split: u32,
    button: TextButton<M>,
}

/// A [`MessageBox`] as a mathematical value.
pub struct MessageBoxModel<M: Copy> {
    pub core: CoreData,
    pub message: Seq<char>,
    pub split: u32,
    pub button: TextButtonModel<M>,
}

impl<M: Copy> MessageBox<M> {
    /// A message box that shows `message` and sends `action` when its button
    /// is activated, not yet configured. The button says "OK".
    pub fn new(message: String, action: M) -> (r: MessageBox<M>)
        ensures
            r.model() == (MessageBoxModel {
                core: CoreData::spec_unset(),
                message: message@,
                split: 0,
                button: TextButtonModel { core: CoreData::spec_unset(), label: "OK"@, msg: action },
            }),
    {
        let button = TextButton::new("OK".to_owned(), action);
        MessageBox { core: CoreData::unset(), message, split: 0, button }
    }

    /// The rectangle of the message within `rect`: the upper part, `split`
    /// high.
    pub open spec fn message_rect(rect: Rect, split: u32) -> Rect {
        Rect { pos: rect.pos, size: Size(rect.size.0, split) }
    }

    /// The rectangle of the button within `rect`: what is left below the
    /// message.
    pub open spec fn button_rect(rect: Rect, split: u32) -> Rect {
        rect.spec_shrunk(Size(0, split), Size(0, 0))
    }

    /// The text of the message.
    pub fn message(&self) -> (r: &str)
        ensures
            r@ == self.model().message,
    {
        self.message.as_str()
    }
}

impl<M: Copy> WidgetCore for MessageBox<M> {
    type Model = MessageBoxModel<M>;

    closed spec fn model(&self) -> MessageBoxModel<M> {
        MessageBoxModel { core: self.core, message: self.message@, split: self.split, button: self.button.model() }
    }

    open spec fn own(m: MessageBoxModel<M>) -> CoreData {
        m.core
    }

    open spec fn children(m: MessageBoxModel<M>) -> Seq<CoreData> {
        seq![TextButton::<M>::own(m.button)]
    }

    open spec fn nodes(m: MessageBoxModel<M>) -> Seq<CoreData> {
        seq![m.core] + TextButton::<M>::nodes(m.button)
    }

    /// The button is valid and has the identifier that follows the box's
    /// own.
    open spec fn valid(m: MessageBoxModel<M>) -> bool {
        &&& m.core.id.0 >= 1
        &&& TextButton::<M>::valid(m.button)
        &&& TextButton::<M>::own(m.button).id.0 == m.core.id.0 + 1
        &&& m.core.last == TextButton::<M>::own(m.button).last
    }

    open spec fn configured(m: MessageBoxModel<M>, mgr: ManagerModel, first: WidgetId) -> (
        MessageBoxModel<M>,
        ManagerModel,
    ) {
        let button = TextButton::<M>::configured(m.button, mgr, WidgetId((first.0 + 1) as u32));
        (
            MessageBoxModel {
                core: CoreData { id: first, last: TextButton::<M>::own(button.0).last, ..m.core },
                button: button.0,
                ..m
            },
            button.1,
        )
    }

    open spec fn name() -> Seq<char> {
        "MessageBox"@
    }

    open spec fn navigable(m: MessageBoxModel<M>) -> bool {
        false
    }

    open spec fn cursor(m: MessageBoxModel<M>) -> CursorIcon {
        CursorIcon::Default
    }

    open spec fn with_disabled(m: MessageBoxModel<M>, disabled: bool) -> MessageBoxModel<M> {
        MessageBoxModel { core: CoreData { disabled, ..m.core }, ..m }
    }

    proof fn lemma_with_disabled(m: MessageBoxModel<M>, disabled: bool) {
        assert(Self::nodes(Self::with_disabled(m, disabled)) =~= Self::nodes(m).update(
            0,
            CoreData { disabled, ..m.core },
        ));
    }

    proof fn lemma_count(m: MessageBoxModel<M>) {
    }

    proof fn lemma_tree(m: MessageBoxModel<M>) {
        lemma_one_child::<TextButton<M>>(m.core, m.button);
    }

    proof fn lemma_configured(m: MessageBoxModel<M>, mgr: ManagerModel, first: WidgetId) {
        let next = WidgetId((first.0 + 1) as u32);
        TextButton::<M>::lemma_configured(m.button, mgr, next);
        TextButton::<M>::lemma_tree(TextButton::<M>::configured(m.button, mgr, next).0);
    }

    fn core_data(&self) -> (r: &CoreData) {
        &self.core
    }

    fn widget_name(&self) -> (r: &'static str) {
        "MessageBox"
    }

    fn key_nav(&self) -> (r: bool) {
        false
    }

    fn cursor_icon(&self) -> (r: CursorIcon) {
        CursorIcon::Default
    }

    fn set_disabled(&mut self, disabled: bool) -> (r: TkAction) {
        self.core.disabled = disabled;
        TkAction::Redraw
    }

    fn len(&self) -> (r: usize) {
        1
    }

    fn get(&self, index: usize) -> (r: Option<CoreData>) {
        match index {
            0 => Some(*self.button.core_data()),
            _ => None,
        }
    }

    fn find(&self, id: WidgetId) -> (r: Option<CoreData>) {
        find_below(&self.core, &self.button, id)
    }

    fn walk<V: Visitor>(&self, visitor: &mut V) {
        visitor.visit(&self.core);
        self.button.walk(visitor);
        assert(final(visitor).seen() =~= old(visitor).seen() + Self::nodes(self.model()));
    }

    fn configure(&mut self, mgr: &mut Manager, first: WidgetId) -> (next: WidgetId) {
        proof {
            TextButton::<M>::lemma_configured(self.button.model(), mgr@, WidgetId((first.0 + 1) as u32));
            TextButton::<M>::lemma_tree(
                TextButton::<M>::configured(self.button.model(), mgr@, WidgetId((first.0 + 1) as u32)).0,
            );
        }
        self.core.id = first;
        let next = self.button.configure(mgr, first.next());
        self.core.last = self.button.core_data().last;
        next
    }
}

impl<M: Copy> Layout for MessageBox<M> {
    /// The one child lies within the rectangle.
    open spec fn spatial(m: MessageBoxModel<M>) -> (usize, usize) {
        (0usize, 0usize)
    }

    /// From top to bottom the message comes before the button, and the box
    /// notes the ideal height of the message; from left to right the box
    /// needs the larger of the two.
    open spec fn sized(m: MessageBoxModel<M>, sizes: SizeModel, axis: AxisInfo) -> (MessageBoxModel<M>, SizeRules) {
        let text = (sizes.text_bound)(m.message, TextClass::Label, axis);
        let button = TextButton::<M>::sized(m.button, sizes, axis);
        if axis.vertical {
            (MessageBoxModel { split: text.ideal, button: button.0, ..m }, text.spec_appended(button.1))
        } else {
            (MessageBoxModel { button: button.0, ..m }, text.spec_max(button.1))
        }
    }

    /// The box takes `rect`; the button gets what is left below the
    /// message.
    open spec fn placed(m: MessageBoxModel<M>, rect: Rect, align: AlignHints) -> MessageBoxModel<M> {
        MessageBoxModel {
            core: CoreData { rect, ..m.core },
            button: TextButton::<M>::placed(m.button, Self::button_rect(rect, m.split), align),
            ..m
        }
    }

    /// The button where the press is on it; otherwise the box itself within
    /// its rectangle.
    open spec fn hit(m: MessageBoxModel<M>, coord: Coord) -> Option<WidgetId> {
        if !m.core.rect.spec_contains(coord) {
            None
        } else {
            match TextButton::<M>::hit(m.button, coord) {
                Some(id) => Some(id),
                None => Some(m.core.id),
            }
        }
    }

    /// The message at the top, centred, then the button.
    open spec fn painted(m: MessageBoxModel<M>, mgr: ManagerState, disabled: bool) -> Seq<DrawCmd> {
        seq![
            DrawCmd::Text {
                rect: Self::message_rect(m.core.rect, m.split),
                text: m.message,
                props: TextProperties { class: TextClass::Label, horiz: Align::Centre, vert: Align::Centre },
            },
        ] + TextButton::<M>::painted(m.button, mgr, disabled || m.core.disabled)
    }

    /// The box can always be placed.
    open spec fn ready(m: MessageBoxModel<M>) -> bool {
        true
    }

    proof fn lemma_ready(
        m: MessageBoxModel<M>,
        sizes: SizeModel,
        across: AxisInfo,
        down: AxisInfo,
        axis: AxisInfo,
        rect: Rect,
        align: AlignHints,
    ) {
    }

    proof fn lemma_layout(
        m: MessageBoxModel<M>,
        sizes: SizeModel,
        axis: AxisInfo,
        rect: Rect,
        align: AlignHints,
        coord: Coord,
    ) {
        let place = Self::button_rect(rect, m.split);
        TextButton::<M>::lemma_layout(m.button, sizes, axis, place, align, coord);
        TextButton::<M>::lemma_tree(m.button);
        lemma_same_nodes::<TextButton<M>>(TextButton::<M>::sized(m.button, sizes, axis).0, m.button);
        lemma_same_ids::<TextButton<M>>(TextButton::<M>::placed(m.button, place, align), m.button);
    }

    fn size_rules<S: SizeHandle>(&mut self, size_handle: &mut S, axis: AxisInfo) -> (r: SizeRules) {
        let text = size_handle.text_bound(self.message.as_str(), TextClass::Label, axis);
        let button = self.button.size_rules(size_handle, axis);
        if axis.is_vertical() {
            self.split = text.ideal_size();
            text.appended(button)
        } else {
            text.max(button)
        }
    }

    fn set_rect(&mut self, rect: Rect, align: AlignHints) {
        self.core.rect = rect;
        self.button.set_rect(rect.shrunk(Size(0, self.split), Size(0, 0)), align);
    }

    fn spatial_range(&self) -> (r: (usize, usize)) {
        (0, 0)
    }

    fn find_id(&self, coord: Coord) -> (r: Option<WidgetId>) {
        if !self.core.rect.contains(coord) {
            return None;
        }
        match self.button.find_id(coord) {
            Some(id) => Some(id),
            None => Some(self.core.id),
        }
    }

    fn draw<D: DrawHandle>(&self, draw_handle: &mut D, mgr: &ManagerState, disabled: bool) {
        let props = TextProperties { class: TextClass::Label, horiz: Align::Centre, vert: Align::Centre };
        let rect = Rect { pos: self.core.rect.pos, size: Size(self.core.rect.size.0, self.split) };
        draw_handle.text(rect, self.message.as_str(), props);
        self.button.draw(draw_handle, mgr, disabled || self.core.disabled);
        assert(final(draw_handle).drawn() =~= old(draw_handle).drawn() + Self::painted(self.model(), *mgr, disabled));
    }
}

impl<M: Copy> Handler for MessageBox<M> {
    type Msg = M;

    open spec fn activable(m: MessageBoxModel<M>) -> bool {
        false
    }

    /// The box itself has no use for any event.
    open spec fn handled(m: MessageBoxModel<M>, mgr: ManagerModel, event: Event) -> Sent<MessageBoxModel<M>, M> {
        Sent { widget: m, mgr, response: Response::Unhandled(event) }
    }

    proof fn lemma_handled(m: MessageBoxModel<M>, mgr: ManagerModel, event: Event) {
    }

    fn activation_via_press(&self) -> (r: bool) {
        false
    }

    fn handle(&mut self, mgr: &mut Manager, event: Event) -> (r: Response<M>) {
        Response::Unhandled(event)
    }
}

impl<M: Copy> SendEvent for MessageBox<M> {
    /// A disabled box hands the event back. An event for the button goes
    /// there, and what comes back is passed on as it is. Any other event is
    /// the box's own.
    open spec fn sent(m: MessageBoxModel<M>, mgr: ManagerModel, id: WidgetId, event: Event) -> Sent<
        MessageBoxModel<M>,
        M,
    > {
        if m.core.disabled {
            Sent { widget: m, mgr, response: Response::Unhandled(event) }
        } else if TextButton::<M>::own(m.button).spec_covers(id) {
            let s = TextButton::<M>::sent(m.button, mgr, id, event);
            Sent { widget: MessageBoxModel { button: s.widget, ..m }, mgr: s.mgr, response: s.response }
        } else {
            generic::<MessageBox<M>>(m, mgr, event)
        }
    }

    proof fn lemma_sent(m: MessageBoxModel<M>, mgr: ManagerModel, id: WidgetId, event: Event) {
        TextButton::<M>::lemma_sent(m.button, mgr, id, event);
        lemma_same_nodes::<TextButton<M>>(TextButton::<M>::sent(m.button, mgr, id, event).widget, m.button);
        lemma_generic::<MessageBox<M>>(m, mgr, event);
    }

    fn send(&mut self, mgr: &mut Manager, id: WidgetId, event: Event) -> (r: Response<M>) {
        if self.core.disabled {
            return Response::Unhandled(event);
        }
        if self.button.core_data().covers(id) {
            return self.button.send(mgr, id, event);
        }
        Manager::handle_generic(self, mgr, event)
    }
}

impl<M: Copy> Window for MessageBox<M> {
    fn configure_widgets(&mut self, mgr: &mut Manager) {
        mgr.configure(self);
    }

    fn resize<S: SizeHandle>(&mut self, size_handle: &mut S, size: Size) {
        proof {
            lemma_laid_out::<MessageBox<M>>(self.model(), size_handle.answers(), size);
        }
        solve(self, size_handle, size);
    }

    fn handle_input(&mut self, mgr: &mut Manager, input: Input) -> (r: Response<M>) {
        mgr.dispatch(self, input)
    }
}

/// Activation that is sent to a button in a row of buttons in a window
/// yields the message of that button, and of no other, and changes neither
/// the window nor the manager.
pub proof fn lemma_activation_yields_message<M: Copy>(
    m: SimpleWindowModel<ListModel<TextButtonModel<M>>>,
    mgr: ManagerModel,
    i: int,
)
    requires
        SimpleWindow::<List<TextButton<M>>>::valid(m),
        0 <= i < m.w.items.len(),
        !m.core.disabled,
        !m.w.core.disabled,
        !m.w.items[i].core.disabled,
    ensures
        SimpleWindow::<List<TextButton<M>>>::sent(m, mgr, m.w.items[i].core.id, Event::Activate) == (Sent {
            widget: m,
            mgr,
            response: Response::Msg(m.w.items[i].msg),
        }),
{
    let id = m.w.items[i].core.id;
    lemma_list_item::<TextButton<M>>(m.w, i);
    lemma_covering_unique::<TextButton<M>>(m.w, id, i);
    assert(m.w.items.update(i, m.w.items[i]) =~= m.w.items);
}

} // verus!
