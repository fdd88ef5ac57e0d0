//! Every kind of widget trait holds of a boxed widget too: the box hands
//! each call on to what it holds.

use vstd::prelude::*;
use crate::data::{AlignHints, CoreData, TkAction};
use crate::event::{CursorIcon, Event, Response};
use crate::geom::{Coord, Rect};
use crate::id::WidgetId;
use crate::layout::{AxisInfo, SizeRules};
use crate::manager::{Manager, ManagerModel, ManagerState};
use crate::theme::{DrawCmd, DrawHandle, SizeHandle, SizeModel};
use crate::traits::{Handler, Layout, SendEvent, Sent, Visitor, WidgetCore};

verus! {

impl<W: WidgetCore> WidgetCore for Box<W> {
    type Model = W::Model;

    open spec fn model(&self) -> W::Model {
        (**self).model()
    }

    open spec fn own(m: W::Model) -> CoreData {
        W::own(m)
    }

    open spec fn children(m: W::Model) -> Seq<CoreData> {
        W::children(m)
    }

    open spec fn nodes(m: W::Model) -> Seq<CoreData> {
        W::nodes(m)
    }

    open spec fn valid(m: W::Model) -> bool {
        W::valid(m)
    }

    open spec fn configured(m: W::Model, mgr: ManagerModel, first: WidgetId) -> (W::Model, ManagerModel) {
        W::configured(m, mgr, first)
    }

    open spec fn name() -> Seq<char> {
        W::name()
    }

    open spec fn navigable(m: W::Model) -> bool {
        W::navigable(m)
    }

    open spec fn cursor(m: W::Model) -> CursorIcon {
        W::cursor(m)
    }

    open spec fn with_disabled(m: W::Model, disabled: bool) -> W::Model {
        W::with_disabled(m, disabled)
    }

    proof fn lemma_with_disabled(m: W::Model, disabled: bool) {
        W::lemma_with_disabled(m, disabled);
    }

    proof fn lemma_count(m: W::Model) {
        W::lemma_count(m);
    }

    proof fn lemma_tree(m: W::Model) {
        W::lemma_tree(m);
    }

    proof fn lemma_configured(m: W::Model, mgr: ManagerModel, first: WidgetId) {
        W::lemma_configured(m, mgr, first);
    }

    fn core_data(&self) -> (r: &CoreData) {
        (**self).core_data()
    }

    fn widget_name(&self) -> (r: &'static str) {
        (**self).widget_name()
    }

    fn key_nav(&self) -> (r: bool) {
        (**self).key_nav()
    }

    fn cursor_icon(&self) -> (r: CursorIcon) {
        (**self).cursor_icon()
    }

    fn set_disabled(&mut self, disabled: bool) -> (r: TkAction) {
        (**self).set_disabled(disabled)
    }

    fn len(&self) -> (r: usize) {
        (**self).len()
    }

    fn get(&self, index: usize) -> (r: Option<CoreData>) {
        (**self).get(index)
    }

    fn find(&self, id: WidgetId) -> (r: Option<CoreData>) {
        (**self).find(id)
    }

    fn walk<V: Visitor>(&self, visitor: &mut V) {
        (**self).walk(visitor);
    }

    fn configure(&mut self, mgr: &mut Manager, first: WidgetId) -> (next: WidgetId) {
        (**self).configure(mgr, first)
    }
}

impl<W: Layout> Layout for Box<W> {
    open spec fn sized(m: W::Model, sizes: SizeModel, axis: AxisInfo) -> (W::Model, SizeRules) {
        W::sized(m, sizes, axis)
    }

    open spec fn placed(m: W::Model, rect: Rect, align: AlignHints) -> W::Model {
        W::placed(m, rect, align)
    }

    open spec fn hit(m: W::Model, coord: Coord) -> Option<WidgetId> {
        W::hit(m, coord)
    }

    open spec fn spatial(m: W::Model) -> (usize, usize) {
        W::spatial(m)
    }

    open spec fn ready(m: W::Model) -> bool {
        W::ready(m)
    }

    proof fn lemma_ready(
        m: W::Model,
        sizes: SizeModel,
        across: AxisInfo,
        down: AxisInfo,
        axis: AxisInfo,
        rect: Rect,
        align: AlignHints,
    ) {
        W::lemma_ready(m, sizes, across, down, axis, rect, align);
    }

    open spec fn painted(m: W::Model, mgr: ManagerState, disabled: bool) -> Seq<DrawCmd> {
        W::painted(m, mgr, disabled)
    }

    proof fn lemma_layout(m: W::Model, sizes: SizeModel, axis: AxisInfo, rect: Rect, align: AlignHints, coord: Coord) {
        W::lemma_layout(m, sizes, axis, rect, align, coord);
    }

    fn size_rules<S: SizeHandle>(&mut self, size_handle: &mut S, axis: AxisInfo) -> (r: SizeRules) {
        (**self).size_rules(size_handle, axis)
    }

    fn set_rect(&mut self, rect: Rect, align: AlignHints) {
        (**self).set_rect(rect, align);
    }

    fn spatial_range(&self) -> (r: (usize, usize)) {
        (**self).spatial_range()
    }

    fn find_id(&self, coord: Coord) -> (r: Option<WidgetId>) {
        (**self).find_id(coord)
    }

    fn draw<D: DrawHandle>(&self, draw_handle: &mut D, mgr: &ManagerState, disabled: bool) {
        (**self).draw(draw_handle, mgr, disabled);
    }
}

impl<W: Handler> Handler for Box<W> {
    type Msg = W::Msg;

    open spec fn activable(m: W::Model) -> bool {
        W::activable(m)
    }

    open spec fn handled(m: W::Model, mgr: ManagerModel, event: Event) -> Sent<W::Model, W::Msg> {
        W::handled(m, mgr, event)
    }

    proof fn lemma_handled(m: W::Model, mgr: ManagerModel, event: Event) {
        W::lemma_handled(m, mgr, event);
    }

    fn activation_via_press(&self) -> (r: bool) {
        (**self).activation_via_press()
    }

    fn handle(&mut self, mgr: &mut Manager, event: Event) -> (r: Response<W::Msg>) {
        (**self).handle(mgr, event)
    }
}

impl<W: SendEvent> SendEvent for Box<W> {
    open spec fn sent(m: W::Model, mgr: ManagerModel, id: WidgetId, event: Event) -> Sent<W::Model, W::Msg> {
        W::sent(m, mgr, id, event)
    }

    proof fn lemma_sent(m: W::Model, mgr: ManagerModel, id: WidgetId, event: Event) {
        W::lemma_sent(m, mgr, id, event);
    }

    fn send(&mut self, mgr: &mut Manager, id: WidgetId, event: Event) -> (r: Response<W::Msg>) {
        (**self).send(mgr, id, event)
    }
}

} // verus!
