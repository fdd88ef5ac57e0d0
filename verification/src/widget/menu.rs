//! Menus.

pub mod menu_frame;

use vstd::prelude::*;
use crate::class::HasText;
use crate::data::{AlignHints, CoreData, Direction, TkAction};
use crate::event::{CursorIcon, Event, GrabMode, HighlightState, Response};
use crate::geom::{Coord, Rect};
use crate::id::{WidgetId, WindowId};
use crate::event::PressSource;
use crate::manager::OpenPopup;
use crate::layout::{AxisInfo, SizeRules};
use crate::manager::{
    lemma_add_popup, lemma_close_window, lemma_request_grab, lemma_set_grab_depress, same_target, Manager,
    ManagerModel, ManagerState, Popup,
};
use crate::theme::{DrawCmd, DrawHandle, SizeHandle, SizeModel};
use crate::traits::{
    find_below, lemma_one_child, generic, lemma_generic, lemma_same_ids, lemma_same_nodes, same_ids, Handler, Layout, SendEvent, Sent,
    Visitor, WidgetCore,
};
use crate::widget::button::{button_painted, button_rules, button_size_rules, draw_button};
use crate::widget::list::{
    covered, covering, flat, lemma_before_grows, lemma_covering_unique, lemma_flat_equal, lemma_list_alike,
    lemma_list_item, list_valid, Column, List, ListModel,
};

verus! {

/// The highlights of a menu button: those of the widget, and pressed for
/// as long as its menu is open.
pub open spec fn menu_highlights(shown: HighlightState, open: bool) -> HighlightState {
    if open {
        HighlightState { depress: true, ..shown }
    } else {
        shown
    }
}

/// A button that opens a popup.
///
/// The popup opens when the button is activated or pressed and takes part in
/// the press: a press that begins on the button and ends on a widget of the
/// popup activates that widget. A message from the popup is passed on to the
/// parent, and the popup is closed.
#[derive(Clone, Debug)]
pub struct MenuButton<W> {
    core: CoreData,
    label: String,
    popup: W,
    opening: bool,
    popup_id: Option<WindowId>,
}

/// A [`MenuButton`] as a mathematical value; `P` is the model of the popup.
pub struct MenuButtonModel<P> {
    pub core: CoreData,
    pub label: Seq<char>,
    pub popup: P,
    /// The press that is under way opened the menu.
    pub opening: bool,
    /// The window of the popup while it is open.
    pub popup_id: Option<WindowId>,
}

impl<W: WidgetCore> MenuButton<W> {
    /// A menu button with the text `label` that opens `popup`, closed and
    /// not yet configured.
    pub fn new(label: String, popup: W) -> (r: MenuButton<W>)
        ensures
            r.model() == (MenuButtonModel {
                core: CoreData::spec_unset(),
                label: label@,
                popup: popup.model(),
                opening: false,
                popup_id: None,
            }),
    {
        MenuButton { core: CoreData::unset(), label, popup, opening: false, popup_id: None }
    }

    /// The button with its menu open: a closed menu is opened below the
    /// button; an open one stays as it is.
    pub open spec fn opened(m: MenuButtonModel<W::Model>, mgr: ManagerModel) -> (
        MenuButtonModel<W::Model>,
        ManagerModel,
    ) {
        if m.popup_id is None {
            let added = mgr.add_popup(
                Popup { id: W::own(m.popup).id, parent: m.core.id, direction: Direction::Down },
            );
            (MenuButtonModel { popup_id: added.1, ..m }, added.0)
        } else {
            (m, mgr)
        }
    }

    /// The button with its menu closed.
    pub open spec fn closed(m: MenuButtonModel<W::Model>, mgr: ManagerModel) -> (
        MenuButtonModel<W::Model>,
        ManagerModel,
    ) {
        match m.popup_id {
            Some(window) => (MenuButtonModel { popup_id: None, ..m }, mgr.close_window(window)),
            None => (m, mgr),
        }
    }

    /// Whether the menu is open.
    pub fn menu_is_open(&self) -> (r: bool)
        ensures
            r == self.model().popup_id is Some,
    {
        self.popup_id.is_some()
    }

    fn open_menu(&mut self, mgr: &mut Manager)
        requires
            old(mgr)@.wf(),
        ensures
            (final(self).model(), final(mgr)@) == Self::opened(old(self).model(), old(mgr)@),
            final(mgr)@.wf(),
    {
        if self.popup_id.is_none() {
            let id = mgr.add_popup(
                Popup { id: self.popup.core_data().id, parent: self.core.id, direction: Direction::Down },
            );
            self.popup_id = id;
        }
    }

    fn close_menu(&mut self, mgr: &mut Manager)
        requires
            old(mgr)@.wf(),
        ensures
            (final(self).model(), final(mgr)@) == Self::closed(old(self).model(), old(mgr)@),
            final(mgr)@.wf(),
    {
        if let Some(id) = self.popup_id {
            mgr.close_window(id);
            self.popup_id = None;
        }
    }
}

impl<W: Layout> MenuButton<W> {
    /// Places the popup: the toolkit calls this when it has opened the
    /// popup's window and has asked for the rules of the popup.
    pub fn set_popup_rect(&mut self, rect: Rect, align: AlignHints)
        requires
            W::ready(old(self).model().popup),
        ensures
            final(self).model() == (MenuButtonModel {
                popup: W::placed(old(self).model().popup, rect, align),
                ..old(self).model()
            }),
    {
        self.popup.set_rect(rect, align);
    }

    /// The rules of the popup along `axis`.
    pub fn popup_size_rules<S: SizeHandle>(&mut self, size_handle: &mut S, axis: AxisInfo) -> (r: SizeRules)
        ensures
            final(self).model() == (MenuButtonModel {
                popup: W::sized(old(self).model().popup, old(size_handle).answers(), axis).0,
                ..old(self).model()
            }),
            r == W::sized(old(self).model().popup, old(size_handle).answers(), axis).1,
            final(size_handle).answers() == old(size_handle).answers(),
    {
        self.popup.size_rules(size_handle, axis)
    }
}

impl<W: WidgetCore> HasText for MenuButton<W> {
    closed spec fn text(&self) -> Seq<char> {
        self.label@
    }

    fn get_text(&self) -> (r: &str)
        ensures
            r@ == self.model().label,
    {
        self.label.as_str()
    }

    fn set_cow_string(&mut self, text: String) -> (r: TkAction)
        ensures
            final(self).model() == (MenuButtonModel { label: text@, ..old(self).model() }),
    {
        self.label = text;
        TkAction::Redraw
    }
}

impl<W: WidgetCore> WidgetCore for MenuButton<W> {
    type Model = MenuButtonModel<W::Model>;

    closed spec fn model(&self) -> MenuButtonModel<W::Model> {
        MenuButtonModel {
            core: self.core,
            label: self.label@,
            popup: self.popup.model(),
            opening: self.opening,
            popup_id: self.popup_id,
        }
    }

    open spec fn own(m: MenuButtonModel<W::Model>) -> CoreData {
        m.core
    }

    open spec fn children(m: MenuButtonModel<W::Model>) -> Seq<CoreData> {
        seq![W::own(m.popup)]
    }

    open spec fn nodes(m: MenuButtonModel<W::Model>) -> Seq<CoreData> {
        seq![m.core] + W::nodes(m.popup)
    }

    /// The popup is valid and has the identifiers that follow the button's
    /// own.
    open spec fn valid(m: MenuButtonModel<W::Model>) -> bool {
        &&& m.core.id.0 >= 1
        &&& W::valid(m.popup)
        &&& W::own(m.popup).id.0 == m.core.id.0 + 1
        &&& m.core.last == W::own(m.popup).last
    }

    open spec fn configured(m: MenuButtonModel<W::Model>, mgr: ManagerModel, first: WidgetId) -> (
        MenuButtonModel<W::Model>,
        ManagerModel,
    ) {
        let popup = W::configured(m.popup, mgr, WidgetId((first.0 + 1) as u32));
        (
            MenuButtonModel {
                core: CoreData { id: first, last: W::own(popup.0).last, ..m.core },
                popup: popup.0,
                ..m
            },
            popup.1,
        )
    }

    open spec fn name() -> Seq<char> {
        "MenuButton"@
    }

    open spec fn navigable(m: MenuButtonModel<W::Model>) -> bool {
        true
    }

    open spec fn cursor(m: MenuButtonModel<W::Model>) -> CursorIcon {
        CursorIcon::Default
    }

    open spec fn with_disabled(m: MenuButtonModel<W::Model>, disabled: bool) -> MenuButtonModel<W::Model> {
        MenuButtonModel { core: CoreData { disabled, ..m.core }, ..m }
    }

    proof fn lemma_with_disabled(m: MenuButtonModel<W::Model>, disabled: bool) {
        assert(Self::nodes(Self::with_disabled(m, disabled)) =~= Self::nodes(m).update(
            0,
            CoreData { disabled, ..m.core },
        ));
    }

    proof fn lemma_count(m: MenuButtonModel<W::Model>) {
    }

    proof fn lemma_tree(m: MenuButtonModel<W::Model>) {
        lemma_one_child::<W>(m.core, m.popup);
    }

    proof fn lemma_configured(m: MenuButtonModel<W::Model>, mgr: ManagerModel, first: WidgetId) {
        let next = WidgetId((first.0 + 1) as u32);
        W::lemma_configured(m.popup, mgr, next);
        W::lemma_tree(W::configured(m.popup, mgr, next).0);
    }

    fn core_data(&self) -> (r: &CoreData) {
        &self.core
    }

    fn widget_name(&self) -> (r: &'static str) {
        "MenuButton"
    }

    fn key_nav(&self) -> (r: bool) {
        true
    }

    fn cursor_icon(&self) -> (r: CursorIcon) {
        CursorIcon::Default
    }

    fn set_disabled(&mut self, disabled: bool) -> (r: TkAction) {
        self.core.disabled = disabled;
        TkAction::Redraw
    }

    fn len(&self) -> (r: usize) {
        1
    }

    fn get(&self, index: usize) -> (r: Option<CoreData>) {
        if index == 0 {
            Some(*self.popup.core_data())
        } else {
            None
        }
    }

    fn find(&self, id: WidgetId) -> (r: Option<CoreData>) {
        find_below(&self.core, &self.popup, id)
    }

    fn walk<V: Visitor>(&self, visitor: &mut V) {
        visitor.visit(&self.core);
        self.popup.walk(visitor);
        assert(final(visitor).seen() =~= old(visitor).seen() + Self::nodes(self.model()));
    }

    fn configure(&mut self, mgr: &mut Manager, first: WidgetId) -> (next: WidgetId) {
        proof {
            W::lemma_configured(self.popup.model(), mgr@, WidgetId((first.0 + 1) as u32));
            W::lemma_tree(W::configured(self.popup.model(), mgr@, WidgetId((first.0 + 1) as u32)).0);
        }
        self.core.id = first;
        let next = self.popup.configure(mgr, first.next());
        self.core.last = self.popup.core_data().last;
        next
    }
}

impl<W: Layout> Layout for MenuButton<W> {
    /// No child lies within the button's rectangle: the popup has a window
    /// of its own.
    open spec fn spatial(m: MenuButtonModel<W::Model>) -> (usize, usize) {
        (0usize, usize::MAX)
    }

    /// The rules of a button with the label. The popup takes no space in
    /// the window that holds the button.
    open spec fn sized(m: MenuButtonModel<W::Model>, sizes: SizeModel, axis: AxisInfo) -> (
        MenuButtonModel<W::Model>,
        SizeRules,
    ) {
        (m, button_rules(sizes, m.label, axis))
    }

    /// The button takes `rect`; the popup is placed when it opens.
    open spec fn placed(m: MenuButtonModel<W::Model>, rect: Rect, align: AlignHints) -> MenuButtonModel<
        W::Model,
    > {
        MenuButtonModel { core: CoreData { rect, ..m.core }, ..m }
    }

    /// What an open popup finds comes first; otherwise the button itself
    /// within its rectangle.
    open spec fn hit(m: MenuButtonModel<W::Model>, coord: Coord) -> Option<WidgetId> {
        if m.popup_id is Some && W::hit(m.popup, coord) is Some {
            W::hit(m.popup, coord)
        } else if m.core.rect.spec_contains(coord) {
            Some(m.core.id)
        } else {
            None
        }
    }

    /// A button with the label, drawn as pressed while the menu is open.
    open spec fn painted(m: MenuButtonModel<W::Model>, mgr: ManagerState, disabled: bool) -> Seq<DrawCmd> {
        button_painted(
            m.core.rect,
            m.label,
            menu_highlights(mgr.shows(m.core.id, disabled || m.core.disabled), m.popup_id is Some),
        )
    }

    /// The button can always be placed; the popup is sized and placed by
    /// itself.
    open spec fn ready(m: MenuButtonModel<W::Model>) -> bool {
        true
    }

    proof fn lemma_ready(
        m: MenuButtonModel<W::Model>,
        sizes: SizeModel,
        across: AxisInfo,
        down: AxisInfo,
        axis: AxisInfo,
        rect: Rect,
        align: AlignHints,
    ) {
    }

    proof fn lemma_layout(
        m: MenuButtonModel<W::Model>,
        sizes: SizeModel,
        axis: AxisInfo,
        rect: Rect,
        align: AlignHints,
        coord: Coord,
    ) {
        W::lemma_layout(m.popup, sizes, axis, rect, align, coord);
        W::lemma_tree(m.popup);
    }

    fn size_rules<S: SizeHandle>(&mut self, size_handle: &mut S, axis: AxisInfo) -> (r: SizeRules) {
        button_size_rules(size_handle, self.label.as_str(), axis)
    }

    fn set_rect(&mut self, rect: Rect, align: AlignHints) {
        self.core.rect = rect;
    }

    fn spatial_range(&self) -> (r: (usize, usize)) {
        (0, usize::MAX)
    }

    fn find_id(&self, coord: Coord) -> (r: Option<WidgetId>) {
        if self.popup_id.is_some() {
            if let Some(id) = self.popup.find_id(coord) {
                return Some(id);
            }
        }
        if self.core.rect.contains(coord) {
            Some(self.core.id)
        } else {
            None
        }
    }

    fn draw<D: DrawHandle>(&self, draw_handle: &mut D, mgr: &ManagerState, disabled: bool) {
        let mut state = mgr.highlights(self.core.id, disabled || self.core.disabled);
        if self.popup_id.is_some() {
            state.depress = true;
        }
        draw_button(draw_handle, self.core.rect, self.label.as_str(), state);
    }
}

impl<W: SendEvent> Handler for MenuButton<W> {
    type Msg = W::Msg;

    open spec fn activable(m: MenuButtonModel<W::Model>) -> bool {
        false
    }

    /// - Activation opens a closed menu and closes an open one.
    /// - A press that starts on the button or in its popup asks for the
    ///   grab; if the grab is granted, the press shows where it started and
    ///   the button notes whether the menu was closed. A press that starts
    ///   elsewhere closes the menu and is handed back.
    /// - A grabbed press that moves onto the button opens the menu.
    /// - A press that ends on the button leaves the menu open if this press
    ///   was the one to open it, and closes it otherwise. A press that ends
    ///   over a widget of the open popup activates that widget, closes the
    ///   menu and passes on what the widget answered. A press that ends
    ///   anywhere else closes the menu.
    /// - Any other event is handed back as it is.
    open spec fn handled(m: MenuButtonModel<W::Model>, mgr: ManagerModel, event: Event) -> Sent<
        MenuButtonModel<W::Model>,
        W::Msg,
    > {
        match event {
            Event::Activate => {
                let next = if m.popup_id is None {
                    Self::opened(m, mgr)
                } else {
                    Self::closed(m, mgr)
                };
                Sent { widget: next.0, mgr: next.1, response: Response::Nothing }
            },
            Event::PressStart { source, start_id, coord } => {
                if m.core.spec_covers(start_id) {
                    let asked = mgr.request_grab(m.core.id, source, coord, GrabMode::Grab, None);
                    if source.spec_is_primary() && asked.1 {
                        Sent {
                            widget: MenuButtonModel { opening: m.popup_id is None, ..m },
                            mgr: asked.0.set_grab_depress(source, Some(start_id)),
                            response: Response::Nothing,
                        }
                    } else {
                        Sent { widget: m, mgr, response: Response::Nothing }
                    }
                } else {
                    let next = Self::closed(m, mgr);
                    Sent { widget: next.0, mgr: next.1, response: Response::Unhandled(event) }
                }
            },
            Event::PressMove { source, cur_id, coord, delta } => {
                if cur_id == Some(m.core.id) {
                    let next = Self::opened(m, mgr);
                    Sent {
                        widget: next.0,
                        mgr: next.1.set_grab_depress(source, cur_id),
                        response: Response::Nothing,
                    }
                } else {
                    Sent { widget: m, mgr, response: Response::Nothing }
                }
            },
            Event::PressEnd { source, end_id, coord } => {
                if m.core.rect.spec_contains(coord) {
                    let next = if end_id == Some(m.core.id) && m.opening {
                        Self::opened(m, mgr)
                    } else {
                        Self::closed(m, mgr)
                    };
                    Sent { widget: next.0, mgr: next.1, response: Response::Nothing }
                } else if m.popup_id is Some && W::own(m.popup).rect.spec_contains(coord) && end_id is Some {
                    let s = W::sent(m.popup, mgr, end_id->0, Event::Activate);
                    let next = Self::closed(MenuButtonModel { popup: s.widget, ..m }, s.mgr);
                    Sent { widget: next.0, mgr: next.1, response: s.response }
                } else {
                    let next = Self::closed(m, mgr);
                    Sent { widget: next.0, mgr: next.1, response: Response::Nothing }
                }
            },
            _ => Sent { widget: m, mgr, response: Response::Unhandled(event) },
        }
    }

    proof fn lemma_handled(m: MenuButtonModel<W::Model>, mgr: ManagerModel, event: Event) {
        lemma_menu_button_steps::<W>(m, mgr);
        match event {
            Event::PressStart { source, start_id, coord } => {
                lemma_request_grab(mgr, m.core.id, source, coord, GrabMode::Grab, None);
                lemma_set_grab_depress(
                    mgr.request_grab(m.core.id, source, coord, GrabMode::Grab, None).0,
                    source,
                    Some(start_id),
                );
            },
            Event::PressMove { source, cur_id, coord, delta } => {
                lemma_set_grab_depress(Self::opened(m, mgr).1, source, cur_id);
            },
            Event::PressEnd { source, end_id, coord } => {
                if end_id is Some {
                    let s = W::sent(m.popup, mgr, end_id->0, Event::Activate);
                    W::lemma_sent(m.popup, mgr, end_id->0, Event::Activate);
                    lemma_same_nodes::<W>(s.widget, m.popup);
                    lemma_menu_button_steps::<W>(MenuButtonModel { popup: s.widget, ..m }, s.mgr);
                }
            },
            _ => {},
        }
    }

    fn activation_via_press(&self) -> (r: bool) {
        false
    }

    fn handle(&mut self, mgr: &mut Manager, event: Event) -> (r: Response<W::Msg>) {
        match event {
            Event::Activate => {
                if self.popup_id.is_none() {
                    self.open_menu(mgr);
                } else {
                    self.close_menu(mgr);
                }
                Response::Nothing
            },
            Event::PressStart { source, start_id, coord } => {
                if self.core.covers(start_id) {
                    if source.is_primary() && mgr.request_grab(self.core.id, source, coord, GrabMode::Grab, None) {
                        mgr.set_grab_depress(source, Some(start_id));
                        self.opening = self.popup_id.is_none();
                    }
                    Response::Nothing
                } else {
                    self.close_menu(mgr);
                    Response::Unhandled(event)
                }
            },
            Event::PressMove { source, cur_id, coord, delta } => {
                if same_target(cur_id, Some(self.core.id)) {
                    self.open_menu(mgr);
                    mgr.set_grab_depress(source, cur_id);
                }
                Response::Nothing
            },
            Event::PressEnd { source, end_id, coord } => {
                if self.core.rect.contains(coord) {
                    if same_target(end_id, Some(self.core.id)) && self.opening {
                        self.open_menu(mgr);
                    } else {
                        self.close_menu(mgr);
                    }
                    Response::Nothing
                } else {
                    let over = match end_id {
                        Some(id) => if self.popup_id.is_some() && self.popup.core_data().rect.contains(coord) {
                            Some(id)
                        } else {
                            None
                        },
                        None => None,
                    };
                    match over {
                        Some(id) => {
                            proof {
                                W::lemma_sent(self.popup.model(), mgr@, id, Event::Activate);
                            }
                            let r = self.popup.send(mgr, id, Event::Activate);
                            self.close_menu(mgr);
                            r
                        },
                        None => {
                            self.close_menu(mgr);
                            Response::Nothing
                        },
                    }
                }
            },
            _ => Response::Unhandled(event),
        }
    }
}

/// Opening and closing the menu change neither the tree nor the
/// well-formedness of the manager.
pub proof fn lemma_menu_button_steps<W: WidgetCore>(m: MenuButtonModel<W::Model>, mgr: ManagerModel)
    requires
        mgr.wf(),
    ensures
        MenuButton::<W>::opened(m, mgr).1.wf(),
        MenuButton::<W>::closed(m, mgr).1.wf(),
        MenuButton::<W>::opened(m, mgr).0.popup == m.popup,
        MenuButton::<W>::opened(m, mgr).0.core == m.core,
        MenuButton::<W>::closed(m, mgr).0.popup == m.popup,
        MenuButton::<W>::closed(m, mgr).0.core == m.core,
        MenuButton::<W>::closed(m, mgr).0.popup_id is None,
{
    lemma_add_popup(mgr, Popup { id: W::own(m.popup).id, parent: m.core.id, direction: Direction::Down });
    if let Some(window) = m.popup_id {
        lemma_close_window(mgr, window);
    }
}

impl<W: SendEvent> SendEvent for MenuButton<W> {
    /// A disabled button hands the event back. An event for the popup or
    /// something below it goes there; what comes back is passed on as it is,
    /// and a message closes the menu. Any other event is the button's own.
    open spec fn sent(m: MenuButtonModel<W::Model>, mgr: ManagerModel, id: WidgetId, event: Event) -> Sent<
        MenuButtonModel<W::Model>,
        W::Msg,
    > {
        if m.core.disabled {
            Sent { widget: m, mgr, response: Response::Unhandled(event) }
        } else if W::own(m.popup).spec_covers(id) {
            let s = W::sent(m.popup, mgr, id, event);
            let passed = MenuButtonModel { popup: s.widget, ..m };
            if s.response is Msg {
                let next = Self::closed(passed, s.mgr);
                Sent { widget: next.0, mgr: next.1, response: s.response }
            } else {
                Sent { widget: passed, mgr: s.mgr, response: s.response }
            }
        } else {
            generic::<MenuButton<W>>(m, mgr, event)
        }
    }

    proof fn lemma_sent(m: MenuButtonModel<W::Model>, mgr: ManagerModel, id: WidgetId, event: Event) {
        let s = W::sent(m.popup, mgr, id, event);
        W::lemma_sent(m.popup, mgr, id, event);
        lemma_same_nodes::<W>(s.widget, m.popup);
        lemma_menu_button_steps::<W>(MenuButtonModel { popup: s.widget, ..m }, s.mgr);
        lemma_generic::<MenuButton<W>>(m, mgr, event);
    }

    fn send(&mut self, mgr: &mut Manager, id: WidgetId, event: Event) -> (r: Response<W::Msg>) {
        if self.core.disabled {
            return Response::Unhandled(event);
        }
        if self.popup.core_data().covers(id) {
            proof {
                W::lemma_sent(self.popup.model(), mgr@, id, event);
            }
            let r = self.popup.send(mgr, id, event);
            if r.is_msg() {
                self.close_menu(mgr);
            }
            r
        } else {
            Manager::handle_generic(self, mgr, event)
        }
    }
}

/// An entry of a menu bar: a button that opens a column of widgets.
#[derive(Clone, Debug)]
pub struct SubMenu<W> {
    core: CoreData,
    label: String,
    list: Column<W>,
    popup_id: Option<WindowId>,
}

/// A [`SubMenu`] as a mathematical value; `I` is the model of the widgets
/// in the menu.
pub struct SubMenuModel<I> {
    pub core: CoreData,
    pub label: Seq<char>,
    pub list: ListModel<I>,
    /// The window of the menu while it is open.
    pub popup_id: Option<WindowId>,
}

impl<W: WidgetCore> SubMenu<W> {
    /// A sub-menu with the text `label` that holds `list`, closed and not
    /// yet configured.
    pub fn new(label: String, list: Vec<W>) -> (r: SubMenu<W>)
        ensures
            r.model() == (SubMenuModel {
                core: CoreData::spec_unset(),
                label: label@,
                list: ListModel {
                    core: CoreData::spec_unset(),
                    direction: Direction::Down,
                    items: Seq::new(list@.len(), |i: int| list@[i].model()),
                    rules: Seq::empty(),
                },
                popup_id: None,
            }),
    {
        SubMenu { core: CoreData::unset(), label, list: List::new(list), popup_id: None }
    }

    /// The sub-menu with its menu open: a closed menu is opened below the
    /// entry; an open one stays as it is.
    pub open spec fn opened(m: SubMenuModel<W::Model>, mgr: ManagerModel) -> (
        SubMenuModel<W::Model>,
        ManagerModel,
    ) {
        if m.popup_id is None {
            let added = mgr.add_popup(Popup { id: m.list.core.id, parent: m.core.id, direction: Direction::Down });
            (SubMenuModel { popup_id: added.1, ..m }, added.0)
        } else {
            (m, mgr)
        }
    }

    /// The sub-menu with its menu closed.
    pub open spec fn closed(m: SubMenuModel<W::Model>, mgr: ManagerModel) -> (
        SubMenuModel<W::Model>,
        ManagerModel,
    ) {
        match m.popup_id {
            Some(window) => (SubMenuModel { popup_id: None, ..m }, mgr.close_window(window)),
            None => (m, mgr),
        }
    }

    /// The widgets in the menu.
    pub fn list(&self) -> (r: &Column<W>)
        ensures
            r.model() == self.model().list,
    {
        &self.list
    }

    /// Whether the menu is open.
    pub fn menu_is_open(&self) -> (r: bool)
        ensures
            r == self.model().popup_id is Some,
    {
        self.popup_id.is_some()
    }

    fn open_menu(&mut self, mgr: &mut Manager)
        requires
            old(mgr)@.wf(),
        ensures
            (final(self).model(), final(mgr)@) == Self::opened(old(self).model(), old(mgr)@),
            final(mgr)@.wf(),
    {
        if self.popup_id.is_none() {
            let id = mgr.add_popup(
                Popup { id: self.list.core_data().id, parent: self.core.id, direction: Direction::Down },
            );
            self.popup_id = id;
        }
    }

    fn close_menu(&mut self, mgr: &mut Manager)
        requires
            old(mgr)@.wf(),
        ensures
            (final(self).model(), final(mgr)@) == Self::closed(old(self).model(), old(mgr)@),
            final(mgr)@.wf(),
    {
        if let Some(id) = self.popup_id {
            mgr.close_window(id);
            self.popup_id = None;
        }
    }
}

impl<W: Layout> SubMenu<W> {
    /// Places the menu: the toolkit calls this when it has opened the
    /// menu's window.
    pub fn set_popup_rect(&mut self, rect: Rect, align: AlignHints)
        requires
            List::<W>::ready(old(self).model().list),
        ensures
            final(self).model() == (SubMenuModel {
                list: List::<W>::placed(old(self).model().list, rect, align),
                ..old(self).model()
            }),
    {
        self.list.set_rect(rect, align);
    }

    /// The rules of the menu along `axis`.
    pub fn popup_size_rules<S: SizeHandle>(&mut self, size_handle: &mut S, axis: AxisInfo) -> (r: SizeRules)
        ensures
            final(self).model() == (SubMenuModel {
                list: List::<W>::sized(old(self).model().list, old(size_handle).answers(), axis).0,
                ..old(self).model()
            }),
            r == List::<W>::sized(old(self).model().list, old(size_handle).answers(), axis).1,
            final(size_handle).answers() == old(size_handle).answers(),
    {
        self.list.size_rules(size_handle, axis)
    }
}

impl<W: WidgetCore> HasText for SubMenu<W> {
    closed spec fn text(&self) -> Seq<char> {
        self.label@
    }

    fn get_text(&self) -> (r: &str)
        ensures
            r@ == self.model().label,
    {
        self.label.as_str()
    }

    fn set_cow_string(&mut self, text: String) -> (r: TkAction)
        ensures
            final(self).model() == (SubMenuModel { label: text@, ..old(self).model() }),
    {
        self.label = text;
        TkAction::Redraw
    }
}

impl<W: WidgetCore> WidgetCore for SubMenu<W> {
    type Model = SubMenuModel<W::Model>;

    closed spec fn model(&self) -> SubMenuModel<W::Model> {
        SubMenuModel { core: self.core, label: self.label@, list: self.list.model(), popup_id: self.popup_id }
    }

    open spec fn own(m: SubMenuModel<W::Model>) -> CoreData {
        m.core
    }

    open spec fn children(m: SubMenuModel<W::Model>) -> Seq<CoreData> {
        seq![m.list.core]
    }

    open spec fn nodes(m: SubMenuModel<W::Model>) -> Seq<CoreData> {
        seq![m.core] + List::<W>::nodes(m.list)
    }

    /// The menu is valid and has the identifiers that follow the entry's
    /// own.
    open spec fn valid(m: SubMenuModel<W::Model>) -> bool {
        &&& m.core.id.0 >= 1
        &&& List::<W>::valid(m.list)
        &&& m.list.core.id.0 == m.core.id.0 + 1
        &&& m.core.last == m.list.core.last
    }

    open spec fn configured(m: SubMenuModel<W::Model>, mgr: ManagerModel, first: WidgetId) -> (
        SubMenuModel<W::Model>,
        ManagerModel,
    ) {
        let list = List::<W>::configured(m.list, mgr, WidgetId((first.0 + 1) as u32));
        (SubMenuModel { core: CoreData { id: first, last: list.0.core.last, ..m.core }, list: list.0, ..m }, list.1)
    }

    open spec fn name() -> Seq<char> {
        "SubMenu"@
    }

    open spec fn navigable(m: SubMenuModel<W::Model>) -> bool {
        false
    }

    open spec fn cursor(m: SubMenuModel<W::Model>) -> CursorIcon {
        CursorIcon::Default
    }

    open spec fn with_disabled(m: SubMenuModel<W::Model>, disabled: bool) -> SubMenuModel<W::Model> {
        SubMenuModel { core: CoreData { disabled, ..m.core }, ..m }
    }

    proof fn lemma_with_disabled(m: SubMenuModel<W::Model>, disabled: bool) {
        assert(Self::nodes(Self::with_disabled(m, disabled)) =~= Self::nodes(m).update(
            0,
            CoreData { disabled, ..m.core },
        ));
    }

    proof fn lemma_count(m: SubMenuModel<W::Model>) {
    }

    proof fn lemma_tree(m: SubMenuModel<W::Model>) {
        lemma_one_child::<List<W>>(m.core, m.list);
    }

    proof fn lemma_configured(m: SubMenuModel<W::Model>, mgr: ManagerModel, first: WidgetId) {
        let next = WidgetId((first.0 + 1) as u32);
        List::<W>::lemma_configured(m.list, mgr, next);
        List::<W>::lemma_tree(List::<W>::configured(m.list, mgr, next).0);
    }

    fn core_data(&self) -> (r: &CoreData) {
        &self.core
    }

    fn widget_name(&self) -> (r: &'static str) {
        "SubMenu"
    }

    fn key_nav(&self) -> (r: bool) {
        false
    }

    fn cursor_icon(&self) -> (r: CursorIcon) {
        CursorIcon::Default
    }

    fn set_disabled(&mut self, disabled: bool) -> (r: TkAction) {
        self.core.disabled = disabled;
        TkAction::Redraw
    }

    fn len(&self) -> (r: usize) {
        1
    }

    fn get(&self, index: usize) -> (r: Option<CoreData>) {
        if index == 0 {
            Some(*self.list.core_data())
        } else {
            None
        }
    }

    fn find(&self, id: WidgetId) -> (r: Option<CoreData>) {
        find_below(&self.core, &self.list, id)
    }

    fn walk<V: Visitor>(&self, visitor: &mut V) {
        visitor.visit(&self.core);
        self.list.walk(visitor);
        assert(final(visitor).seen() =~= old(visitor).seen() + Self::nodes(self.model()));
    }

    fn configure(&mut self, mgr: &mut Manager, first: WidgetId) -> (next: WidgetId) {
        proof {
            List::<W>::lemma_configured(self.list.model(), mgr@, WidgetId((first.0 + 1) as u32));
            List::<W>::lemma_tree(
                List::<W>::configured(self.list.model(), mgr@, WidgetId((first.0 + 1) as u32)).0,
            );
        }
        self.core.id = first;
        let next = self.list.configure(mgr, first.next());
        self.core.last = self.list.core_data().last;
        next
    }
}

impl<W: Layout> Layout for SubMenu<W> {
    /// No child lies within the entry's rectangle: the menu has a window of
    /// its own.
    open spec fn spatial(m: SubMenuModel<W::Model>) -> (usize, usize) {
        (0usize, usize::MAX)
    }

    /// The rules of a button with the label. The menu takes no space in the
    /// window that holds the entry.
    open spec fn sized(m: SubMenuModel<W::Model>, sizes: SizeModel, axis: AxisInfo) -> (
        SubMenuModel<W::Model>,
        SizeRules,
    ) {
        (m, button_rules(sizes, m.label, axis))
    }

    /// The entry takes `rect`; the menu is placed when it opens.
    open spec fn placed(m: SubMenuModel<W::Model>, rect: Rect, align: AlignHints) -> SubMenuModel<W::Model> {
        SubMenuModel { core: CoreData { rect, ..m.core }, ..m }
    }

    /// What an open menu finds comes first; otherwise the entry itself
    /// within its rectangle.
    open spec fn hit(m: SubMenuModel<W::Model>, coord: Coord) -> Option<WidgetId> {
        if m.popup_id is Some && List::<W>::hit(m.list, coord) is Some {
            List::<W>::hit(m.list, coord)
        } else if m.core.rect.spec_contains(coord) {
            Some(m.core.id)
        } else {
            None
        }
    }

    /// A button with the label, drawn as pressed while the menu is open.
    open spec fn painted(m: SubMenuModel<W::Model>, mgr: ManagerState, disabled: bool) -> Seq<DrawCmd> {
        button_painted(
            m.core.rect,
            m.label,
            menu_highlights(mgr.shows(m.core.id, disabled || m.core.disabled), m.popup_id is Some),
        )
    }

    /// The entry can always be placed; the menu is sized and placed by
    /// itself.
    open spec fn ready(m: SubMenuModel<W::Model>) -> bool {
        true
    }

    proof fn lemma_ready(
        m: SubMenuModel<W::Model>,
        sizes: SizeModel,
        across: AxisInfo,
        down: AxisInfo,
        axis: AxisInfo,
        rect: Rect,
        align: AlignHints,
    ) {
    }

    proof fn lemma_layout(
        m: SubMenuModel<W::Model>,
        sizes: SizeModel,
        axis: AxisInfo,
        rect: Rect,
        align: AlignHints,
        coord: Coord,
    ) {
        List::<W>::lemma_layout(m.list, sizes, axis, rect, align, coord);
        List::<W>::lemma_tree(m.list);
    }

    fn size_rules<S: SizeHandle>(&mut self, size_handle: &mut S, axis: AxisInfo) -> (r: SizeRules) {
        button_size_rules(size_handle, self.label.as_str(), axis)
    }

    fn set_rect(&mut self, rect: Rect, align: AlignHints) {
        self.core.rect = rect;
    }

    fn spatial_range(&self) -> (r: (usize, usize)) {
        (0, usize::MAX)
    }

    fn find_id(&self, coord: Coord) -> (r: Option<WidgetId>) {
        if self.popup_id.is_some() {
            if let Some(id) = self.list.find_id(coord) {
                return Some(id);
            }
        }
        if self.core.rect.contains(coord) {
            Some(self.core.id)
        } else {
            None
        }
    }

    fn draw<D: DrawHandle>(&self, draw_handle: &mut D, mgr: &ManagerState, disabled: bool) {
        let mut state = mgr.highlights(self.core.id, disabled || self.core.disabled);
        if self.popup_id.is_some() {
            state.depress = true;
        }
        draw_button(draw_handle, self.core.rect, self.label.as_str(), state);
    }
}

/// Opening and closing a sub-menu change only whether its menu is open, and
/// keep the manager well-formed.
pub proof fn lemma_sub_menu_steps<W: WidgetCore>(m: SubMenuModel<W::Model>, mgr: ManagerModel)
    requires
        mgr.wf(),
    ensures
        SubMenu::<W>::opened(m, mgr).1.wf(),
        SubMenu::<W>::closed(m, mgr).1.wf(),
        SubMenu::<W>::opened(m, mgr).0 == (SubMenuModel { popup_id: SubMenu::<W>::opened(m, mgr).0.popup_id, ..m }),
        SubMenu::<W>::closed(m, mgr).0 == (SubMenuModel { popup_id: None, ..m }),
{
    lemma_add_popup(mgr, Popup { id: m.list.core.id, parent: m.core.id, direction: Direction::Down });
    if let Some(window) = m.popup_id {
        lemma_close_window(mgr, window);
    }
}

impl<W: SendEvent> Handler for SubMenu<W> {
    type Msg = W::Msg;

    open spec fn activable(m: SubMenuModel<W::Model>) -> bool {
        false
    }

    /// Activation opens a closed menu and closes an open one. The request
    /// to open the popup opens the menu if it is closed. Any other event is
    /// handed back as it is.
    open spec fn handled(m: SubMenuModel<W::Model>, mgr: ManagerModel, event: Event) -> Sent<
        SubMenuModel<W::Model>,
        W::Msg,
    > {
        if event is Activate {
            let next = if m.popup_id is None {
                Self::opened(m, mgr)
            } else {
                Self::closed(m, mgr)
            };
            Sent { widget: next.0, mgr: next.1, response: Response::Nothing }
        } else if event is OpenPopup {
            let next = Self::opened(m, mgr);
            Sent { widget: next.0, mgr: next.1, response: Response::Nothing }
        } else {
            Sent { widget: m, mgr, response: Response::Unhandled(event) }
        }
    }

    proof fn lemma_handled(m: SubMenuModel<W::Model>, mgr: ManagerModel, event: Event) {
        lemma_sub_menu_steps::<W>(m, mgr);
    }

    fn activation_via_press(&self) -> (r: bool) {
        false
    }

    fn handle(&mut self, mgr: &mut Manager, event: Event) -> (r: Response<W::Msg>) {
        match event {
            Event::Activate => {
                if self.popup_id.is_none() {
                    self.open_menu(mgr);
                } else {
                    self.close_menu(mgr);
                }
                Response::Nothing
            },
            Event::OpenPopup => {
                self.open_menu(mgr);
                Response::Nothing
            },
            _ => Response::Unhandled(event),
        }
    }
}

impl<W: SendEvent> SendEvent for SubMenu<W> {
    /// A disabled sub-menu hands the event back. An event for the menu or
    /// something in it goes there; what comes back is passed on as it is,
    /// and a message closes the menu. Any other event is the entry's own.
    open spec fn sent(m: SubMenuModel<W::Model>, mgr: ManagerModel, id: WidgetId, event: Event) -> Sent<
        SubMenuModel<W::Model>,
        W::Msg,
    > {
        if m.core.disabled {
            Sent { widget: m, mgr, response: Response::Unhandled(event) }
        } else if m.list.core.spec_covers(id) {
            let s = List::<W>::sent(m.list, mgr, id, event);
            let passed = SubMenuModel { list: s.widget, ..m };
            if s.response is Msg {
                let next = Self::closed(passed, s.mgr);
                Sent { widget: next.0, mgr: next.1, response: s.response }
            } else {
                Sent { widget: passed, mgr: s.mgr, response: s.response }
            }
        } else {
            generic::<SubMenu<W>>(m, mgr, event)
        }
    }

    proof fn lemma_sent(m: SubMenuModel<W::Model>, mgr: ManagerModel, id: WidgetId, event: Event) {
        let s = List::<W>::sent(m.list, mgr, id, event);
        List::<W>::lemma_sent(m.list, mgr, id, event);
        lemma_same_nodes::<List<W>>(s.widget, m.list);
        lemma_sub_menu_steps::<W>(SubMenuModel { list: s.widget, ..m }, s.mgr);
        lemma_generic::<SubMenu<W>>(m, mgr, event);
    }

    fn send(&mut self, mgr: &mut Manager, id: WidgetId, event: Event) -> (r: Response<W::Msg>) {
        if self.core.disabled {
            return Response::Unhandled(event);
        }
        if self.list.core_data().covers(id) {
            proof {
                List::<W>::lemma_sent(self.list.model(), mgr@, id, event);
            }
            let r = self.list.send(mgr, id, event);
            if r.is_msg() {
                self.close_menu(mgr);
            }
            r
        } else {
            Manager::handle_generic(self, mgr, event)
        }
    }
}

/// `items` with every menu closed but that of the item at `keep`, and the
/// manager after that. An index that names no item keeps nothing open.
pub open spec fn closed_all<W: WidgetCore>(items: Seq<SubMenuModel<W::Model>>, keep: int, mgr: ManagerModel) -> (
    Seq<SubMenuModel<W::Model>>,
    ManagerModel,
)
    decreases items.len(),
{
    if items.len() == 0 {
        (Seq::empty(), mgr)
    } else {
        let init = closed_all::<W>(items.drop_last(), keep, mgr);
        let last = if items.len() - 1 == keep {
            (items.last(), init.1)
        } else {
            SubMenu::<W>::closed(items.last(), init.1)
        };
        (init.0.push(last.0), last.1)
    }
}

/// At most one of `items` has its menu open.
pub open spec fn single_open<I>(items: Seq<SubMenuModel<I>>) -> bool {
    forall|i: int, j: int|
        0 <= i < items.len() && 0 <= j < items.len() && (#[trigger] items[i]).popup_id is Some && (
        #[trigger] items[j]).popup_id is Some ==> i == j
}

/// Whether `id` names one of `items` itself.
pub open spec fn is_header<I>(items: Seq<SubMenuModel<I>>, id: WidgetId) -> bool {
    exists|i: int| 0 <= i < items.len() && (#[trigger] items[i]).core.id == id
}

/// The place of the item that `id` names.
pub open spec fn header_of<I>(items: Seq<SubMenuModel<I>>, id: WidgetId) -> int {
    choose|i: int| 0 <= i < items.len() && (#[trigger] items[i]).core.id == id
}

/// Whether `a` and `b` are the same entries but for which menus are open.
pub open spec fn same_entries<I>(a: Seq<SubMenuModel<I>>, b: Seq<SubMenuModel<I>>) -> bool {
    &&& a.len() == b.len()
    &&& forall|i: int| 0 <= i < a.len() ==> #[trigger] a[i] == (SubMenuModel { popup_id: a[i].popup_id, ..b[i] })
}

/// A [`MenuBar`] as a mathematical value; `I` is the model of the widgets in
/// the menus.
pub struct MenuBarModel<I> {
    pub core: CoreData,
    pub bar: ListModel<SubMenuModel<I>>,
    /// The press that is under way opened a menu.
    pub opening: bool,
}

/// The bar holds a valid list of sub-menus with the identifiers that follow
/// the bar's own.
pub open spec fn bar_shaped<W: WidgetCore>(m: MenuBarModel<W::Model>) -> bool {
    &&& m.core.id.0 >= 1
    &&& list_valid::<SubMenu<W>>(m.bar)
    &&& m.bar.core.id.0 == m.core.id.0 + 1
    &&& m.core.last == m.bar.core.last
}

/// The walk of a menu bar.
pub open spec fn bar_nodes<W: WidgetCore>(m: MenuBarModel<W::Model>) -> Seq<CoreData> {
    seq![m.core] + (seq![m.bar.core] + flat::<SubMenu<W>>(m.bar.items))
}

/// The bar with every menu closed but that of the sub-menu at `keep`.
pub open spec fn closed_bar<W: WidgetCore>(m: MenuBarModel<W::Model>, keep: int, mgr: ManagerModel) -> (
    MenuBarModel<W::Model>,
    ManagerModel,
) {
    let c = closed_all::<W>(m.bar.items, keep, mgr);
    (MenuBarModel { bar: ListModel { items: c.0, ..m.bar }, ..m }, c.1)
}

/// Closing all menus but one leaves the entries as they are but for their
/// menus, of which only the one kept can still be open, and keeps the
/// manager well-formed.
pub proof fn lemma_closed_all<W: WidgetCore>(items: Seq<SubMenuModel<W::Model>>, keep: int, mgr: ManagerModel)
    requires
        mgr.wf(),
    ensures
        closed_all::<W>(items, keep, mgr).1.wf(),
        same_entries(closed_all::<W>(items, keep, mgr).0, items),
        forall|i: int|
            0 <= i < items.len() ==> (#[trigger] closed_all::<W>(items, keep, mgr).0[i]).popup_id == if i == keep {
                items[i].popup_id
            } else {
                None
            },
        single_open(closed_all::<W>(items, keep, mgr).0),
    decreases items.len(),
{
    if items.len() > 0 {
        let init = closed_all::<W>(items.drop_last(), keep, mgr);
        lemma_closed_all::<W>(items.drop_last(), keep, mgr);
        lemma_sub_menu_steps::<W>(items.last(), init.1);
        let out = closed_all::<W>(items, keep, mgr).0;
        assert forall|i: int| 0 <= i < items.len() implies #[trigger] out[i] == (SubMenuModel {
            popup_id: out[i].popup_id,
            ..items[i]
        }) && out[i].popup_id == if i == keep {
            items[i].popup_id
        } else {
            None
        } by {
            if i < items.len() - 1 {
                assert(out[i] == init.0[i]);
                assert(items.drop_last()[i] == items[i]);
            }
        }
    }
}

/// Closing the menus of the first `k + 1` entries closes those of the first
/// `k` and then that of the next one.
pub proof fn lemma_closed_step<W: WidgetCore>(
    items: Seq<SubMenuModel<W::Model>>,
    keep: int,
    mgr: ManagerModel,
    k: int,
)
    requires
        0 <= k < items.len(),
    ensures
        ({
            let init = closed_all::<W>(items.take(k), keep, mgr);
            let one = if k == keep {
                (items[k], init.1)
            } else {
                SubMenu::<W>::closed(items[k], init.1)
            };
            closed_all::<W>(items.take(k + 1), keep, mgr) == (init.0.push(one.0), one.1)
        }),
{
    assert(items.take(k + 1).drop_last() =~= items.take(k));
    assert(items.take(k + 1).last() == items[k]);
}

/// A bar stays in shape, with the same walk, when its entries change only
/// in which menus are open.
pub proof fn lemma_bar_alike<W: WidgetCore>(m: MenuBarModel<W::Model>, n: MenuBarModel<W::Model>)
    requires
        bar_shaped::<W>(m),
        n.core == m.core,
        n.bar.core == m.bar.core,
        same_entries(n.bar.items, m.bar.items),
    ensures
        bar_shaped::<W>(n),
        bar_nodes::<W>(n) == bar_nodes::<W>(m),
{
    assert forall|i: int| 0 <= i < m.bar.items.len() implies {
        &&& SubMenu::<W>::valid(#[trigger] n.bar.items[i])
        &&& same_ids(SubMenu::<W>::nodes(n.bar.items[i]), SubMenu::<W>::nodes(m.bar.items[i]))
        &&& SubMenu::<W>::nodes(n.bar.items[i]) == SubMenu::<W>::nodes(m.bar.items[i])
    } by {
        lemma_list_item::<SubMenu<W>>(m.bar, i);
        assert(list_valid::<SubMenu<W>>(m.bar));
        assert(<SubMenu<W> as WidgetCore>::valid(m.bar.items[i]));
        assert(n.bar.items[i] == (SubMenuModel { popup_id: n.bar.items[i].popup_id, ..m.bar.items[i] }));
    }
    lemma_list_alike::<SubMenu<W>>(m.bar, n.bar);
    lemma_flat_equal::<SubMenu<W>>(n.bar.items, m.bar.items);
}

/// In a bar in shape no two entries have the same identifier.
pub proof fn lemma_header_unique<W: WidgetCore>(m: MenuBarModel<W::Model>, id: WidgetId, i: int)
    requires
        bar_shaped::<W>(m),
        0 <= i < m.bar.items.len(),
        m.bar.items[i].core.id == id,
    ensures
        is_header(m.bar.items, id),
        header_of(m.bar.items, id) == i,
{
    let t = header_of(m.bar.items, id);
    lemma_list_item::<SubMenu<W>>(m.bar, t);
    lemma_list_item::<SubMenu<W>>(m.bar, i);
    if t < i {
        lemma_before_grows::<SubMenu<W>>(m.bar.items, t + 1, i);
    } else if t > i {
        lemma_before_grows::<SubMenu<W>>(m.bar.items, i + 1, t);
    }
}

/// A bar of menus. The bar opens the menu that a press lands on, follows
/// the press from one entry to the next, and keeps at most one menu open.
#[derive(Clone, Debug)]
pub struct MenuBar<W> {
    core: CoreData,
    bar: List<SubMenu<W>>,
    opening: bool,
}

impl<W: WidgetCore> MenuBar<W> {
    /// A bar with the given menus that runs to the right, not yet
    /// configured.
    pub fn new(menus: Vec<SubMenu<W>>) -> (r: MenuBar<W>)
        ensures
            r.model() == (MenuBarModel {
                core: CoreData::spec_unset(),
                bar: ListModel {
                    core: CoreData::spec_unset(),
                    direction: Direction::Right,
                    items: Seq::new(menus@.len(), |i: int| menus@[i].model()),
                    rules: Seq::empty(),
                },
                opening: false,
            }),
    {
        MenuBar::new_with_direction(Direction::Right, menus)
    }

    /// A bar with the given menus that runs in `direction`, not yet
    /// configured.
    pub fn new_with_direction(direction: Direction, menus: Vec<SubMenu<W>>) -> (r: MenuBar<W>)
        ensures
            r.model() == (MenuBarModel {
                core: CoreData::spec_unset(),
                bar: ListModel {
                    core: CoreData::spec_unset(),
                    direction,
                    items: Seq::new(menus@.len(), |i: int| menus@[i].model()),
                    rules: Seq::empty(),
                },
                opening: false,
            }),
    {
        MenuBar { core: CoreData::unset(), bar: List::new_with_direction(direction, menus), opening: false }
    }

    /// The sub-menus of the bar.
    pub fn bar(&self) -> (r: &List<SubMenu<W>>)
        ensures
            r.model() == self.model().bar,
    {
        &self.bar
    }

    /// The number of menus that are open.
    pub fn open_count(&self) -> (r: usize)
        requires
            Self::valid(self.model()),
        ensures
            r <= 1,
            (r == 1) == exists|i: int|
                0 <= i < self.model().bar.items.len() && (#[trigger] self.model().bar.items[i]).popup_id is Some,
    {
        let ghost items = self.model().bar.items;
        let n = self.bar.len();
        let mut i: usize = 0;
        while i < n
            invariant
                0 <= i <= n,
                n == items.len(),
                items == self.model().bar.items,
                forall|k: int| 0 <= k < i ==> (#[trigger] items[k]).popup_id is None,
            decreases n - i,
        {
            if self.bar.item(i).menu_is_open() {
                return 1;
            }
            i += 1;
        }
        0
    }

    /// Closes every menu but that of the sub-menu at `keep`.
    fn close_others(&mut self, mgr: &mut Manager, keep: Option<usize>)
        requires
            old(mgr)@.wf(),
        ensures
            (final(self).model(), final(mgr)@) == closed_bar::<W>(
                old(self).model(),
                match keep {
                    Some(k) => k as int,
                    None => -1,
                },
                old(mgr)@,
            ),
            final(mgr)@.wf(),
    {
        let ghost m = self.model();
        let ghost mgr0 = mgr@;
        let ghost kept = match keep {
            Some(k) => k as int,
            None => -1,
        };
        let n = self.bar.len();
        let mut i: usize = 0;
        proof {
            assert(m.bar.items.take(0) =~= Seq::<SubMenuModel<W::Model>>::empty());
            assert(self.model().bar.items =~= closed_all::<W>(m.bar.items.take(0), kept, mgr0).0 + m.bar.items.skip(
                0,
            ));
        }
        while i < n
            invariant
                0 <= i <= n,
                n == m.bar.items.len(),
                mgr0.wf(),
                mgr@.wf(),
                kept == match keep {
                    Some(k) => k as int,
                    None => -1,
                },
                self.core == m.core,
                self.opening == m.opening,
                self.bar.model().core == m.bar.core,
                self.bar.model().direction == m.bar.direction,
                self.bar.model().rules == m.bar.rules,
                mgr@ == closed_all::<W>(m.bar.items.take(i as int), kept, mgr0).1,
                self.bar.model().items == closed_all::<W>(m.bar.items.take(i as int), kept, mgr0).0
                    + m.bar.items.skip(i as int),
            decreases n - i,
        {
            let ghost before_step = self.bar.model().items;
            proof {
                lemma_closed_step::<W>(m.bar.items, kept, mgr0, i as int);
                lemma_closed_all::<W>(m.bar.items.take(i as int), kept, mgr0);
                assert(before_step[i as int] == m.bar.items[i as int]);
            }
            let skip = match keep {
                Some(k) => k == i,
                None => false,
            };
            if !skip {
                let w = self.bar.item_mut(i);
                w.close_menu(mgr);
            }
            proof {
                let more = closed_all::<W>(m.bar.items.take(i as int + 1), kept, mgr0);
                let now = self.bar.model().items;
                assert(now =~= more.0 + m.bar.items.skip(i as int + 1)) by {
                    assert forall|k: int| 0 <= k < m.bar.items.len() implies now[k] == (more.0 + m.bar.items.skip(
                        i as int + 1,
                    ))[k] by {
                        if k != i {
                            assert(now[k] == before_step[k]);
                        }
                    }
                }
            }
            i += 1;
        }
        proof {
            assert(m.bar.items.take(n as int) =~= m.bar.items);
            assert(self.bar.model().items =~= closed_all::<W>(m.bar.items, kept, mgr0).0);
        }
    }

    /// The place of the sub-menu that `id` names itself.
    fn header(&self, id: WidgetId) -> (r: Option<usize>)
        requires
            bar_shaped::<W>(self.model()),
        ensures
            r is Some == is_header(self.model().bar.items, id),
            r matches Some(i) ==> i == header_of(self.model().bar.items, id) && i < self.model().bar.items.len(),
    {
        let ghost items = self.model().bar.items;
        let n = self.bar.len();
        let mut i: usize = 0;
        while i < n
            invariant
                0 <= i <= n,
                n == items.len(),
                items == self.model().bar.items,
                bar_shaped::<W>(self.model()),
                forall|k: int| 0 <= k < i ==> (#[trigger] items[k]).core.id != id,
            decreases n - i,
        {
            if self.bar.item(i).core_data().id.0 == id.0 {
                proof {
                    lemma_header_unique::<W>(self.model(), id, i as int);
                }
                return Some(i);
            }
            i += 1;
        }
        None
    }
}

impl<W: WidgetCore> WidgetCore for MenuBar<W> {
    type Model = MenuBarModel<W::Model>;

    closed spec fn model(&self) -> MenuBarModel<W::Model> {
        MenuBarModel { core: self.core, bar: self.bar.model(), opening: self.opening }
    }

    open spec fn own(m: MenuBarModel<W::Model>) -> CoreData {
        m.core
    }

    open spec fn children(m: MenuBarModel<W::Model>) -> Seq<CoreData> {
        seq![m.bar.core]
    }

    open spec fn nodes(m: MenuBarModel<W::Model>) -> Seq<CoreData> {
        bar_nodes::<W>(m)
    }

    /// The bar is in shape and at most one of its menus is open.
    open spec fn valid(m: MenuBarModel<W::Model>) -> bool {
        bar_shaped::<W>(m) && single_open(m.bar.items)
    }

    /// The sub-menus are configured behind the bar, and all menus are
    /// closed.
    open spec fn configured(m: MenuBarModel<W::Model>, mgr: ManagerModel, first: WidgetId) -> (
        MenuBarModel<W::Model>,
        ManagerModel,
    ) {
        let bar = List::<SubMenu<W>>::configured(m.bar, mgr, WidgetId((first.0 + 1) as u32));
        closed_bar::<W>(
            MenuBarModel { core: CoreData { id: first, last: bar.0.core.last, ..m.core }, bar: bar.0, ..m },
            -1,
            bar.1,
        )
    }

    open spec fn name() -> Seq<char> {
        "MenuBar"@
    }

    open spec fn navigable(m: MenuBarModel<W::Model>) -> bool {
        false
    }

    open spec fn cursor(m: MenuBarModel<W::Model>) -> CursorIcon {
        CursorIcon::Default
    }

    open spec fn with_disabled(m: MenuBarModel<W::Model>, disabled: bool) -> MenuBarModel<W::Model> {
        MenuBarModel { core: CoreData { disabled, ..m.core }, ..m }
    }

    proof fn lemma_with_disabled(m: MenuBarModel<W::Model>, disabled: bool) {
        let n = Self::with_disabled(m, disabled);
        assert(n.bar == m.bar);
        assert(Self::nodes(Self::with_disabled(m, disabled)) =~= Self::nodes(m).update(
            0,
            CoreData { disabled, ..m.core },
        ));
    }

    proof fn lemma_count(m: MenuBarModel<W::Model>) {
    }

    proof fn lemma_tree(m: MenuBarModel<W::Model>) {
        lemma_one_child::<List<SubMenu<W>>>(m.core, m.bar);
    }

    proof fn lemma_configured(m: MenuBarModel<W::Model>, mgr: ManagerModel, first: WidgetId) {
        let next = WidgetId((first.0 + 1) as u32);
        let bar = List::<SubMenu<W>>::configured(m.bar, mgr, next);
        List::<SubMenu<W>>::lemma_configured(m.bar, mgr, next);
        List::<SubMenu<W>>::lemma_tree(bar.0);
        let shaped = MenuBarModel { core: CoreData { id: first, last: bar.0.core.last, ..m.core }, bar: bar.0, ..m };
        lemma_closed_all::<W>(bar.0.items, -1, bar.1);
        lemma_bar_alike::<W>(shaped, closed_bar::<W>(shaped, -1, bar.1).0);
    }

    fn core_data(&self) -> (r: &CoreData) {
        &self.core
    }

    fn widget_name(&self) -> (r: &'static str) {
        "MenuBar"
    }

    fn key_nav(&self) -> (r: bool) {
        false
    }

    fn cursor_icon(&self) -> (r: CursorIcon) {
        CursorIcon::Default
    }

    fn set_disabled(&mut self, disabled: bool) -> (r: TkAction) {
        self.core.disabled = disabled;
        TkAction::Redraw
    }

    fn len(&self) -> (r: usize) {
        1
    }

    fn get(&self, index: usize) -> (r: Option<CoreData>) {
        if index == 0 {
            Some(*self.bar.core_data())
        } else {
            None
        }
    }

    fn find(&self, id: WidgetId) -> (r: Option<CoreData>) {
        find_below(&self.core, &self.bar, id)
    }

    fn walk<V: Visitor>(&self, visitor: &mut V) {
        visitor.visit(&self.core);
        self.bar.walk(visitor);
        assert(final(visitor).seen() =~= old(visitor).seen() + Self::nodes(self.model()));
    }

    fn configure(&mut self, mgr: &mut Manager, first: WidgetId) -> (next: WidgetId) {
        proof {
            let at = WidgetId((first.0 + 1) as u32);
            List::<SubMenu<W>>::lemma_configured(self.bar.model(), mgr@, at);
            List::<SubMenu<W>>::lemma_tree(List::<SubMenu<W>>::configured(self.bar.model(), mgr@, at).0);
        }
        self.core.id = first;
        let next = self.bar.configure(mgr, first.next());
        self.core.last = self.bar.core_data().last;
        self.close_others(mgr, None);
        next
    }
}

impl<W: Layout> MenuBar<W> {
    /// Places the menu of the sub-menu at `index`: the toolkit calls this
    /// when it has opened the menu's window.
    pub fn set_popup_rect(&mut self, index: usize, rect: Rect, align: AlignHints)
        requires
            index < old(self).model().bar.items.len(),
            List::<W>::ready(old(self).model().bar.items[index as int].list),
        ensures
            final(self).model().core == old(self).model().core,
            final(self).model().opening == old(self).model().opening,
            final(self).model().bar.core == old(self).model().bar.core,
            final(self).model().bar.items =~= old(self).model().bar.items.update(
                index as int,
                SubMenuModel {
                    list: List::<W>::placed(old(self).model().bar.items[index as int].list, rect, align),
                    ..old(self).model().bar.items[index as int]
                },
            ),
    {
        let w = self.bar.item_mut(index);
        w.set_popup_rect(rect, align);
    }
}

impl<W: Layout> MenuBar<W> {
    /// The rules of the menu of the sub-menu at `index` along `axis`.
    pub fn popup_size_rules<S: SizeHandle>(&mut self, index: usize, size_handle: &mut S, axis: AxisInfo) -> (r:
        SizeRules)
        requires
            index < old(self).model().bar.items.len(),
        ensures
            final(self).model().core == old(self).model().core,
            final(self).model().opening == old(self).model().opening,
            final(self).model().bar.core == old(self).model().bar.core,
            final(self).model().bar.items =~= old(self).model().bar.items.update(
                index as int,
                SubMenuModel {
                    list: List::<W>::sized(
                        old(self).model().bar.items[index as int].list,
                        old(size_handle).answers(),
                        axis,
                    ).0,
                    ..old(self).model().bar.items[index as int]
                },
            ),
            r == List::<W>::sized(
                old(self).model().bar.items[index as int].list,
                old(size_handle).answers(),
                axis,
            ).1,
            final(size_handle).answers() == old(size_handle).answers(),
    {
        let w = self.bar.item_mut(index);
        w.popup_size_rules(size_handle, axis)
    }
}

impl<W: Layout> Layout for MenuBar<W> {
    /// The one child lies within the rectangle.
    open spec fn spatial(m: MenuBarModel<W::Model>) -> (usize, usize) {
        (0usize, 0usize)
    }

    /// The rules of the row of entries.
    open spec fn sized(m: MenuBarModel<W::Model>, sizes: SizeModel, axis: AxisInfo) -> (
        MenuBarModel<W::Model>,
        SizeRules,
    ) {
        let bar = List::<SubMenu<W>>::sized(m.bar, sizes, axis);
        (MenuBarModel { bar: bar.0, ..m }, bar.1)
    }

    /// The bar and the row of entries take `rect`.
    open spec fn placed(m: MenuBarModel<W::Model>, rect: Rect, align: AlignHints) -> MenuBarModel<W::Model> {
        MenuBarModel {
            core: CoreData { rect, ..m.core },
            bar: List::<SubMenu<W>>::placed(m.bar, rect, align),
            ..m
        }
    }

    /// What the entries and their open menus find; otherwise the bar itself
    /// within its rectangle.
    open spec fn hit(m: MenuBarModel<W::Model>, coord: Coord) -> Option<WidgetId> {
        match List::<SubMenu<W>>::hit(m.bar, coord) {
            Some(id) => Some(id),
            None => if m.core.rect.spec_contains(coord) {
                Some(m.core.id)
            } else {
                None
            },
        }
    }

    /// The entries, in order.
    open spec fn painted(m: MenuBarModel<W::Model>, mgr: ManagerState, disabled: bool) -> Seq<DrawCmd> {
        List::<SubMenu<W>>::painted(m.bar, mgr, disabled || m.core.disabled)
    }

    /// The row of entries is ready.
    open spec fn ready(m: MenuBarModel<W::Model>) -> bool {
        List::<SubMenu<W>>::ready(m.bar)
    }

    proof fn lemma_ready(
        m: MenuBarModel<W::Model>,
        sizes: SizeModel,
        across: AxisInfo,
        down: AxisInfo,
        axis: AxisInfo,
        rect: Rect,
        align: AlignHints,
    ) {
        List::<SubMenu<W>>::lemma_ready(m.bar, sizes, across, down, axis, rect, align);
    }

    proof fn lemma_layout(
        m: MenuBarModel<W::Model>,
        sizes: SizeModel,
        axis: AxisInfo,
        rect: Rect,
        align: AlignHints,
        coord: Coord,
    ) {
        List::<SubMenu<W>>::lemma_layout(m.bar, sizes, axis, rect, align, coord);
        List::<SubMenu<W>>::lemma_tree(m.bar);
        let sized = Self::sized(m, sizes, axis).0;
        let placed = Self::placed(m, rect, align);
        lemma_same_nodes::<List<SubMenu<W>>>(sized.bar, m.bar);
        lemma_same_ids::<List<SubMenu<W>>>(placed.bar, m.bar);
        assert forall|i: int, j: int|
            0 <= i < sized.bar.items.len() && 0 <= j < sized.bar.items.len() && (
            #[trigger] sized.bar.items[i]).popup_id is Some && (#[trigger] sized.bar.items[j]).popup_id is Some implies i
            == j by {
            assert(m.bar.items[i].popup_id is Some);
            assert(m.bar.items[j].popup_id is Some);
        }
        assert forall|i: int, j: int|
            0 <= i < placed.bar.items.len() && 0 <= j < placed.bar.items.len() && (
            #[trigger] placed.bar.items[i]).popup_id is Some && (#[trigger] placed.bar.items[j]).popup_id is Some implies i
            == j by {
            assert(m.bar.items[i].popup_id is Some);
            assert(m.bar.items[j].popup_id is Some);
        }
        let a = Self::nodes(placed);
        let b = Self::nodes(m);
        let ia = List::<SubMenu<W>>::nodes(placed.bar);
        let ib = List::<SubMenu<W>>::nodes(m.bar);
        assert forall|i: int| 0 <= i < a.len() implies {
            &&& (#[trigger] a[i]).id == b[i].id
            &&& a[i].last == b[i].last
            &&& a[i].disabled == b[i].disabled
        } by {
            if i > 0 {
                assert(a[i] == ia[i - 1]);
                assert(b[i] == ib[i - 1]);
            }
        }
    }

    fn size_rules<S: SizeHandle>(&mut self, size_handle: &mut S, axis: AxisInfo) -> (r: SizeRules) {
        self.bar.size_rules(size_handle, axis)
    }

    fn set_rect(&mut self, rect: Rect, align: AlignHints) {
        self.core.rect = rect;
        self.bar.set_rect(rect, align);
    }

    fn spatial_range(&self) -> (r: (usize, usize)) {
        (0, 0)
    }

    fn find_id(&self, coord: Coord) -> (r: Option<WidgetId>) {
        match self.bar.find_id(coord) {
            Some(id) => Some(id),
            None => if self.core.rect.contains(coord) {
                Some(self.core.id)
            } else {
                None
            },
        }
    }

    fn draw<D: DrawHandle>(&self, draw_handle: &mut D, mgr: &ManagerState, disabled: bool) {
        let disabled = disabled || self.core.disabled;
        self.bar.draw(draw_handle, mgr, disabled);
    }
}

impl<W: SendEvent> MenuBar<W> {
    /// What comes of handing `event` down to the widget `id` among the
    /// sub-menus: the event goes to the sub-menu whose range holds `id`, and
    /// if that sub-menu then has its menu open, all other menus are closed.
    /// An event for a widget that is not among the sub-menus comes back
    /// unhandled.
    pub open spec fn delivered(m: MenuBarModel<W::Model>, mgr: ManagerModel, id: WidgetId, event: Event) -> Sent<
        MenuBarModel<W::Model>,
        W::Msg,
    > {
        if m.bar.core.spec_covers(id) {
            let s = List::<SubMenu<W>>::sent(m.bar, mgr, id, event);
            let passed = MenuBarModel { bar: s.widget, ..m };
            if covered::<SubMenu<W>>(s.widget.items, id) && s.widget.items[covering::<SubMenu<W>>(
                s.widget.items,
                id,
            )].popup_id is Some {
                let c = closed_bar::<W>(passed, covering::<SubMenu<W>>(s.widget.items, id), s.mgr);
                Sent { widget: c.0, mgr: c.1, response: s.response }
            } else {
                Sent { widget: passed, mgr: s.mgr, response: s.response }
            }
        } else {
            Sent { widget: m, mgr, response: Response::Unhandled(event) }
        }
    }

    /// What comes of a press that starts on the bar or in one of its menus,
    /// once the bar has the grab: a press on the entry of a closed menu
    /// opens that menu and closes all others; a press in a menu asks the
    /// widget there to open its popup.
    pub open spec fn pressed(m: MenuBarModel<W::Model>, mgr: ManagerModel, start_id: WidgetId, coord: Coord) -> Sent<
        MenuBarModel<W::Model>,
        W::Msg,
    > {
        let calm = MenuBarModel { opening: false, ..m };
        if m.core.rect.spec_contains(coord) {
            if is_header(m.bar.items, start_id) && m.bar.items[header_of(m.bar.items, start_id)].popup_id is None {
                let h = header_of(m.bar.items, start_id);
                let c = closed_all::<W>(m.bar.items, h, mgr);
                let o = SubMenu::<W>::opened(c.0[h], c.1);
                Sent {
                    widget: MenuBarModel {
                        opening: true,
                        bar: ListModel { items: c.0.update(h, o.0), ..m.bar },
                        ..m
                    },
                    mgr: o.1.set_press_focus(Some(m.core.id)),
                    response: Response::Nothing,
                }
            } else {
                Sent { widget: calm, mgr, response: Response::Nothing }
            }
        } else {
            Self::delivered(calm, mgr, start_id, Event::OpenPopup)
        }
    }

    /// What comes of a press that ends over the widget `id` of the bar: on
    /// the bar itself, the menu of the entry under the press is closed
    /// unless this press opened a menu; in a menu, the widget under the
    /// press is activated, all menus are closed, and what the widget
    /// answered is passed on.
    pub open spec fn released(m: MenuBarModel<W::Model>, mgr: ManagerModel, id: WidgetId, coord: Coord) -> Sent<
        MenuBarModel<W::Model>,
        W::Msg,
    > {
        if m.core.rect.spec_contains(coord) {
            if !m.opening && is_header(m.bar.items, id) {
                let h = header_of(m.bar.items, id);
                let c = SubMenu::<W>::closed(m.bar.items[h], mgr);
                Sent {
                    widget: MenuBarModel { bar: ListModel { items: m.bar.items.update(h, c.0), ..m.bar }, ..m },
                    mgr: c.1,
                    response: Response::Nothing,
                }
            } else {
                Sent { widget: m, mgr, response: Response::Nothing }
            }
        } else {
            let d = Self::delivered(m, mgr, id, Event::Activate);
            let c = closed_bar::<W>(d.widget, -1, d.mgr);
            Sent { widget: c.0, mgr: c.1, response: d.response }
        }
    }

    fn deliver(&mut self, mgr: &mut Manager, id: WidgetId, event: Event) -> (r: Response<W::Msg>)
        requires
            bar_shaped::<W>(old(self).model()),
            old(mgr)@.wf(),
        ensures
            (Sent { widget: final(self).model(), mgr: final(mgr)@, response: r }) == Self::delivered(
                old(self).model(),
                old(mgr)@,
                id,
                event,
            ),
    {
        if !self.bar.core_data().covers(id) {
            return Response::Unhandled(event);
        }
        proof {
            List::<SubMenu<W>>::lemma_sent(self.bar.model(), mgr@, id, event);
        }
        let r = self.bar.send(mgr, id, event);
        match self.bar.find_child(id) {
            Some(i) => {
                proof {
                    lemma_covering_unique::<SubMenu<W>>(self.bar.model(), id, i as int);
                }
                if self.bar.item(i).menu_is_open() {
                    self.close_others(mgr, Some(i));
                }
            },
            None => {},
        }
        r
    }
}

/// Handing an event down keeps the bar valid, with the same walk, and the
/// manager well-formed.
pub proof fn lemma_delivered<W: SendEvent>(m: MenuBarModel<W::Model>, mgr: ManagerModel, id: WidgetId, event: Event)
    requires
        bar_shaped::<W>(m),
        single_open(m.bar.items),
        mgr.wf(),
    ensures
        bar_shaped::<W>(MenuBar::<W>::delivered(m, mgr, id, event).widget),
        single_open(MenuBar::<W>::delivered(m, mgr, id, event).widget.bar.items),
        bar_nodes::<W>(MenuBar::<W>::delivered(m, mgr, id, event).widget) == bar_nodes::<W>(m),
        MenuBar::<W>::delivered(m, mgr, id, event).widget.core == m.core,
        MenuBar::<W>::delivered(m, mgr, id, event).widget.opening == m.opening,
        MenuBar::<W>::delivered(m, mgr, id, event).mgr.wf(),
{
    if m.bar.core.spec_covers(id) {
        let s = List::<SubMenu<W>>::sent(m.bar, mgr, id, event);
        List::<SubMenu<W>>::lemma_sent(m.bar, mgr, id, event);
        List::<SubMenu<W>>::lemma_tree(m.bar);
        lemma_same_nodes::<List<SubMenu<W>>>(s.widget, m.bar);
        let passed = MenuBarModel { bar: s.widget, ..m };
        assert(bar_shaped::<W>(passed));
        assert(bar_nodes::<W>(passed) == bar_nodes::<W>(m));
        if covered::<SubMenu<W>>(s.widget.items, id) && s.widget.items[covering::<SubMenu<W>>(
            s.widget.items,
            id,
        )].popup_id is Some {
            let k = covering::<SubMenu<W>>(s.widget.items, id);
            lemma_closed_all::<W>(s.widget.items, k, s.mgr);
            lemma_bar_alike::<W>(passed, closed_bar::<W>(passed, k, s.mgr).0);
        } else {
            if !m.bar.core.disabled && covered::<SubMenu<W>>(m.bar.items, id) {
                let i = covering::<SubMenu<W>>(m.bar.items, id);
                assert(s.widget.items == m.bar.items.update(i, s.widget.items[i]));
                lemma_list_item::<SubMenu<W>>(m.bar, i);
                lemma_list_item::<SubMenu<W>>(s.widget, i);
                assert(SubMenu::<W>::valid(m.bar.items[i]));
                assert(SubMenu::<W>::valid(s.widget.items[i]));
                SubMenu::<W>::lemma_sent(m.bar.items[i], mgr, id, event);
                lemma_same_nodes::<SubMenu<W>>(s.widget.items[i], m.bar.items[i]);
                lemma_covering_unique::<SubMenu<W>>(s.widget, id, i);
                assert forall|a: int, b: int|
                    0 <= a < s.widget.items.len() && 0 <= b < s.widget.items.len() && (
                    #[trigger] s.widget.items[a]).popup_id is Some && (#[trigger] s.widget.items[b]).popup_id is Some implies a
                    == b by {
                    assert(a != i && b != i);
                    assert(m.bar.items[a].popup_id is Some);
                    assert(m.bar.items[b].popup_id is Some);
                }
            }
        }
    }
}

/// The start and the end of a press keep the bar valid, with the same
/// walk, and the manager well-formed.
pub proof fn lemma_pressed<W: SendEvent>(m: MenuBarModel<W::Model>, mgr: ManagerModel, id: WidgetId, coord: Coord)
    requires
        bar_shaped::<W>(m),
        single_open(m.bar.items),
        mgr.wf(),
    ensures
        bar_shaped::<W>(MenuBar::<W>::pressed(m, mgr, id, coord).widget),
        single_open(MenuBar::<W>::pressed(m, mgr, id, coord).widget.bar.items),
        bar_nodes::<W>(MenuBar::<W>::pressed(m, mgr, id, coord).widget) == bar_nodes::<W>(m),
        MenuBar::<W>::pressed(m, mgr, id, coord).mgr.wf(),
        bar_shaped::<W>(MenuBar::<W>::released(m, mgr, id, coord).widget),
        single_open(MenuBar::<W>::released(m, mgr, id, coord).widget.bar.items),
        bar_nodes::<W>(MenuBar::<W>::released(m, mgr, id, coord).widget) == bar_nodes::<W>(m),
        MenuBar::<W>::released(m, mgr, id, coord).mgr.wf(),
{
    let calm = MenuBarModel { opening: false, ..m };
    lemma_delivered::<W>(calm, mgr, id, Event::OpenPopup);
    lemma_delivered::<W>(m, mgr, id, Event::Activate);
    let d = MenuBar::<W>::delivered(m, mgr, id, Event::Activate);
    lemma_closed_all::<W>(d.widget.bar.items, -1, d.mgr);
    lemma_bar_alike::<W>(d.widget, closed_bar::<W>(d.widget, -1, d.mgr).0);
    if is_header(m.bar.items, id) {
        let h = header_of(m.bar.items, id);
        let c = closed_all::<W>(m.bar.items, h, mgr);
        lemma_closed_all::<W>(m.bar.items, h, mgr);
        lemma_sub_menu_steps::<W>(c.0[h], c.1);
        let o = SubMenu::<W>::opened(c.0[h], c.1);
        let opened = MenuBarModel { opening: true, bar: ListModel { items: c.0.update(h, o.0), ..m.bar }, ..m };
        lemma_bar_alike::<W>(m, opened);
        lemma_sub_menu_steps::<W>(m.bar.items[h], mgr);
        let cl = SubMenu::<W>::closed(m.bar.items[h], mgr);
        let closed = MenuBarModel { bar: ListModel { items: m.bar.items.update(h, cl.0), ..m.bar }, ..m };
        lemma_bar_alike::<W>(m, closed);
        assert forall|a: int, b: int|
            0 <= a < closed.bar.items.len() && 0 <= b < closed.bar.items.len() && (
            #[trigger] closed.bar.items[a]).popup_id is Some && (#[trigger] closed.bar.items[b]).popup_id is Some implies a
            == b by {
            assert(m.bar.items[a].popup_id is Some);
            assert(m.bar.items[b].popup_id is Some);
        }
    }
}

impl<W: SendEvent> Handler for MenuBar<W> {
    type Msg = W::Msg;

    open spec fn activable(m: MenuBarModel<W::Model>) -> bool {
        false
    }

    /// - A primary press that starts on the bar or in one of its menus asks
    ///   for the grab. With the grab, the press shows where it started and
    ///   goes on as [`MenuBar::pressed`] says. A press that starts elsewhere
    ///   closes all menus and is handed back.
    /// - A press that moves over a widget of the bar shows as pressed there
    ///   and asks that widget to open its popup.
    /// - A press that ends over a widget of the bar goes on as
    ///   [`MenuBar::released`] says; a press that ends elsewhere closes all
    ///   menus.
    /// - Any other event is handed back as it is.
    open spec fn handled(m: MenuBarModel<W::Model>, mgr: ManagerModel, event: Event) -> Sent<
        MenuBarModel<W::Model>,
        W::Msg,
    > {
        match event {
            Event::PressStart { source, start_id, coord } => {
                if m.core.spec_covers(start_id) {
                    let asked = mgr.request_grab(m.core.id, source, coord, GrabMode::Grab, None);
                    if source.spec_is_primary() && asked.1 {
                        Self::pressed(m, asked.0.set_grab_depress(source, Some(start_id)), start_id, coord)
                    } else {
                        Sent { widget: m, mgr, response: Response::Nothing }
                    }
                } else {
                    let c = closed_bar::<W>(m, -1, mgr);
                    Sent { widget: c.0, mgr: c.1, response: Response::Unhandled(event) }
                }
            },
            Event::PressMove { source, cur_id, coord, delta } => {
                if cur_id is Some && m.core.spec_covers(cur_id->0) {
                    Self::delivered(m, mgr.set_grab_depress(source, cur_id), cur_id->0, Event::OpenPopup)
                } else {
                    Sent { widget: m, mgr, response: Response::Nothing }
                }
            },
            Event::PressEnd { source, end_id, coord } => {
                if end_id is Some && m.core.spec_covers(end_id->0) {
                    Self::released(m, mgr, end_id->0, coord)
                } else {
                    let c = closed_bar::<W>(m, -1, mgr);
                    Sent { widget: c.0, mgr: c.1, response: Response::Nothing }
                }
            },
            _ => Sent { widget: m, mgr, response: Response::Unhandled(event) },
        }
    }

    proof fn lemma_handled(m: MenuBarModel<W::Model>, mgr: ManagerModel, event: Event) {
        lemma_closed_all::<W>(m.bar.items, -1, mgr);
        lemma_bar_alike::<W>(m, closed_bar::<W>(m, -1, mgr).0);
        match event {
            Event::PressStart { source, start_id, coord } => {
                let asked = mgr.request_grab(m.core.id, source, coord, GrabMode::Grab, None);
                lemma_request_grab(mgr, m.core.id, source, coord, GrabMode::Grab, None);
                lemma_set_grab_depress(asked.0, source, Some(start_id));
                lemma_pressed::<W>(m, asked.0.set_grab_depress(source, Some(start_id)), start_id, coord);
            },
            Event::PressMove { source, cur_id, coord, delta } => {
                if cur_id is Some {
                    lemma_set_grab_depress(mgr, source, cur_id);
                    lemma_delivered::<W>(m, mgr.set_grab_depress(source, cur_id), cur_id->0, Event::OpenPopup);
                }
            },
            Event::PressEnd { source, end_id, coord } => {
                if end_id is Some {
                    lemma_pressed::<W>(m, mgr, end_id->0, coord);
                }
            },
            _ => {},
        }
    }

    fn activation_via_press(&self) -> (r: bool) {
        false
    }

    fn handle(&mut self, mgr: &mut Manager, event: Event) -> (r: Response<W::Msg>) {
        match event {
            Event::PressStart { source, start_id, coord } => {
                if self.core.covers(start_id) {
                    if source.is_primary() && mgr.request_grab(self.core.id, source, coord, GrabMode::Grab, None) {
                        mgr.set_grab_depress(source, Some(start_id));
                        self.opening = false;
                        if self.core.rect.contains(coord) {
                            match self.header(start_id) {
                                Some(h) => {
                                    if !self.bar.item(h).menu_is_open() {
                                        self.opening = true;
                                        proof {
                                            lemma_closed_all::<W>(self.model().bar.items, h as int, mgr@);
                                        }
                                        self.close_others(mgr, Some(h));
                                        let w = self.bar.item_mut(h);
                                        w.open_menu(mgr);
                                        mgr.set_press_focus(Some(self.core.id));
                                    }
                                },
                                None => {},
                            }
                            Response::Nothing
                        } else {
                            self.deliver(mgr, start_id, Event::OpenPopup)
                        }
                    } else {
                        Response::Nothing
                    }
                } else {
                    self.close_others(mgr, None);
                    Response::Unhandled(event)
                }
            },
            Event::PressMove { source, cur_id, coord, delta } => {
                match cur_id {
                    Some(id) => {
                        if self.core.covers(id) {
                            mgr.set_grab_depress(source, Some(id));
                            self.deliver(mgr, id, Event::OpenPopup)
                        } else {
                            Response::Nothing
                        }
                    },
                    None => Response::Nothing,
                }
            },
            Event::PressEnd { source, end_id, coord } => {
                let inside = match end_id {
                    Some(id) => self.core.covers(id),
                    None => false,
                };
                match end_id {
                    Some(id) if inside => {
                        if self.core.rect.contains(coord) {
                            if !self.opening {
                                match self.header(id) {
                                    Some(h) => {
                                        let w = self.bar.item_mut(h);
                                        w.close_menu(mgr);
                                    },
                                    None => {},
                                }
                            }
                            Response::Nothing
                        } else {
                            proof {
                                lemma_delivered::<W>(self.model(), mgr@, id, Event::Activate);
                            }
                            let r = self.deliver(mgr, id, Event::Activate);
                            self.close_others(mgr, None);
                            r
                        }
                    },
                    _ => {
                        self.close_others(mgr, None);
                        Response::Nothing
                    },
                }
            },
            _ => Response::Unhandled(event),
        }
    }
}

impl<W: SendEvent> SendEvent for MenuBar<W> {
    /// A disabled bar hands the event back. An event for a widget among the
    /// sub-menus is handed down; if it comes back unhandled, the bar handles
    /// what came back itself. Any other event is the bar's own.
    open spec fn sent(m: MenuBarModel<W::Model>, mgr: ManagerModel, id: WidgetId, event: Event) -> Sent<
        MenuBarModel<W::Model>,
        W::Msg,
    > {
        if m.core.disabled {
            Sent { widget: m, mgr, response: Response::Unhandled(event) }
        } else if m.bar.core.spec_covers(id) {
            let d = Self::delivered(m, mgr, id, event);
            match d.response {
                Response::Unhandled(e) => Self::handled(d.widget, d.mgr, e),
                _ => d,
            }
        } else {
            Self::handled(m, mgr, event)
        }
    }

    proof fn lemma_sent(m: MenuBarModel<W::Model>, mgr: ManagerModel, id: WidgetId, event: Event) {
        Self::lemma_handled(m, mgr, event);
        lemma_delivered::<W>(m, mgr, id, event);
        let d = Self::delivered(m, mgr, id, event);
        if let Response::Unhandled(e) = d.response {
            Self::lemma_handled(d.widget, d.mgr, e);
        }
    }

    fn send(&mut self, mgr: &mut Manager, id: WidgetId, event: Event) -> (r: Response<W::Msg>) {
        if self.core.disabled {
            return Response::Unhandled(event);
        }
        if self.bar.core_data().covers(id) {
            proof {
                lemma_delivered::<W>(self.model(), mgr@, id, event);
            }
            return match self.deliver(mgr, id, event) {
                Response::Unhandled(e) => self.handle(mgr, e),
                r => r,
            };
        }
        self.handle(mgr, event)
    }
}

/// Within a menu bar at most one menu is open, whatever the inputs were
/// since the bar was configured: of any two sub-menus with an open menu,
/// one is the other.
pub proof fn lemma_menu_exclusive<W: SendEvent>(
    m: MenuBarModel<W::Model>,
    mgr: ManagerModel,
    inputs: Seq<crate::driver::Input>,
    i: int,
    j: int,
)
    requires
        MenuBar::<W>::valid(m),
        mgr.wf(),
        0 <= i < crate::driver::run::<MenuBar<W>>(m, mgr, inputs).0.bar.items.len(),
        0 <= j < crate::driver::run::<MenuBar<W>>(m, mgr, inputs).0.bar.items.len(),
        crate::driver::run::<MenuBar<W>>(m, mgr, inputs).0.bar.items[i].popup_id is Some,
        crate::driver::run::<MenuBar<W>>(m, mgr, inputs).0.bar.items[j].popup_id is Some,
    ensures
        i == j,
{
    let after = crate::driver::run::<MenuBar<W>>(m, mgr, inputs).0;
    assert(MenuBar::<W>::valid(after)) by {
        crate::driver::lemma_run::<MenuBar<W>>(m, mgr, inputs);
    }
    assert(single_open(after.bar.items));
    assert(after.bar.items[i].popup_id is Some && after.bar.items[j].popup_id is Some);
}

/// Whatever is sent to a valid menu bar, at most one of its menus is open
/// afterwards.
pub proof fn lemma_menu_bar_keeps_one<W: SendEvent>(
    m: MenuBarModel<W::Model>,
    mgr: ManagerModel,
    id: WidgetId,
    event: Event,
)
    requires
        MenuBar::<W>::valid(m),
        mgr.wf(),
    ensures
        single_open(MenuBar::<W>::sent(m, mgr, id, event).widget.bar.items),
        single_open(MenuBar::<W>::handled(m, mgr, event).widget.bar.items),
{
    MenuBar::<W>::lemma_sent(m, mgr, id, event);
    MenuBar::<W>::lemma_handled(m, mgr, event);
}

/// A configured bar has all its menus closed.
pub proof fn lemma_menu_bar_starts_closed<W: WidgetCore>(
    m: MenuBarModel<W::Model>,
    mgr: ManagerModel,
    first: WidgetId,
    i: int,
)
    requires
        first.0 >= 1,
        first.0 + bar_nodes::<W>(m).len() <= u32::MAX,
        mgr.wf(),
        0 <= i < MenuBar::<W>::configured(m, mgr, first).0.bar.items.len(),
    ensures
        MenuBar::<W>::configured(m, mgr, first).0.bar.items[i].popup_id is None,
{
    let next = WidgetId((first.0 + 1) as u32);
    let bar = List::<SubMenu<W>>::configured(m.bar, mgr, next);
    List::<SubMenu<W>>::lemma_configured(m.bar, mgr, next);
    lemma_closed_all::<W>(bar.0.items, -1, bar.1);
}

/// What comes back from the popup of a menu button is passed on as it is.
pub proof fn lemma_menu_button_passes_on<W: SendEvent>(
    m: MenuButtonModel<W::Model>,
    mgr: ManagerModel,
    id: WidgetId,
    event: Event,
)
    requires
        !m.core.disabled,
        W::own(m.popup).spec_covers(id),
    ensures
        MenuButton::<W>::sent(m, mgr, id, event).response == W::sent(m.popup, mgr, id, event).response,
{
}

/// What comes back from the menu of a sub-menu is passed on as it is.
pub proof fn lemma_sub_menu_passes_on<W: SendEvent>(
    m: SubMenuModel<W::Model>,
    mgr: ManagerModel,
    id: WidgetId,
    event: Event,
)
    requires
        !m.core.disabled,
        m.list.core.spec_covers(id),
    ensures
        SubMenu::<W>::sent(m, mgr, id, event).response == List::<W>::sent(m.list, mgr, id, event).response,
{
}

/// An event that comes back unhandled from below a menu bar and is no
/// press comes back from the bar as it is.
pub proof fn lemma_menu_bar_passes_on<W: SendEvent>(
    m: MenuBarModel<W::Model>,
    mgr: ManagerModel,
    id: WidgetId,
    event: Event,
    back: Event,
)
    requires
        !m.core.disabled,
        m.bar.core.spec_covers(id),
        List::<SubMenu<W>>::sent(m.bar, mgr, id, event).response == Response::<W::Msg>::Unhandled(back),
        !back.spec_is_press(),
    ensures
        MenuBar::<W>::sent(m, mgr, id, event).response == Response::<W::Msg>::Unhandled(back),
{
}

/// An event that a sub-menu hands back from its own handler is the event
/// that came.
pub proof fn lemma_sub_menu_hands_back<W: SendEvent>(m: SubMenuModel<W::Model>, mgr: ManagerModel, event: Event)
    ensures
        SubMenu::<W>::handled(m, mgr, event).response matches Response::Unhandled(e) ==> e == event,
{
}

/// An event that a menu button hands back from its own handler is the
/// event that came, unless it is the end of a press: a press that ends in
/// the popup is answered with what the widget there answered to its
/// activation.
pub proof fn lemma_menu_button_hands_back<W: SendEvent>(m: MenuButtonModel<W::Model>, mgr: ManagerModel, event: Event)
    requires
        !(event is PressEnd),
    ensures
        MenuButton::<W>::handled(m, mgr, event).response matches Response::Unhandled(e) ==> e == event,
{
}

/// An event that a menu bar hands back from its own handler is the event
/// that came, unless it reports a press: a press within a menu is answered
/// with what the widget there answered to the event that the bar sent it.
pub proof fn lemma_menu_bar_hands_back<W: SendEvent>(m: MenuBarModel<W::Model>, mgr: ManagerModel, event: Event)
    requires
        !event.spec_is_press(),
    ensures
        MenuBar::<W>::handled(m, mgr, event).response matches Response::Unhandled(e) ==> e == event,
{
}

/// Where no menu is open but perhaps that of one entry, closing all menus
/// but that of another entry closes the window of the one, if it is open,
/// and does nothing else to the manager.
pub proof fn lemma_closed_all_one<W: WidgetCore>(
    items: Seq<SubMenuModel<W::Model>>,
    keep: int,
    mgr: ManagerModel,
    a: int,
)
    requires
        forall|k: int| 0 <= k < items.len() && k != a ==> (#[trigger] items[k]).popup_id is None,
        a != keep,
    ensures
        closed_all::<W>(items, keep, mgr).1 == if 0 <= a < items.len() && items[a].popup_id is Some {
            mgr.close_window(items[a].popup_id->0)
        } else {
            mgr
        },
    decreases items.len(),
{
    if items.len() > 0 {
        let init = items.drop_last();
        assert forall|k: int| 0 <= k < init.len() && k != a implies (#[trigger] init[k]).popup_id is None by {
            assert(init[k] == items[k]);
        }
        lemma_closed_all_one::<W>(init, keep, mgr, a);
        assert(items.last() == items[items.len() - 1]);
        if a < items.len() - 1 && 0 <= a {
            assert(init[a] == items[a]);
        }
    }
}

/// A press on the entry of a closed menu switches menus: with the menu of
/// one entry open, a primary press that starts on another entry of the bar,
/// from a source that is not grabbed, closes the open menu and opens that of
/// the entry under the press, in one step. The bar notes that the press
/// opened a menu and has nothing to report. If the popup of the open menu
/// was the one popup on the stack, the popup of the new menu is the one
/// popup afterwards. The new window gets the next number; this holds while
/// the numbers last.
pub proof fn lemma_menu_bar_switch<W: SendEvent>(
    m: MenuBarModel<W::Model>,
    mgr: ManagerModel,
    source: PressSource,
    coord: Coord,
    a: int,
    b: int,
)
    requires
        MenuBar::<W>::valid(m),
        mgr.wf(),
        0 <= a < m.bar.items.len(),
        0 <= b < m.bar.items.len(),
        m.bar.items[a].popup_id is Some,
        m.bar.items[b].popup_id is None,
        source.spec_is_primary(),
        !mgr.has_grab(source),
        m.core.rect.spec_contains(coord),
        mgr.next_window < u32::MAX,
    ensures
        ({
            let event = Event::PressStart { source, start_id: m.bar.items[b].core.id, coord };
            let s = MenuBar::<W>::handled(m, mgr, event);
            let entry = m.bar.items[b];
            let popup = Popup { id: entry.list.core.id, parent: entry.core.id, direction: Direction::Down };
            &&& s.response == Response::<W::Msg>::Nothing
            &&& s.widget.opening
            &&& s.widget.bar.items.len() == m.bar.items.len()
            &&& s.widget.bar.items[a].popup_id is None
            &&& s.widget.bar.items[b].popup_id == Some(WindowId(mgr.next_window))
            &&& forall|k: int|
                0 <= k < m.bar.items.len() && k != b ==> (#[trigger] s.widget.bar.items[k]).popup_id is None
            &&& s.mgr.holder(source) == Some(m.core.id)
            &&& s.mgr.popups.len() == if mgr.has_window(m.bar.items[a].popup_id->0) {
                mgr.popups.len() as int
            } else {
                mgr.popups.len() as int + 1
            }
            &&& s.mgr.popups.last() == (OpenPopup { window: WindowId(mgr.next_window), popup })
            &&& (mgr.popups.len() == 1 && mgr.popups[0].window == m.bar.items[a].popup_id->0 ==> s.mgr.popups
                == seq![OpenPopup { window: WindowId(mgr.next_window), popup }])
        }),
{
    let start_id = m.bar.items[b].core.id;
    let event = Event::PressStart { source, start_id, coord };
    lemma_list_item::<SubMenu<W>>(m.bar, b);
    lemma_header_unique::<W>(m, start_id, b);
    assert(m.core.spec_covers(start_id));
    let asked = mgr.request_grab(m.core.id, source, coord, GrabMode::Grab, None);
    lemma_request_grab(mgr, m.core.id, source, coord, GrabMode::Grab, None);
    let mgr1 = asked.0.set_grab_depress(source, Some(start_id));
    lemma_set_grab_depress(asked.0, source, Some(start_id));
    assert(mgr1.popups == mgr.popups);
    assert(mgr1.next_window == mgr.next_window);
    let window = m.bar.items[a].popup_id->0;
    assert forall|k: int| 0 <= k < m.bar.items.len() && k != a implies (#[trigger] m.bar.items[k]).popup_id is None by {
        if m.bar.items[k].popup_id is Some {
            assert(m.bar.items[a].popup_id is Some);
        }
    }
    let c = closed_all::<W>(m.bar.items, b, mgr1);
    lemma_closed_all::<W>(m.bar.items, b, mgr1);
    lemma_closed_all_one::<W>(m.bar.items, b, mgr1, a);
    assert(c.1 == mgr1.close_window(window));
    lemma_close_window(mgr1, window);
    lemma_add_popup(
        c.1,
        Popup { id: c.0[b].list.core.id, parent: c.0[b].core.id, direction: Direction::Down },
    );
    assert(c.0[b].popup_id is None);
    assert(c.0[b].list.core == m.bar.items[b].list.core);
    assert(c.0[b].core == m.bar.items[b].core);
    assert(c.1.next_window == mgr.next_window);
    let s = MenuBar::<W>::handled(m, mgr, event);
    assert(s == MenuBar::<W>::pressed(m, mgr1, start_id, coord));
    if mgr.popups.len() == 1 && mgr.popups[0].window == window {
        assert(mgr1.has_window(window));
        assert(c.1.popups.len() == 0);
        assert(s.mgr.popups =~= seq![
            OpenPopup {
                window: WindowId(mgr.next_window),
                popup: Popup {
                    id: m.bar.items[b].list.core.id,
                    parent: m.bar.items[b].core.id,
                    direction: Direction::Down,
                },
            },
        ]);
    }
}

/// The smallest size of a framed widget along an axis is that of the
/// content with its margins and with the frame on both sides; for content
/// without margins it is the content and twice the frame, as long as that
/// is a size at all.
pub proof fn lemma_menu_frame_min<W: Layout>(
    m: menu_frame::MenuFrameModel<W::Model>,
    sizes: SizeModel,
    axis: AxisInfo,
)
    ensures
        ({
            let content = W::sized(m.inner, sizes, axis).1;
            let framed = menu_frame::MenuFrame::<W>::sized(m, sizes, axis).1;
            let side = if axis.vertical {
                sizes.frame.1
            } else {
                sizes.frame.0
            };
            &&& framed.min == crate::geom::clamp_u32(
                content.min + crate::geom::clamp_u32(side + side) + content.margins.0 + content.margins.1,
            )
            &&& framed.margins == (0u16, 0u16)
            &&& framed.stretch == content.stretch
            &&& (content.margins == (0u16, 0u16) && content.min + 2 * side <= u32::MAX ==> framed.min
                == content.min + 2 * side)
        }),
{
}

} // verus!
