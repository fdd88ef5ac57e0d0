use kas::data::{Direction, TkAction};
use kas::event::{CursorIcon, GrabMode, HighlightState, MouseButton, PressSource};
use kas::geom::Coord;
use kas::id::{UpdateHandle, WidgetId, WindowId};
use kas::manager::{Manager, OpenPopup, Popup, Update};

const LEFT: PressSource = PressSource::Mouse(MouseButton::Left);
const RIGHT: PressSource = PressSource::Mouse(MouseButton::Right);

#[test]
fn a_grab_is_granted_once() {
    let mut mgr = Manager::new();
    assert_eq!(mgr.grab_holder(LEFT), None);
    assert!(mgr.request_grab(WidgetId(3), LEFT, Coord(1, 2), GrabMode::Grab, None));
    assert_eq!(mgr.grab_holder(LEFT), Some(WidgetId(3)));
    // a second request fails, whoever asks, and changes nothing
    let before = mgr.grab_of(LEFT);
    assert!(!mgr.request_grab(WidgetId(4), LEFT, Coord(9, 9), GrabMode::Pan, Some(CursorIcon::Hand)));
    assert!(!mgr.request_grab(WidgetId(3), LEFT, Coord(9, 9), GrabMode::Grab, None));
    assert_eq!(mgr.grab_of(LEFT), before);
    assert_eq!(mgr.grab_holder(LEFT), Some(WidgetId(3)));
}

#[test]
fn each_source_has_its_own_grab() {
    let mut mgr = Manager::new();
    assert!(mgr.request_grab(WidgetId(3), LEFT, Coord(1, 2), GrabMode::Grab, None));
    assert!(mgr.request_grab(WidgetId(4), RIGHT, Coord(1, 2), GrabMode::Grab, None));
    assert!(mgr.request_grab(WidgetId(5), PressSource::Touch(7), Coord(1, 2), GrabMode::Pan, None));
    assert!(!mgr.request_grab(WidgetId(6), PressSource::Touch(7), Coord(1, 2), GrabMode::Pan, None));
    assert!(mgr.request_grab(WidgetId(6), PressSource::Touch(8), Coord(1, 2), GrabMode::Pan, None));
    assert_eq!(mgr.grab_holder(LEFT), Some(WidgetId(3)));
    assert_eq!(mgr.grab_holder(RIGHT), Some(WidgetId(4)));
    assert_eq!(mgr.grab_holder(PressSource::Touch(7)), Some(WidgetId(5)));
    assert_eq!(mgr.grab_holder(PressSource::Touch(8)), Some(WidgetId(6)));
    mgr.end_grab(RIGHT);
    assert_eq!(mgr.grab_holder(RIGHT), None);
    assert_eq!(mgr.grab_holder(LEFT), Some(WidgetId(3)));
    assert_eq!(mgr.grab_holder(PressSource::Touch(7)), Some(WidgetId(5)));
    mgr.release_grabs();
    assert_eq!(mgr.grab_holder(LEFT), None);
    assert_eq!(mgr.grab_holder(PressSource::Touch(8)), None);
}

#[test]
fn a_new_grab_shows_its_holder_as_pressed() {
    let mut mgr = Manager::new();
    mgr.request_grab(WidgetId(3), LEFT, Coord(1, 2), GrabMode::Grab, Some(CursorIcon::Grabbing));
    let grab = mgr.grab_of(LEFT).unwrap();
    assert_eq!(grab.id, WidgetId(3));
    assert_eq!(grab.depress, Some(WidgetId(3)));
    assert_eq!(grab.coord, Coord(1, 2));
    assert_eq!(grab.mode, GrabMode::Grab);
    assert_eq!(grab.cursor, Some(CursorIcon::Grabbing));
    assert!(mgr.state().is_depressed(WidgetId(3)));
    assert_eq!(mgr.take_action(), TkAction::Redraw);
}

#[test]
fn the_pressed_widget_changes_without_the_holder() {
    let mut mgr = Manager::new();
    mgr.request_grab(WidgetId(3), LEFT, Coord(1, 2), GrabMode::Grab, None);
    mgr.set_grab_depress(LEFT, Some(WidgetId(8)));
    assert_eq!(mgr.grab_holder(LEFT), Some(WidgetId(3)));
    assert!(mgr.state().is_depressed(WidgetId(8)));
    assert!(!mgr.state().is_depressed(WidgetId(3)));
    mgr.set_grab_depress(LEFT, None);
    assert!(!mgr.state().is_depressed(WidgetId(8)));
    assert_eq!(mgr.grab_holder(LEFT), Some(WidgetId(3)));
    // without a grab nothing happens
    mgr.set_grab_depress(RIGHT, Some(WidgetId(8)));
    assert!(!mgr.state().is_depressed(WidgetId(8)));
    assert_eq!(mgr.grab_holder(RIGHT), None);
    mgr.move_grab(LEFT, Coord(5, 6));
    assert_eq!(mgr.grab_of(LEFT).unwrap().coord, Coord(5, 6));
}

#[test]
fn popups_are_stacked_under_new_numbers() {
    let mut mgr = Manager::new();
    let a = Popup { id: WidgetId(4), parent: WidgetId(3), direction: Direction::Down };
    let b = Popup { id: WidgetId(9), parent: WidgetId(8), direction: Direction::Right };
    assert_eq!(mgr.top_popup(), None);
    assert_eq!(mgr.add_popup(a), Some(WindowId(1)));
    assert_eq!(mgr.take_action(), TkAction::Popup);
    assert_eq!(mgr.add_popup(b), Some(WindowId(2)));
    assert_eq!(mgr.popup_count(), 2);
    assert_eq!(mgr.top_popup(), Some(OpenPopup { window: WindowId(2), popup: b }));
    // the lower one is closed: the upper one stays
    mgr.close_window(WindowId(1));
    assert_eq!(mgr.popup_count(), 1);
    assert_eq!(mgr.top_popup(), Some(OpenPopup { window: WindowId(2), popup: b }));
    // closing what is not open changes nothing
    mgr.take_action();
    mgr.close_window(WindowId(1));
    assert_eq!(mgr.popup_count(), 1);
    assert_eq!(mgr.take_action(), TkAction::Nothing);
    // numbers are not used again
    assert_eq!(mgr.add_popup(a), Some(WindowId(3)));
}

#[test]
fn focus_and_hover_are_shown() {
    let mut mgr = Manager::new();
    assert_eq!(mgr.state().highlights(WidgetId(2), false), HighlightState::plain());
    mgr.set_hover(Some(WidgetId(2)));
    mgr.set_key_focus(Some(WidgetId(2)));
    mgr.set_nav_focus(Some(WidgetId(5)));
    mgr.set_press_focus(Some(WidgetId(6)));
    assert_eq!((mgr.hover(), mgr.key_focus(), mgr.nav_focus(), mgr.press_focus()),
        (Some(WidgetId(2)), Some(WidgetId(2)), Some(WidgetId(5)), Some(WidgetId(6))));
    assert_eq!(
        mgr.state().highlights(WidgetId(2), false),
        HighlightState { hover: true, depress: false, key_focus: true }
    );
    // a disabled widget shows nothing
    assert_eq!(mgr.state().highlights(WidgetId(2), true), HighlightState::plain());
    assert!(!HighlightState::plain().any());
    assert!(mgr.state().highlights(WidgetId(2), false).any());
    assert_eq!(mgr.take_action(), TkAction::Redraw);
    // setting what is set asks for nothing
    mgr.set_hover(Some(WidgetId(2)));
    assert_eq!(mgr.take_action(), TkAction::Nothing);
}

#[test]
fn actions_keep_the_strongest() {
    let mut mgr = Manager::new();
    mgr.send_action(TkAction::Reconfigure);
    mgr.send_action(TkAction::Redraw);
    assert_eq!(mgr.take_action(), TkAction::Reconfigure);
    assert_eq!(mgr.take_action(), TkAction::Nothing);
    assert_eq!(TkAction::Close.stronger(TkAction::CloseAll), TkAction::CloseAll);
    assert_eq!(TkAction::Popup.rank(), 3);
}

#[test]
fn updates_wait_until_they_are_taken() {
    let mut mgr = Manager::new();
    let h = UpdateHandle::new(5);
    let g = UpdateHandle::new(6);
    mgr.update_on_handle(h, WidgetId(2));
    mgr.update_on_handle(g, WidgetId(3));
    mgr.update_on_handle(h, WidgetId(4));
    assert_eq!(mgr.registered(h), vec![WidgetId(2), WidgetId(4)]);
    assert_eq!(mgr.registered(g), vec![WidgetId(3)]);
    assert_eq!(mgr.registered(UpdateHandle::new(7)), Vec::<WidgetId>::new());
    mgr.trigger_update(h, 11);
    mgr.trigger_update(g, 12);
    assert_eq!(
        mgr.take_pending(),
        vec![Update { handle: h, payload: 11, stamp: 3 }, Update { handle: g, payload: 12, stamp: 4 }]
    );
    assert_eq!(mgr.clock(), 5);
    assert_eq!(mgr.take_pending(), Vec::<Update>::new());
}

#[test]
fn an_update_is_for_those_who_registered_before_it() {
    let mut mgr = Manager::new();
    let h = UpdateHandle::new(5);
    mgr.update_on_handle(h, WidgetId(2));
    mgr.update_on_handle(UpdateHandle::new(6), WidgetId(3));
    mgr.trigger_update(h, 1);
    mgr.update_on_handle(h, WidgetId(4));
    mgr.trigger_update(h, 2);
    let updates = mgr.take_pending();
    // the widget that registered in between is told of the second update only
    assert_eq!(mgr.served(updates[0]), vec![WidgetId(2)]);
    assert_eq!(mgr.served(updates[1]), vec![WidgetId(2), WidgetId(4)]);
    assert_eq!(mgr.registered(h), vec![WidgetId(2), WidgetId(4)]);
}

#[test]
fn the_time_of_a_manager_only_goes_forward() {
    let mut mgr = Manager::new();
    assert_eq!(mgr.clock(), 0);
    mgr.advance_clock(10);
    assert_eq!(mgr.clock(), 10);
    mgr.advance_clock(4);
    assert_eq!(mgr.clock(), 10);
    mgr.trigger_update(UpdateHandle::new(1), 0);
    assert_eq!(mgr.clock(), 11);
    assert_eq!(mgr.take_pending(), vec![Update { handle: UpdateHandle::new(1), payload: 0, stamp: 10 }]);
    // when time cannot be counted further, it stands still
    mgr.advance_clock(u64::MAX);
    mgr.update_on_handle(UpdateHandle::new(1), WidgetId(2));
    mgr.trigger_update(UpdateHandle::new(1), 0);
    assert_eq!(mgr.clock(), u64::MAX);
    let late = mgr.take_pending();
    assert_eq!(mgr.served(late[0]), Vec::<WidgetId>::new());
}
