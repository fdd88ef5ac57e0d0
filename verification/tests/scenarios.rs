use kas::class::{HasBool, HasText};
use kas::data::Direction;
use kas::driver::Input;
use kas::event::{ControlKey, Event, MouseButton, PressSource, Response};
use kas::geom::{Coord, Margins, Rect, Size};
use kas::id::{UpdateHandle, WidgetId};
use kas::layout::{AxisInfo, SizeRules};
use kas::manager::Manager;
use kas::shell::WindowSet;
use kas::theme::{SizeHandle, SizeModel, TextClass};
use kas::traits::{SendEvent, WidgetCore};
use kas::widget::button::TextButton;
use kas::widget::checkbox::CheckBox;
use kas::widget::label::Label;
use kas::widget::list::List;
use kas::widget::menu::menu_frame::MenuFrame;
use kas::widget::menu::SubMenu;
use kas::widget::window::{SimpleWindow, Window};

struct Sizes;

impl SizeHandle for Sizes {
    fn answers(&self) -> SizeModel {
        unreachable!()
    }
    fn outer_frame(&self) -> (Size, Size) {
        (Size(0, 0), Size(0, 0))
    }
    fn frame(&self) -> Size {
        Size(0, 0)
    }
    fn inner_margin(&self) -> Size {
        Size(0, 0)
    }
    fn outer_margin(&self) -> Size {
        Size(0, 0)
    }
    fn outer_margins(&self) -> Margins {
        Margins::zero()
    }
    fn line_height(&self, _class: TextClass) -> u32 {
        10
    }
    fn text_bound(&mut self, _text: &str, _class: TextClass, _axis: AxisInfo) -> SizeRules {
        SizeRules::fixed(10, (0, 0))
    }
    fn button_surround(&self) -> (Size, Size) {
        (Size(0, 0), Size(0, 0))
    }
    fn edit_surround(&self) -> (Size, Size) {
        (Size(0, 0), Size(0, 0))
    }
    fn checkbox(&self) -> Size {
        Size(10, 10)
    }
    fn radiobox(&self) -> Size {
        Size(10, 10)
    }
    fn scrollbar(&self) -> (u32, u32, u32) {
        (1, 1, 1)
    }
}

const LEFT: PressSource = PressSource::Mouse(MouseButton::Left);

#[derive(Clone, Copy, Debug, PartialEq)]
enum Message {
    Decr,
    Incr,
}

/// A label above two buttons, with the counter that the label shows.
struct Counter {
    display: Label,
    buttons: List<TextButton<Message>>,
    counter: usize,
    texts_set: usize,
}

impl Counter {
    fn new(mgr: &mut Manager) -> Counter {
        let mut display = Label::new(String::from("0"));
        let mut buttons = List::new_with_direction(
            Direction::Right,
            vec![TextButton::new(String::from("-"), Message::Decr), TextButton::new(String::from("+"), Message::Incr)],
        );
        let next = display.configure(mgr, WidgetId(2));
        buttons.configure(mgr, next);
        Counter { display, buttons, counter: 0, texts_set: 0 }
    }

    fn send(&mut self, mgr: &mut Manager, id: WidgetId, event: Event) -> Vec<Message> {
        let mut seen = Vec::new();
        if let Response::Msg(msg) = self.buttons.send(mgr, id, event) {
            seen.push(msg);
            self.counter = match msg {
                Message::Decr => self.counter.saturating_sub(1),
                Message::Incr => self.counter.saturating_add(1),
            };
            self.display.set_cow_string(format!("{}", self.counter));
            self.texts_set += 1;
        }
        seen
    }
}

#[test]
fn simple_counter() {
    let mut mgr = Manager::new();
    let mut counter = Counter::new(&mut mgr);
    assert_eq!(counter.display.get_text(), "0");
    let incr = counter.buttons.item(1).id();
    assert_eq!(incr, WidgetId(5));
    assert_eq!(counter.send(&mut mgr, incr, Event::Activate), vec![Message::Incr]);
    assert_eq!(counter.display.get_text(), "1");
    assert_eq!((counter.counter, counter.texts_set), (1, 1));
    let decr = counter.buttons.item(0).id();
    assert_eq!(counter.send(&mut mgr, decr, Event::Activate), vec![Message::Decr]);
    assert_eq!(counter.send(&mut mgr, decr, Event::Activate), vec![Message::Decr]);
    assert_eq!(counter.display.get_text(), "0");
    // an event that no button uses leads to no message and no new text
    assert_eq!(counter.send(&mut mgr, incr, Event::OpenPopup), Vec::new());
    assert_eq!(counter.texts_set, 3);
}

/// Two windows with a checkbox each, both following one handle.
fn two_windows(handle: UpdateHandle) -> Vec<(SimpleWindow<CheckBox>, Manager)> {
    let mut windows = Vec::new();
    for _ in 0..2 {
        let mut window = SimpleWindow::new(CheckBox::new().on_handle(handle));
        let mut mgr = Manager::new();
        window.configure_widgets(&mut mgr);
        window.resize(&mut Sizes, Size(10, 10));
        windows.push((window, mgr));
    }
    windows
}

#[test]
fn update_broadcast() {
    let handle = UpdateHandle::new(1);
    let mut windows = two_windows(handle);
    // a click in the first window checks its box; the program triggers an update
    let at = Coord(5, 5);
    {
        let (window, mgr) = &mut windows[0];
        window.handle_input(mgr, Input::PointerDown { source: LEFT, coord: at });
        let response = window.handle_input(mgr, Input::PointerUp { source: LEFT, coord: at });
        assert_eq!(response, Response::Msg(true));
        mgr.trigger_update(handle, 0);
        // nothing is delivered while the input is handled
        assert!(window.content().get_bool());
    }
    assert!(!windows[1].0.content().get_bool());
    {
        let (window, mgr) = &mut windows[1];
        window.handle_input(mgr, Input::PointerDown { source: LEFT, coord: at });
        window.handle_input(mgr, Input::PointerUp { source: LEFT, coord: at });
    }
    assert!(windows[1].0.content().get_bool());
    // before the next input, the update reaches every window, the first one too
    let pending = windows[0].1.take_pending();
    assert_eq!(pending.len(), 1);
    for update in pending {
        for (window, mgr) in windows.iter_mut() {
            let answers = mgr.update_handle(window, update);
            assert_eq!(answers, vec![Response::Nothing]);
        }
    }
    assert!(!windows[0].0.content().get_bool());
    assert!(!windows[1].0.content().get_bool());
    assert!(windows[0].1.take_pending().is_empty());
}

#[test]
fn an_update_reaches_only_those_who_registered_before() {
    let handle = UpdateHandle::new(1);
    let mut list = List::new(vec![
        CheckBox::new().on_handle(handle),
        CheckBox::new(),
        CheckBox::new().on_handle(UpdateHandle::new(2)),
        CheckBox::new().on_handle(handle),
    ]);
    let mut mgr = Manager::new();
    mgr.configure(&mut list);
    assert_eq!(mgr.registered(handle), vec![WidgetId(2), WidgetId(5)]);
    mgr.trigger_update(handle, 1);
    mgr.trigger_update(UpdateHandle::new(9), 1);
    // the third box registers for the handle when the update has been triggered
    mgr.update_on_handle(handle, WidgetId(3));
    let updates = mgr.take_pending();
    let answers = mgr.update_handle(&mut list, updates[0]);
    assert_eq!(answers, vec![Response::Nothing, Response::Nothing]);
    let states: Vec<bool> = (0..4).map(|i| list.item(i).get_bool()).collect();
    assert_eq!(states, vec![true, false, false, true]);
    // an update on a handle that nobody follows reaches nobody
    assert_eq!(mgr.update_handle(&mut list, updates[1]), Vec::new());
}

#[test]
fn an_unhandled_event_comes_back_as_it_was_sent() {
    // a label in a frame in a column in a sub-menu in a window
    let entries = vec![MenuFrame::new(TextButton::new(String::from("x"), 0u8))];
    let mut window = SimpleWindow::new(SubMenu::new(String::from("m"), entries));
    let mut mgr = Manager::new();
    window.configure_widgets(&mut mgr);
    let leaf = WidgetId(5);
    assert_eq!(window.find(leaf).map(|c| c.last), Some(leaf));
    let events = [
        Event::Nothing,
        Event::OpenPopup,
        Event::Control(ControlKey::Down),
        Event::ReceivedCharacter('ß'),
        Event::HandleUpdate { handle: UpdateHandle::new(u64::MAX), payload: u64::MAX },
        Event::PressStart { source: PressSource::Mouse(MouseButton::Other(7)), start_id: leaf, coord: Coord(-1, 1) },
        Event::PressEnd { source: PressSource::Touch(9), end_id: None, coord: Coord(i32::MIN, i32::MAX) },
    ];
    for event in events {
        assert_eq!(window.send(&mut mgr, leaf, event), Response::Unhandled(event));
    }
    assert_eq!(mgr.popup_count(), 0);
    // an event that the leaf uses does not come back
    assert_eq!(window.send(&mut mgr, leaf, Event::Activate), Response::Msg(0));
}

#[test]
fn a_disabled_free_tree_keeps_its_rects_between_layouts() {
    let mut window = SimpleWindow::new(CheckBox::new());
    let mut mgr = Manager::new();
    window.configure_widgets(&mut mgr);
    window.resize(&mut Sizes, Size(10, 10));
    let before = window.content().rect();
    window.handle_input(&mut mgr, Input::PointerDown { source: LEFT, coord: Coord(1, 1) });
    window.handle_input(&mut mgr, Input::PointerUp { source: LEFT, coord: Coord(1, 1) });
    assert_eq!(window.content().rect(), before);
    assert_eq!(before, Rect::new(Coord(0, 0), Size(10, 10)));
}

/// Two windows under one event loop, with a checkbox each that follows one
/// handle.
fn window_set(handle: UpdateHandle) -> WindowSet<SimpleWindow<CheckBox>> {
    let mut set = WindowSet::new();
    for _ in 0..2 {
        let index = set.add(SimpleWindow::new(CheckBox::new().on_handle(handle)));
        set.window_mut(index).resize(&mut Sizes, Size(10, 10));
    }
    set
}

#[test]
fn an_update_is_delivered_to_all_windows_before_the_next_input() {
    let handle = UpdateHandle::new(1);
    let mut set = window_set(handle);
    assert_eq!(set.len(), 2);
    let at = Coord(5, 5);
    set.handle_input(0, Input::PointerDown { source: LEFT, coord: at });
    assert_eq!(set.handle_input(0, Input::PointerUp { source: LEFT, coord: at }), Response::Msg(true));
    // the program answers the message with an update
    set.trigger_update(0, handle, 1);
    assert!(set.window(0).content().get_bool());
    assert!(!set.window(1).content().get_bool());
    // the next input goes to the second window: the click unchecks what the update has checked
    set.handle_input(1, Input::PointerDown { source: LEFT, coord: at });
    assert!(set.window(1).content().get_bool());
    assert_eq!(set.handle_input(1, Input::PointerUp { source: LEFT, coord: at }), Response::Msg(false));
    assert!(set.window(0).content().get_bool());
    assert!(!set.window(1).content().get_bool());
    assert!(set.manager(0).registered(handle) == vec![WidgetId(2)]);
}

#[test]
fn delivery_reaches_the_window_that_triggered_too() {
    let handle = UpdateHandle::new(1);
    let mut set = window_set(handle);
    set.trigger_update(1, handle, 7);
    set.trigger_update(1, UpdateHandle::new(2), 7);
    set.deliver();
    assert!(set.window(0).content().get_bool());
    assert!(set.window(1).content().get_bool());
    // updates are delivered in the order in which they were triggered
    set.trigger_update(0, handle, 0);
    set.trigger_update(0, handle, 3);
    set.trigger_update(1, handle, 0);
    set.deliver();
    assert!(!set.window(0).content().get_bool());
    assert!(!set.window(1).content().get_bool());
    // nothing waits any more
    set.deliver();
    assert!(!set.window(0).content().get_bool());
}

#[test]
fn a_window_that_registers_after_the_trigger_is_not_told() {
    let handle = UpdateHandle::new(1);
    let mut set = WindowSet::new();
    set.add(SimpleWindow::new(CheckBox::new().on_handle(handle)));
    set.trigger_update(0, handle, 1);
    // the second window is added, and its box registers, when the update has been triggered
    set.add(SimpleWindow::new(CheckBox::new().on_handle(handle)));
    set.deliver();
    assert!(set.window(0).content().get_bool());
    assert!(!set.window(1).content().get_bool());
    // the next update reaches both
    set.trigger_update(1, handle, 0);
    set.trigger_update(1, handle, 5);
    set.deliver();
    assert!(set.window(0).content().get_bool());
    assert!(set.window(1).content().get_bool());
    // a widget of the first window registers by hand for another handle, after an update on it
    let other = UpdateHandle::new(2);
    set.trigger_update(1, other, 0);
    set.update_on_handle(0, other, WidgetId(2));
    set.deliver();
    assert!(set.window(0).content().get_bool());
    assert_eq!(set.manager(0).registered(other), vec![WidgetId(2)]);
}
