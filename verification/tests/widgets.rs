use kas::class::{HasBool, HasText};
use kas::data::{Align, AlignHints, CoreData, Direction, TkAction};
use kas::driver::Input;
use kas::event::{ControlKey, CursorIcon, Event, HighlightState, MouseButton, PressSource, Response};
use kas::geom::{Coord, Margins, Rect, Size};
use kas::id::{UpdateHandle, WidgetId};
use kas::layout::{AxisInfo, SizeRules, StretchPolicy};
use kas::manager::Manager;
use kas::theme::{DrawAreas, DrawHandle, DrawLog, SizeHandle, SizeModel, TextClass, TextProperties};
use kas::traits::{draw_clipped, Collector, Handler, Layout, SendEvent, WidgetCore};
use kas::widget::button::TextButton;
use kas::widget::checkbox::CheckBox;
use kas::widget::label::Label;
use kas::widget::list::List;
use kas::widget::menu::menu_frame::MenuFrame;
use kas::widget::menu::{MenuButton, SubMenu};
use kas::widget::window::{action_close, solve, MessageBox, SimpleWindow, Window};

struct Sizes;

impl SizeHandle for Sizes {
    fn answers(&self) -> SizeModel {
        unreachable!()
    }
    fn outer_frame(&self) -> (Size, Size) {
        (Size(2, 2), Size(2, 2))
    }
    fn frame(&self) -> Size {
        Size(2, 2)
    }
    fn inner_margin(&self) -> Size {
        Size(1, 1)
    }
    fn outer_margin(&self) -> Size {
        Size(3, 3)
    }
    fn outer_margins(&self) -> Margins {
        Margins { horiz: (3, 3), vert: (3, 3) }
    }
    fn line_height(&self, _class: TextClass) -> u32 {
        10
    }
    fn text_bound(&mut self, text: &str, _class: TextClass, axis: AxisInfo) -> SizeRules {
        if axis.is_vertical() {
            SizeRules::fixed(10, (0, 0))
        } else {
            SizeRules::new(8 * text.len() as u32, 8 * text.len() as u32, (1, 1), StretchPolicy::Fixed)
        }
    }
    fn button_surround(&self) -> (Size, Size) {
        (Size(4, 4), Size(4, 4))
    }
    fn edit_surround(&self) -> (Size, Size) {
        (Size(2, 2), Size(2, 2))
    }
    fn checkbox(&self) -> Size {
        Size(12, 13)
    }
    fn radiobox(&self) -> Size {
        Size(12, 12)
    }
    fn scrollbar(&self) -> (u32, u32, u32) {
        (8, 16, 32)
    }
}

#[derive(Debug, PartialEq)]
enum Drawn {
    Frame(Rect),
    MenuFrame(Rect),
    Text(Rect, String, TextProperties),
    Button(Rect, HighlightState),
    Checkbox(Rect, bool, HighlightState),
    ClipBegin(Rect, Coord),
    ClipEnd,
}

struct Recorder {
    calls: Vec<Drawn>,
}

impl DrawHandle for Recorder {
    fn drawn(&self) -> DrawLog {
        unreachable!()
    }
    fn target(&self) -> Rect {
        unreachable!()
    }
    fn outer(&self) -> DrawAreas {
        unreachable!()
    }
    fn clip_region(&mut self, rect: Rect, offset: Coord) {
        self.calls.push(Drawn::ClipBegin(rect, offset));
    }
    fn end_clip_region(&mut self) {
        self.calls.push(Drawn::ClipEnd);
    }
    fn target_rect(&self) -> Rect {
        Rect::new(Coord(0, 0), Size(200, 100))
    }
    fn outer_frame(&mut self, rect: Rect) {
        self.calls.push(Drawn::Frame(rect));
    }
    fn menu_frame(&mut self, rect: Rect) {
        self.calls.push(Drawn::MenuFrame(rect));
    }
    fn text(&mut self, rect: Rect, text: &str, props: TextProperties) {
        self.calls.push(Drawn::Text(rect, text.to_string(), props));
    }
    fn button(&mut self, rect: Rect, highlights: HighlightState) {
        self.calls.push(Drawn::Button(rect, highlights));
    }
    fn edit_box(&mut self, _rect: Rect, _highlights: HighlightState) {}
    fn checkbox(&mut self, rect: Rect, checked: bool, highlights: HighlightState) {
        self.calls.push(Drawn::Checkbox(rect, checked, highlights));
    }
    fn radiobox(&mut self, _rect: Rect, _checked: bool, _highlights: HighlightState) {}
    fn scrollbar(&mut self, _rect: Rect, _h_rect: Rect, _dir: Direction, _highlights: HighlightState) {}
}

const LEFT: PressSource = PressSource::Mouse(MouseButton::Left);
const RIGHT: PressSource = PressSource::Mouse(MouseButton::Right);

fn horizontal() -> AxisInfo {
    AxisInfo::new(false, None)
}

fn vertical() -> AxisInfo {
    AxisInfo::new(true, None)
}

fn button_text() -> TextProperties {
    TextProperties { class: TextClass::Button, horiz: Align::Centre, vert: Align::Centre }
}

#[test]
fn a_new_widget_is_not_configured() {
    let label = Label::new(String::from("hello"));
    assert_eq!(*label.core_data(), CoreData::unset());
    assert!(!label.id().is_assigned());
    assert_eq!(CoreData::default(), CoreData::unset());
    assert_eq!(WidgetId::first(), WidgetId(1));
    assert_eq!(WidgetId(4).next(), WidgetId(5));
}

#[test]
fn a_label_shows_its_text() {
    let mut label = Label::new(String::from("hello"));
    let mut mgr = Manager::new();
    assert_eq!(label.configure(&mut mgr, WidgetId(7)), WidgetId(8));
    assert_eq!(label.id(), WidgetId(7));
    assert_eq!(label.core_data().last, WidgetId(7));
    assert_eq!(label.widget_name(), "Label");
    assert_eq!((label.len(), label.get(0)), (0, None));
    assert!(!label.key_nav());
    assert_eq!(label.cursor_icon(), CursorIcon::Default);
    assert_eq!(label.get_text(), "hello");
    assert_eq!(label.size_rules(&mut Sizes, horizontal()), SizeRules::fixed(40, (1, 1)));
    let rect = Rect::new(Coord(5, 5), Size(40, 10));
    label.set_rect(rect, AlignHints::new(None, Some(Align::End)));
    assert_eq!(label.rect(), rect);
    assert_eq!(label.find_id(Coord(5, 5)), Some(WidgetId(7)));
    assert_eq!(label.find_id(Coord(45, 5)), None);
    assert_eq!(label.set_cow_string(String::from("bye")), TkAction::Redraw);
    assert_eq!(label.get_text(), "bye");
    let mut draw = Recorder { calls: Vec::new() };
    label.draw(&mut draw, mgr.state(), false);
    let props = TextProperties { class: TextClass::Label, horiz: Align::Begin, vert: Align::End };
    assert_eq!(draw.calls, vec![Drawn::Text(rect, String::from("bye"), props)]);
}

#[test]
fn a_label_hands_every_event_back() {
    let mut label = Label::new(String::from("hello"));
    let mut mgr = Manager::new();
    label.configure(&mut mgr, WidgetId(1));
    let events = [
        Event::Activate,
        Event::Nothing,
        Event::OpenPopup,
        Event::Control(ControlKey::Tab),
        Event::ReceivedCharacter('x'),
        Event::PressStart { source: LEFT, start_id: WidgetId(1), coord: Coord(1, 2) },
        Event::PressEnd { source: LEFT, end_id: None, coord: Coord(1, 2) },
        Event::HandleUpdate { handle: UpdateHandle::new(1), payload: 2 },
    ];
    for event in events {
        assert!(matches!(label.send(&mut mgr, WidgetId(1), event), Response::Unhandled(e) if e == event));
        assert!(matches!(label.handle(&mut mgr, event), Response::Unhandled(e) if e == event));
    }
    assert_eq!(mgr.grab_holder(LEFT), None);
}

#[test]
fn a_button_sends_its_message_when_activated() {
    let mut button = TextButton::new(String::from("OK"), 42u8);
    let mut mgr = Manager::new();
    button.configure(&mut mgr, WidgetId(1));
    assert!(button.activation_via_press());
    assert_eq!(button.send(&mut mgr, WidgetId(1), Event::Activate), Response::Msg(42));
    assert_eq!(button.send(&mut mgr, WidgetId(2), Event::Activate), Response::Unhandled(Event::Activate));
    assert_eq!(button.send(&mut mgr, WidgetId(1), Event::OpenPopup), Response::Unhandled(Event::OpenPopup));
    assert_eq!(button.get_text(), "OK");
    button.set_cow_string(String::from("Yes"));
    assert_eq!(button.get_text(), "Yes");
    assert_eq!(button.send(&mut mgr, WidgetId(1), Event::Activate), Response::Msg(42));
}

#[test]
fn a_button_is_as_large_as_its_text_and_sides() {
    let mut button = TextButton::new(String::from("OK"), 42u8);
    // text 16 with margins of 1 inside, sides of 4 and 4, margins of 3 outside
    assert_eq!(
        button.size_rules(&mut Sizes, horizontal()),
        SizeRules::new(26, 26, (3, 3), StretchPolicy::Fixed)
    );
    assert_eq!(button.size_rules(&mut Sizes, vertical()), SizeRules::new(18, 18, (3, 3), StretchPolicy::Fixed));
}

#[test]
fn a_press_on_a_button_activates_it_on_release() {
    let mut window = SimpleWindow::new(TextButton::new(String::from("OK"), 42u8));
    let mut mgr = Manager::new();
    window.configure_widgets(&mut mgr);
    window.resize(&mut Sizes, Size(100, 50));
    assert_eq!(window.content().rect(), Rect::new(Coord(0, 0), Size(100, 50)));
    let at = Coord(10, 10);
    assert_eq!(window.handle_input(&mut mgr, Input::PointerDown { source: LEFT, coord: at }), Response::Nothing);
    assert_eq!(mgr.grab_holder(LEFT), Some(WidgetId(2)));
    assert!(mgr.state().is_depressed(WidgetId(2)));
    // the press leaves the button: it is no longer shown as pressed
    let away = Coord(150, 10);
    assert_eq!(window.handle_input(&mut mgr, Input::PointerMove { source: LEFT, coord: away }), Response::Nothing);
    assert!(!mgr.state().is_depressed(WidgetId(2)));
    assert_eq!(mgr.grab_holder(LEFT), Some(WidgetId(2)));
    assert_eq!(mgr.grab_of(LEFT).map(|g| g.coord), Some(away));
    window.handle_input(&mut mgr, Input::PointerMove { source: LEFT, coord: at });
    assert!(mgr.state().is_depressed(WidgetId(2)));
    assert_eq!(window.handle_input(&mut mgr, Input::PointerUp { source: LEFT, coord: at }), Response::Msg(42));
    assert_eq!(mgr.grab_holder(LEFT), None);
}

#[test]
fn a_release_away_from_the_button_does_not_activate_it() {
    let mut window = SimpleWindow::new(TextButton::new(String::from("OK"), 42u8));
    let mut mgr = Manager::new();
    window.configure_widgets(&mut mgr);
    window.resize(&mut Sizes, Size(100, 50));
    window.handle_input(&mut mgr, Input::PointerDown { source: LEFT, coord: Coord(10, 10) });
    let away = Coord(150, 10);
    let end = Event::PressEnd { source: LEFT, end_id: None, coord: away };
    assert_eq!(
        window.handle_input(&mut mgr, Input::PointerUp { source: LEFT, coord: away }),
        Response::Unhandled(end)
    );
    // the grab ends all the same
    assert_eq!(mgr.grab_holder(LEFT), None);
}

#[test]
fn input_without_a_target_is_dropped() {
    let mut window = SimpleWindow::new(TextButton::new(String::from("OK"), 42u8));
    let mut mgr = Manager::new();
    window.configure_widgets(&mut mgr);
    window.resize(&mut Sizes, Size(100, 50));
    assert_eq!(window.handle_input(&mut mgr, Input::PointerUp { source: LEFT, coord: Coord(1, 1) }), Response::Nothing);
    assert_eq!(
        window.handle_input(&mut mgr, Input::PointerDown { source: LEFT, coord: Coord(500, 1) }),
        Response::Nothing
    );
    assert_eq!(mgr.grab_holder(LEFT), None);
    assert_eq!(window.handle_input(&mut mgr, Input::Control(ControlKey::Return)), Response::Nothing);
    assert_eq!(window.handle_input(&mut mgr, Input::Character('a')), Response::Nothing);
    // a move without a grab sets what is hovered over
    window.handle_input(&mut mgr, Input::PointerMove { source: LEFT, coord: Coord(10, 10) });
    assert_eq!(mgr.hover(), Some(WidgetId(2)));
    // a press of another button than the left is handed back, and clears the focus
    mgr.set_key_focus(Some(WidgetId(2)));
    let at = Coord(10, 10);
    let start = Event::PressStart { source: RIGHT, start_id: WidgetId(2), coord: at };
    assert_eq!(
        window.handle_input(&mut mgr, Input::PointerDown { source: RIGHT, coord: at }),
        Response::Unhandled(start)
    );
    assert_eq!(mgr.key_focus(), None);
    assert_eq!(mgr.grab_holder(RIGHT), None);
}

#[test]
fn keys_go_to_the_focus() {
    let mut window = SimpleWindow::new(TextButton::new(String::from("OK"), 42u8));
    let mut mgr = Manager::new();
    window.configure_widgets(&mut mgr);
    mgr.set_key_focus(Some(WidgetId(2)));
    let key = Event::Control(ControlKey::Escape);
    assert_eq!(window.handle_input(&mut mgr, Input::Control(ControlKey::Escape)), Response::Unhandled(key));
    assert_eq!(
        window.handle_input(&mut mgr, Input::Character('q')),
        Response::Unhandled(Event::ReceivedCharacter('q'))
    );
}

#[test]
fn losing_the_focus_ends_all_grabs() {
    let mut window = SimpleWindow::new(TextButton::new(String::from("OK"), 42u8));
    let mut mgr = Manager::new();
    window.configure_widgets(&mut mgr);
    window.resize(&mut Sizes, Size(100, 50));
    window.handle_input(&mut mgr, Input::PointerDown { source: LEFT, coord: Coord(10, 10) });
    window.handle_input(&mut mgr, Input::PointerDown { source: PressSource::Touch(1), coord: Coord(10, 10) });
    assert_eq!(mgr.grab_holder(LEFT), Some(WidgetId(2)));
    assert_eq!(mgr.grab_holder(PressSource::Touch(1)), Some(WidgetId(2)));
    // a second press of a grabbed source is dropped
    assert_eq!(
        window.handle_input(&mut mgr, Input::PointerDown { source: LEFT, coord: Coord(10, 10) }),
        Response::Nothing
    );
    mgr.set_hover(Some(WidgetId(2)));
    assert_eq!(window.handle_input(&mut mgr, Input::FocusLost), Response::Nothing);
    assert_eq!(mgr.grab_holder(LEFT), None);
    assert_eq!(mgr.grab_holder(PressSource::Touch(1)), None);
    assert_eq!(mgr.hover(), None);
}

#[test]
fn a_checkbox_toggles_and_follows_its_handle() {
    let handle = UpdateHandle::new(3);
    let mut check = CheckBox::new().on_handle(handle);
    let mut mgr = Manager::new();
    check.configure(&mut mgr, WidgetId(1));
    assert_eq!(mgr.registered(handle), vec![WidgetId(1)]);
    assert!(!check.get_bool());
    assert!(check.key_nav());
    assert_eq!(check.send(&mut mgr, WidgetId(1), Event::Activate), Response::Msg(true));
    assert!(check.get_bool());
    assert_eq!(check.send(&mut mgr, WidgetId(1), Event::Activate), Response::Msg(false));
    let set = Event::HandleUpdate { handle, payload: 5 };
    assert_eq!(check.send(&mut mgr, WidgetId(1), set), Response::Nothing);
    assert!(check.get_bool());
    let clear = Event::HandleUpdate { handle, payload: 0 };
    assert_eq!(check.send(&mut mgr, WidgetId(1), clear), Response::Nothing);
    assert!(!check.get_bool());
    let other = Event::HandleUpdate { handle: UpdateHandle::new(4), payload: 1 };
    assert_eq!(check.send(&mut mgr, WidgetId(1), other), Response::Unhandled(other));
    assert!(!check.get_bool());
    assert_eq!(check.set_bool(true), TkAction::Redraw);
    assert!(check.with_state(false).on_handle(handle).get_bool() == false);
}

#[test]
fn a_checkbox_without_a_handle_follows_none() {
    let mut check = CheckBox::new();
    let mut mgr = Manager::new();
    check.configure(&mut mgr, WidgetId(1));
    let update = Event::HandleUpdate { handle: UpdateHandle::new(3), payload: 1 };
    assert_eq!(check.send(&mut mgr, WidgetId(1), update), Response::Unhandled(update));
    assert_eq!(check.size_rules(&mut Sizes, horizontal()), SizeRules::fixed(12, (3, 3)));
    assert_eq!(check.size_rules(&mut Sizes, vertical()), SizeRules::fixed(13, (3, 3)));
    check.set_rect(Rect::new(Coord(1, 1), Size(12, 13)), AlignHints::unhinted());
    mgr.set_hover(Some(WidgetId(1)));
    let mut draw = Recorder { calls: Vec::new() };
    check.draw(&mut draw, mgr.state(), false);
    check.set_bool(true);
    check.draw(&mut draw, mgr.state(), true);
    assert_eq!(
        draw.calls,
        vec![
            Drawn::Checkbox(
                Rect::new(Coord(1, 1), Size(12, 13)),
                false,
                HighlightState { hover: true, depress: false, key_focus: false }
            ),
            Drawn::Checkbox(Rect::new(Coord(1, 1), Size(12, 13)), true, HighlightState::plain()),
        ]
    );
}

#[test]
fn a_frame_surrounds_its_content() {
    let mut frame = MenuFrame::new(TextButton::new(String::from("OK"), 1u8));
    let mut mgr = Manager::new();
    assert_eq!(frame.configure(&mut mgr, WidgetId(1)), WidgetId(3));
    assert_eq!((frame.id(), frame.core_data().last, frame.inner.id()), (WidgetId(1), WidgetId(2), WidgetId(2)));
    assert_eq!((frame.len(), frame.get(0).map(|c| c.id), frame.get(1)), (1, Some(WidgetId(2)), None));
    // button 26 with margins of 3, inside a frame of 2 and 2
    assert_eq!(frame.size_rules(&mut Sizes, horizontal()), SizeRules::new(36, 36, (0, 0), StretchPolicy::Fixed));
    assert_eq!(frame.size_rules(&mut Sizes, vertical()), SizeRules::new(28, 28, (0, 0), StretchPolicy::Fixed));
    frame.set_rect(Rect::new(Coord(10, 10), Size(100, 50)), AlignHints::unhinted());
    assert_eq!(frame.rect(), Rect::new(Coord(10, 10), Size(100, 50)));
    assert_eq!(frame.inner.rect(), Rect::new(Coord(15, 15), Size(90, 40)));
    assert_eq!(frame.find_id(Coord(12, 12)), Some(WidgetId(1)));
    assert_eq!(frame.find_id(Coord(15, 15)), Some(WidgetId(2)));
    assert_eq!(frame.find_id(Coord(9, 12)), None);
    assert_eq!(frame.send(&mut mgr, WidgetId(2), Event::Activate), Response::Msg(1));
    assert_eq!(frame.send(&mut mgr, WidgetId(1), Event::Activate), Response::Unhandled(Event::Activate));
    assert_eq!(frame.get_text(), "OK");
    frame.set_cow_string(String::from("No"));
    assert_eq!(frame.inner.get_text(), "No");
    let mut draw = Recorder { calls: Vec::new() };
    frame.draw(&mut draw, mgr.state(), false);
    assert_eq!(
        draw.calls,
        vec![
            Drawn::MenuFrame(Rect::new(Coord(10, 10), Size(100, 50))),
            Drawn::Button(Rect::new(Coord(15, 15), Size(90, 40)), HighlightState::plain()),
            Drawn::Text(Rect::new(Coord(15, 15), Size(90, 40)), String::from("No"), button_text()),
        ]
    );
}

#[test]
fn a_frame_passes_the_state_of_a_checkbox_through() {
    let mut frame = MenuFrame::new(CheckBox::new());
    assert!(!frame.get_bool());
    frame.set_bool(true);
    assert!(frame.get_bool());
    assert!(frame.inner.get_bool());
}

fn three() -> (List<TextButton<u8>>, Manager) {
    let mut list = List::new_with_direction(
        Direction::Right,
        vec![
            TextButton::new(String::from("a"), 1u8),
            TextButton::new(String::from("bb"), 2u8),
            TextButton::new(String::from("ccc"), 3u8),
        ],
    );
    let mut mgr = Manager::new();
    mgr.configure(&mut list);
    (list, mgr)
}

#[test]
fn a_list_numbers_its_items_in_order() {
    let (list, _) = three();
    assert_eq!(list.id(), WidgetId(1));
    assert_eq!(list.core_data().last, WidgetId(4));
    assert_eq!(list.len(), 3);
    assert_eq!(list.get(0).map(|c| c.id), Some(WidgetId(2)));
    assert_eq!(list.get(2).map(|c| c.id), Some(WidgetId(4)));
    assert_eq!(list.get(3), None);
    assert_eq!(list.find(WidgetId(1)).map(|c| c.id), Some(WidgetId(1)));
    assert_eq!(list.find(WidgetId(3)), Some(*list.item(1).core_data()));
    assert_eq!(list.find(WidgetId(5)), None);
    assert_eq!(list.find(WidgetId(0)), None);
    assert_eq!(list.find_child(WidgetId(4)), Some(2));
    assert_eq!(list.find_child(WidgetId(1)), None);
    assert!(list.is_ancestor_of(WidgetId(4)));
    assert!(!list.is_ancestor_of(WidgetId(5)));
    assert_eq!(list.spatial_range(), (0, 2));
    assert_eq!(list.direction(), Direction::Right);
    let mut seen = Collector::new();
    list.walk(&mut seen);
    let ids: Vec<u32> = seen.cores.iter().map(|c| c.id.0).collect();
    assert_eq!(ids, vec![1, 2, 3, 4]);
}

#[test]
fn a_list_lays_its_items_out_in_a_row() {
    let (mut list, _) = three();
    // the buttons need 8 * letters + 10, with margins of 3
    assert_eq!(list.size_rules(&mut Sizes, horizontal()), SizeRules::new(84, 84, (3, 3), StretchPolicy::Fixed));
    assert_eq!(list.size_rules(&mut Sizes, vertical()), SizeRules::new(18, 18, (3, 3), StretchPolicy::Fixed));
    list.set_rect(Rect::new(Coord(10, 20), Size(200, 18)), AlignHints::unhinted());
    assert_eq!(list.item(0).rect(), Rect::new(Coord(10, 20), Size(18, 18)));
    assert_eq!(list.item(1).rect(), Rect::new(Coord(31, 20), Size(26, 18)));
    assert_eq!(list.item(2).rect(), Rect::new(Coord(60, 20), Size(34, 18)));
    assert_eq!(list.find_id(Coord(31, 20)), Some(WidgetId(3)));
    assert_eq!(list.find_id(Coord(29, 20)), Some(WidgetId(1)));
    assert_eq!(list.find_id(Coord(29, 40)), None);
}

#[test]
fn a_column_runs_downwards() {
    let mut list = List::new(vec![TextButton::new(String::from("a"), 1u8), TextButton::new(String::from("b"), 2u8)]);
    let mut mgr = Manager::new();
    mgr.configure(&mut list);
    assert_eq!(list.direction(), Direction::Down);
    assert_eq!(list.size_rules(&mut Sizes, vertical()), SizeRules::new(39, 39, (3, 3), StretchPolicy::Fixed));
    assert_eq!(list.size_rules(&mut Sizes, horizontal()), SizeRules::new(18, 18, (3, 3), StretchPolicy::Fixed));
    list.set_rect(Rect::new(Coord(0, 0), Size(50, 100)), AlignHints::unhinted());
    assert_eq!(list.item(0).rect(), Rect::new(Coord(0, 0), Size(50, 18)));
    assert_eq!(list.item(1).rect(), Rect::new(Coord(0, 21), Size(50, 18)));
}

#[test]
fn a_list_sends_events_to_the_item_they_are_for() {
    let (mut list, mut mgr) = three();
    assert_eq!(list.send(&mut mgr, WidgetId(3), Event::Activate), Response::Msg(2));
    assert_eq!(list.send(&mut mgr, WidgetId(4), Event::Activate), Response::Msg(3));
    assert_eq!(list.send(&mut mgr, WidgetId(1), Event::Activate), Response::Unhandled(Event::Activate));
    assert_eq!(list.send(&mut mgr, WidgetId(9), Event::Activate), Response::Unhandled(Event::Activate));
    assert_eq!(list.handle(&mut mgr, Event::Activate), Response::Unhandled(Event::Activate));
    list.item_mut(0).set_cow_string(String::from("z"));
    assert_eq!(list.item(0).get_text(), "z");
}

#[test]
fn an_empty_list_is_a_widget_too() {
    let mut list: List<Label> = List::new(Vec::new());
    let mut mgr = Manager::new();
    assert_eq!(list.configure(&mut mgr, WidgetId(5)), WidgetId(6));
    assert_eq!((list.id(), list.core_data().last, list.len()), (WidgetId(5), WidgetId(5), 0));
    assert_eq!(list.spatial_range(), (0, usize::MAX));
    assert_eq!(list.size_rules(&mut Sizes, vertical()), SizeRules::empty(StretchPolicy::Fixed));
}

#[test]
fn boxed_widgets_are_widgets() {
    let mut list = List::new(vec![
        Box::new(TextButton::new(String::from("a"), 1u8)),
        Box::new(TextButton::new(String::from("b"), 2u8)),
    ]);
    let mut mgr = Manager::new();
    mgr.configure(&mut list);
    assert_eq!(list.item(1).id(), WidgetId(3));
    assert_eq!(list.item(1).widget_name(), "TextButton");
    assert_eq!(list.send(&mut mgr, WidgetId(3), Event::Activate), Response::Msg(2));
    let mut boxed = Box::new(Label::new(String::from("x")));
    assert_eq!(boxed.configure(&mut mgr, WidgetId(9)), WidgetId(10));
    assert_eq!(boxed.size_rules(&mut Sizes, horizontal()), SizeRules::fixed(8, (1, 1)));
    boxed.set_rect(Rect::new(Coord(0, 0), Size(8, 10)), AlignHints::unhinted());
    assert_eq!(boxed.find_id(Coord(1, 1)), Some(WidgetId(9)));
    assert_eq!(boxed.find(WidgetId(9)).map(|c| c.rect), Some(Rect::new(Coord(0, 0), Size(8, 10))));
    assert!(!boxed.activation_via_press());
}

#[test]
fn a_menu_button_opens_and_closes_its_popup() {
    let popup = MenuFrame::new(TextButton::new(String::from("Go"), 9u8));
    let mut menu = MenuButton::new(String::from("Menu"), popup);
    let mut mgr = Manager::new();
    mgr.configure(&mut menu);
    assert!(menu.key_nav());
    assert_eq!(menu.spatial_range(), (0, usize::MAX));
    assert_eq!(menu.size_rules(&mut Sizes, horizontal()), SizeRules::new(42, 42, (3, 3), StretchPolicy::Fixed));
    menu.set_rect(Rect::new(Coord(0, 0), Size(42, 18)), AlignHints::unhinted());
    menu.popup_size_rules(&mut Sizes, horizontal());
    menu.popup_size_rules(&mut Sizes, vertical());
    menu.set_popup_rect(Rect::new(Coord(0, 18), Size(60, 40)), AlignHints::unhinted());
    // while the menu is closed, the popup is not found
    assert_eq!(menu.find_id(Coord(10, 30)), None);
    assert_eq!(menu.send(&mut mgr, WidgetId(1), Event::Activate), Response::Nothing);
    assert!(menu.menu_is_open());
    assert_eq!(mgr.popup_count(), 1);
    assert_eq!(mgr.top_popup().map(|p| (p.popup.id, p.popup.parent)), Some((WidgetId(2), WidgetId(1))));
    assert_eq!(menu.find_id(Coord(10, 30)), Some(WidgetId(3)));
    assert_eq!(menu.find_id(Coord(1, 19)), Some(WidgetId(2)));
    let mut draw = Recorder { calls: Vec::new() };
    menu.draw(&mut draw, mgr.state(), false);
    let pressed = HighlightState { hover: false, depress: true, key_focus: false };
    assert_eq!(
        draw.calls,
        vec![
            Drawn::Button(Rect::new(Coord(0, 0), Size(42, 18)), pressed),
            Drawn::Text(Rect::new(Coord(0, 0), Size(42, 18)), String::from("Menu"), button_text()),
        ]
    );
    // a message from the popup closes the menu
    assert_eq!(menu.send(&mut mgr, WidgetId(3), Event::Activate), Response::Msg(9));
    assert!(!menu.menu_is_open());
    assert_eq!(mgr.popup_count(), 0);
    assert_eq!(menu.send(&mut mgr, WidgetId(1), Event::Activate), Response::Nothing);
    assert_eq!(menu.send(&mut mgr, WidgetId(1), Event::Activate), Response::Nothing);
    assert!(!menu.menu_is_open());
    assert_eq!(menu.get_text(), "Menu");
}

#[test]
fn a_press_on_a_menu_button_opens_the_menu_for_the_release() {
    let popup = MenuFrame::new(TextButton::new(String::from("Go"), 9u8));
    let mut menu = MenuButton::new(String::from("Menu"), popup);
    let mut mgr = Manager::new();
    mgr.configure(&mut menu);
    menu.set_rect(Rect::new(Coord(0, 0), Size(42, 18)), AlignHints::unhinted());
    menu.popup_size_rules(&mut Sizes, horizontal());
    menu.popup_size_rules(&mut Sizes, vertical());
    menu.set_popup_rect(Rect::new(Coord(0, 18), Size(60, 40)), AlignHints::unhinted());
    let on = Coord(5, 5);
    assert_eq!(mgr.dispatch(&mut menu, Input::PointerDown { source: LEFT, coord: on }), Response::Nothing);
    assert_eq!(mgr.grab_holder(LEFT), Some(WidgetId(1)));
    assert!(!menu.menu_is_open());
    assert_eq!(mgr.dispatch(&mut menu, Input::PointerMove { source: LEFT, coord: on }), Response::Nothing);
    assert!(menu.menu_is_open());
    // the press ends on the entry in the popup
    let entry = Coord(10, 30);
    assert_eq!(mgr.dispatch(&mut menu, Input::PointerUp { source: LEFT, coord: entry }), Response::Msg(9));
    assert!(!menu.menu_is_open());
    assert_eq!(mgr.grab_holder(LEFT), None);
    // a click opens the menu and leaves it open
    mgr.dispatch(&mut menu, Input::PointerDown { source: LEFT, coord: on });
    assert_eq!(mgr.dispatch(&mut menu, Input::PointerUp { source: LEFT, coord: on }), Response::Nothing);
    assert!(menu.menu_is_open());
    // a press elsewhere closes it and comes back as it was
    let outside = Event::PressStart { source: LEFT, start_id: WidgetId(50), coord: Coord(150, 5) };
    assert_eq!(menu.send(&mut mgr, WidgetId(1), outside), Response::Unhandled(outside));
    assert!(!menu.menu_is_open());
    assert_eq!(mgr.popup_count(), 0);
}

#[test]
fn a_message_box_sends_its_action() {
    let mut dialog = MessageBox::new(String::from("Sure?"), 7u8);
    let mut mgr = Manager::new();
    dialog.configure_widgets(&mut mgr);
    assert_eq!((dialog.id(), dialog.core_data().last), (WidgetId(1), WidgetId(2)));
    assert_eq!(dialog.message(), "Sure?");
    assert_eq!(dialog.widget_name(), "MessageBox");
    // the text is 40 wide and 10 high, the button 26 and 18
    assert_eq!(dialog.size_rules(&mut Sizes, horizontal()), SizeRules::new(40, 40, (3, 3), StretchPolicy::Fixed));
    assert_eq!(dialog.size_rules(&mut Sizes, vertical()), SizeRules::new(31, 31, (0, 3), StretchPolicy::Fixed));
    dialog.resize(&mut Sizes, Size(60, 40));
    assert_eq!(dialog.rect(), Rect::new(Coord(0, 0), Size(60, 40)));
    assert_eq!(dialog.find_id(Coord(5, 5)), Some(WidgetId(1)));
    assert_eq!(dialog.find_id(Coord(5, 10)), Some(WidgetId(2)));
    assert_eq!(dialog.find(WidgetId(2)).map(|c| c.rect), Some(Rect::new(Coord(0, 10), Size(60, 30))));
    let on = Coord(5, 20);
    assert_eq!(dialog.handle_input(&mut mgr, Input::PointerDown { source: LEFT, coord: on }), Response::Nothing);
    assert_eq!(dialog.handle_input(&mut mgr, Input::PointerUp { source: LEFT, coord: on }), Response::Msg(7));
    let mut draw = Recorder { calls: Vec::new() };
    dialog.draw(&mut draw, mgr.state(), false);
    let centred = TextProperties { class: TextClass::Label, horiz: Align::Centre, vert: Align::Centre };
    assert_eq!(
        draw.calls,
        vec![
            Drawn::Text(Rect::new(Coord(0, 0), Size(60, 10)), String::from("Sure?"), centred),
            Drawn::Button(Rect::new(Coord(0, 10), Size(60, 30)), HighlightState::plain()),
            Drawn::Text(Rect::new(Coord(0, 10), Size(60, 30)), String::from("OK"), button_text()),
        ]
    );
}

#[test]
fn a_window_knows_the_least_size_of_its_content() {
    let mut window = SimpleWindow::new(TextButton::new(String::from("OK"), 42u8));
    let mut mgr = Manager::new();
    assert_eq!(window.min_size(), Size(0, 0));
    window.configure_widgets(&mut mgr);
    assert_eq!((window.id(), window.core_data().last), (WidgetId(1), WidgetId(2)));
    window.resize(&mut Sizes, Size(100, 50));
    assert_eq!(window.min_size(), Size(26, 18));
    assert_eq!(window.rect(), Rect::new(Coord(0, 0), Size(100, 50)));
    assert_eq!((window.len(), window.get(0).map(|c| c.id), window.get(1)), (1, Some(WidgetId(2)), None));
    let mut button = TextButton::new(String::from("OK"), 1u8);
    assert_eq!(solve(&mut button, &mut Sizes, Size(30, 20)), Size(26, 18));
    assert_eq!(button.rect(), Rect::new(Coord(0, 0), Size(30, 20)));
}

#[test]
fn the_close_action_asks_for_the_window_to_be_closed() {
    let action = action_close();
    assert!(matches!(action(), Response::Close));
}

#[test]
fn a_list_that_runs_to_the_left_puts_its_last_item_first() {
    let mut list = List::new_with_direction(
        Direction::Left,
        vec![
            TextButton::new(String::from("a"), 1u8),
            TextButton::new(String::from("bb"), 2u8),
            TextButton::new(String::from("ccc"), 3u8),
        ],
    );
    let mut mgr = Manager::new();
    mgr.configure(&mut list);
    assert_eq!(list.spatial_range(), (2, 0));
    assert_eq!(list.size_rules(&mut Sizes, horizontal()), SizeRules::new(84, 84, (3, 3), StretchPolicy::Fixed));
    list.size_rules(&mut Sizes, vertical());
    list.set_rect(Rect::new(Coord(10, 20), Size(200, 18)), AlignHints::unhinted());
    assert_eq!(list.item(2).rect(), Rect::new(Coord(10, 20), Size(34, 18)));
    assert_eq!(list.item(1).rect(), Rect::new(Coord(47, 20), Size(26, 18)));
    assert_eq!(list.item(0).rect(), Rect::new(Coord(76, 20), Size(18, 18)));
}

#[test]
fn a_column_that_runs_upwards_is_reversed_too() {
    let mut list = List::new_with_direction(
        Direction::Up,
        vec![Label::new(String::from("a")), Label::new(String::from("b"))],
    );
    let mut mgr = Manager::new();
    mgr.configure(&mut list);
    assert_eq!(list.size_rules(&mut Sizes, vertical()), SizeRules::new(20, 20, (0, 0), StretchPolicy::Fixed));
    list.set_rect(Rect::new(Coord(0, 0), Size(30, 50)), AlignHints::unhinted());
    assert_eq!(list.item(1).rect(), Rect::new(Coord(0, 0), Size(30, 10)));
    assert_eq!(list.item(0).rect(), Rect::new(Coord(0, 10), Size(30, 10)));
}

#[test]
fn a_disabled_widget_hands_everything_back() {
    let (mut list, mut mgr) = three();
    assert!(!list.is_disabled());
    assert_eq!(list.item_mut(1).set_disabled(true), TkAction::Redraw);
    assert!(list.item(1).is_disabled());
    assert_eq!(list.send(&mut mgr, WidgetId(3), Event::Activate), Response::Unhandled(Event::Activate));
    assert_eq!(list.send(&mut mgr, WidgetId(4), Event::Activate), Response::Msg(3));
    list.set_disabled(true);
    assert_eq!(list.send(&mut mgr, WidgetId(4), Event::Activate), Response::Unhandled(Event::Activate));
    list.set_disabled(false);
    list.item_mut(1).set_disabled(false);
    assert_eq!(list.send(&mut mgr, WidgetId(3), Event::Activate), Response::Msg(2));
    // identifiers are as before
    assert_eq!((list.id(), list.item(1).id(), list.core_data().last), (WidgetId(1), WidgetId(3), WidgetId(4)));
}

#[test]
fn a_disabled_parent_is_drawn_with_plain_children() {
    let mut frame = MenuFrame::new(TextButton::new(String::from("OK"), 1u8));
    let mut mgr = Manager::new();
    mgr.configure(&mut frame);
    frame.size_rules(&mut Sizes, horizontal());
    frame.size_rules(&mut Sizes, vertical());
    frame.set_rect(Rect::new(Coord(0, 0), Size(100, 50)), AlignHints::unhinted());
    mgr.set_hover(Some(WidgetId(2)));
    let mut draw = Recorder { calls: Vec::new() };
    frame.draw(&mut draw, mgr.state(), false);
    frame.set_disabled(true);
    frame.draw(&mut draw, mgr.state(), false);
    let inner = Rect::new(Coord(5, 5), Size(90, 40));
    let hovered = HighlightState { hover: true, depress: false, key_focus: false };
    assert_eq!(draw.calls[1], Drawn::Button(inner, hovered));
    assert_eq!(draw.calls[4], Drawn::Button(inner, HighlightState::plain()));
    assert_eq!(frame.send(&mut mgr, WidgetId(2), Event::Activate), Response::Unhandled(Event::Activate));
}

fn menu_button() -> (MenuButton<MenuFrame<TextButton<u8>>>, Manager) {
    let popup = MenuFrame::new(TextButton::new(String::from("Go"), 9u8));
    let mut menu = MenuButton::new(String::from("Menu"), popup);
    let mut mgr = Manager::new();
    mgr.configure(&mut menu);
    menu.set_rect(Rect::new(Coord(0, 0), Size(42, 18)), AlignHints::unhinted());
    menu.popup_size_rules(&mut Sizes, horizontal());
    menu.popup_size_rules(&mut Sizes, vertical());
    menu.set_popup_rect(Rect::new(Coord(0, 18), Size(60, 40)), AlignHints::unhinted());
    (menu, mgr)
}

#[test]
fn a_press_released_elsewhere_closes_the_menu() {
    let (mut menu, mut mgr) = menu_button();
    let on = Coord(5, 5);
    mgr.dispatch(&mut menu, Input::PointerDown { source: LEFT, coord: on });
    mgr.dispatch(&mut menu, Input::PointerMove { source: LEFT, coord: on });
    assert!(menu.menu_is_open());
    assert_eq!(mgr.popup_count(), 1);
    // the press ends outside the button and outside the popup
    let elsewhere = Coord(150, 80);
    assert_eq!(mgr.dispatch(&mut menu, Input::PointerUp { source: LEFT, coord: elsewhere }), Response::Nothing);
    assert!(!menu.menu_is_open());
    assert_eq!(mgr.popup_count(), 0);
    assert_eq!(mgr.grab_holder(LEFT), None);
    // with the menu closed, a release elsewhere changes nothing
    let end = Event::PressEnd { source: LEFT, end_id: None, coord: elsewhere };
    assert_eq!(menu.handle(&mut mgr, end), Response::Nothing);
    assert!(!menu.menu_is_open());
    assert_eq!(mgr.popup_count(), 0);
}

#[test]
fn a_press_released_over_the_popup_but_over_no_widget_closes_the_menu() {
    let (mut menu, mut mgr) = menu_button();
    assert_eq!(menu.send(&mut mgr, WidgetId(1), Event::Activate), Response::Nothing);
    assert!(menu.menu_is_open());
    let end = Event::PressEnd { source: LEFT, end_id: None, coord: Coord(10, 30) };
    assert_eq!(menu.handle(&mut mgr, end), Response::Nothing);
    assert!(!menu.menu_is_open());
    assert_eq!(mgr.popup_count(), 0);
}

#[test]
fn activation_opens_a_closed_sub_menu_and_closes_an_open_one() {
    let mut menu = SubMenu::new(String::from("File"), vec![TextButton::new(String::from("Open"), 1u8)]);
    let mut mgr = Manager::new();
    mgr.configure(&mut menu);
    assert!(!menu.menu_is_open());
    assert_eq!(menu.send(&mut mgr, WidgetId(1), Event::Activate), Response::Nothing);
    assert!(menu.menu_is_open());
    assert_eq!(mgr.popup_count(), 1);
    assert_eq!(mgr.top_popup().map(|p| (p.popup.id, p.popup.parent)), Some((WidgetId(2), WidgetId(1))));
    assert_eq!(menu.send(&mut mgr, WidgetId(1), Event::Activate), Response::Nothing);
    assert!(!menu.menu_is_open());
    assert_eq!(mgr.popup_count(), 0);
    // the request to open the popup opens, and leaves an open menu as it is
    assert_eq!(menu.send(&mut mgr, WidgetId(1), Event::OpenPopup), Response::Nothing);
    assert_eq!(menu.send(&mut mgr, WidgetId(1), Event::OpenPopup), Response::Nothing);
    assert!(menu.menu_is_open());
    assert_eq!(mgr.popup_count(), 1);
    // a message from an entry closes the menu
    assert_eq!(menu.send(&mut mgr, WidgetId(3), Event::Activate), Response::Msg(1));
    assert!(!menu.menu_is_open());
}

#[test]
fn a_widget_is_drawn_within_a_clip_region() {
    let mut label = Label::new(String::from("hi"));
    let mut mgr = Manager::new();
    mgr.configure(&mut label);
    label.set_rect(Rect::new(Coord(0, 0), Size(16, 10)), AlignHints::unhinted());
    let mut draw = Recorder { calls: Vec::new() };
    let region = Rect::new(Coord(20, 30), Size(10, 10));
    draw_clipped(&label, &mut draw, mgr.state(), false, region, Coord(20, 25));
    let props = TextProperties { class: TextClass::Label, horiz: Align::Begin, vert: Align::Centre };
    assert_eq!(
        draw.calls,
        vec![
            Drawn::ClipBegin(region, Coord(20, 25)),
            Drawn::Text(Rect::new(Coord(0, 0), Size(16, 10)), String::from("hi"), props),
            Drawn::ClipEnd,
        ]
    );
}
