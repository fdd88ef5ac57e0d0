use kas::data::AlignHints;
use kas::driver::Input;
use kas::event::{Event, MouseButton, PressSource, Response};
use kas::geom::{Coord, Margins, Rect, Size};
use kas::id::WidgetId;
use kas::layout::{AxisInfo, SizeRules, StretchPolicy};
use kas::manager::Manager;
use kas::theme::{SizeHandle, SizeModel, TextClass};
use kas::traits::{Layout, SendEvent, WidgetCore};
use kas::widget::button::TextButton;
use kas::widget::menu::{MenuBar, SubMenu};

struct Sizes;

impl SizeHandle for Sizes {
    fn answers(&self) -> SizeModel {
        unreachable!()
    }
    fn outer_frame(&self) -> (Size, Size) {
        (Size(2, 2), Size(2, 2))
    }
    fn frame(&self) -> Size {
        Size(2, 2)
    }
    fn inner_margin(&self) -> Size {
        Size(1, 1)
    }
    fn outer_margin(&self) -> Size {
        Size(3, 3)
    }
    fn outer_margins(&self) -> Margins {
        Margins { horiz: (3, 3), vert: (3, 3) }
    }
    fn line_height(&self, _class: TextClass) -> u32 {
        10
    }
    fn text_bound(&mut self, text: &str, _class: TextClass, axis: AxisInfo) -> SizeRules {
        if axis.is_vertical() {
            SizeRules::fixed(10, (0, 0))
        } else {
            SizeRules::new(8 * text.len() as u32, 8 * text.len() as u32, (1, 1), StretchPolicy::Fixed)
        }
    }
    fn button_surround(&self) -> (Size, Size) {
        (Size(4, 4), Size(4, 4))
    }
    fn edit_surround(&self) -> (Size, Size) {
        (Size(2, 2), Size(2, 2))
    }
    fn checkbox(&self) -> Size {
        Size(12, 12)
    }
    fn radiobox(&self) -> Size {
        Size(12, 12)
    }
    fn scrollbar(&self) -> (u32, u32, u32) {
        (8, 16, 32)
    }
}

const LEFT: PressSource = PressSource::Mouse(MouseButton::Left);

/// A bar with the menus "File" (entries 10, 11) and "Edit" (entries 20, 21),
/// configured and laid out: the bar at the top of a window of 200 by 100, the
/// entries of the bar 60 wide and 20 high, the menus below their entries.
fn bar() -> (MenuBar<TextButton<u32>>, Manager) {
    let file = SubMenu::new(
        String::from("File"),
        vec![TextButton::new(String::from("Open"), 10), TextButton::new(String::from("Quit"), 11)],
    );
    let edit = SubMenu::new(
        String::from("Edit"),
        vec![TextButton::new(String::from("Copy"), 20), TextButton::new(String::from("Paste"), 21)],
    );
    let mut bar = MenuBar::new(vec![file, edit]);
    let mut mgr = Manager::new();
    mgr.configure(&mut bar);
    let mut sizes = Sizes;
    bar.size_rules(&mut sizes, AxisInfo::new(false, None));
    bar.size_rules(&mut sizes, AxisInfo::new(true, Some(200)));
    bar.set_rect(Rect::new(Coord(0, 0), Size(200, 20)), AlignHints::unhinted());
    for index in 0..2 {
        let header = bar.bar().item(index).core_data().rect;
        let below = Rect::new(Coord(header.pos.0, 20), Size(80, 40));
        bar.popup_size_rules(index, &mut sizes, AxisInfo::new(false, None));
        bar.popup_size_rules(index, &mut sizes, AxisInfo::new(true, Some(80)));
        bar.set_popup_rect(index, below, AlignHints::unhinted());
    }
    (bar, mgr)
}

#[test]
fn identifiers_follow_the_walk() {
    let (bar, _) = bar();
    // bar 1, list 2, File 3, its column 4, entries 5 6, Edit 7, its column 8, entries 9 10
    assert_eq!(bar.core_data().id, WidgetId(1));
    assert_eq!(bar.core_data().last, WidgetId(10));
    assert_eq!(bar.bar().core_data().id, WidgetId(2));
    assert_eq!(bar.bar().item(0).core_data().id, WidgetId(3));
    assert_eq!(bar.bar().item(0).core_data().last, WidgetId(6));
    assert_eq!(bar.bar().item(1).core_data().id, WidgetId(7));
    assert_eq!(bar.bar().item(1).core_data().last, WidgetId(10));
    assert_eq!(bar.find(WidgetId(9)).map(|c| c.id), Some(WidgetId(9)));
    assert_eq!(bar.find(WidgetId(11)), None);
}

fn down(x: i32, y: i32) -> Input {
    Input::PointerDown { source: LEFT, coord: Coord(x, y) }
}

fn moved(x: i32, y: i32) -> Input {
    Input::PointerMove { source: LEFT, coord: Coord(x, y) }
}

fn up(x: i32, y: i32) -> Input {
    Input::PointerUp { source: LEFT, coord: Coord(x, y) }
}

#[test]
fn entries_are_laid_out_in_a_row() {
    let (bar, _) = bar();
    // text 32 wide, margins of 1 inside, sides of 4: 42; margin of 3 between
    assert_eq!(bar.bar().item(0).core_data().rect, Rect::new(Coord(0, 0), Size(42, 20)));
    assert_eq!(bar.bar().item(1).core_data().rect, Rect::new(Coord(45, 0), Size(42, 20)));
    assert_eq!(bar.find_id(Coord(10, 10)), Some(WidgetId(3)));
    assert_eq!(bar.find_id(Coord(50, 10)), Some(WidgetId(7)));
    assert_eq!(bar.find_id(Coord(43, 10)), Some(WidgetId(2)));
    // the menus are closed: nothing is found below the bar
    assert_eq!(bar.find_id(Coord(10, 30)), None);
}

#[test]
fn a_click_opens_a_menu_and_a_second_click_closes_it() {
    let (mut bar, mut mgr) = bar();
    assert_eq!(mgr.dispatch(&mut bar, down(10, 10)), Response::Nothing);
    assert!(bar.bar().item(0).menu_is_open());
    assert_eq!(mgr.popup_count(), 1);
    assert_eq!(mgr.grab_holder(LEFT), Some(WidgetId(1)));
    assert_eq!(mgr.dispatch(&mut bar, up(10, 10)), Response::Nothing);
    assert!(bar.bar().item(0).menu_is_open());
    assert_eq!(mgr.grab_holder(LEFT), None);
    // the second click: the press does not open, so the release closes
    assert_eq!(mgr.dispatch(&mut bar, down(10, 10)), Response::Nothing);
    assert!(bar.bar().item(0).menu_is_open());
    assert_eq!(mgr.dispatch(&mut bar, up(10, 10)), Response::Nothing);
    assert!(!bar.bar().item(0).menu_is_open());
    assert_eq!(mgr.popup_count(), 0);
}

#[test]
fn menu_bar_switch() {
    let (mut bar, mut mgr) = bar();
    mgr.dispatch(&mut bar, down(10, 10));
    mgr.dispatch(&mut bar, up(10, 10));
    assert!(bar.bar().item(0).menu_is_open());
    assert_eq!(mgr.popup_count(), 1);
    // a press on the other entry closes the first menu and opens the second
    assert_eq!(mgr.dispatch(&mut bar, down(50, 10)), Response::Nothing);
    assert!(!bar.bar().item(0).menu_is_open());
    assert!(bar.bar().item(1).menu_is_open());
    assert_eq!(mgr.popup_count(), 1);
    assert_eq!(bar.open_count(), 1);
    assert_eq!(mgr.top_popup().map(|p| (p.popup.id, p.popup.parent)), Some((WidgetId(8), WidgetId(7))));
}

#[test]
fn a_press_dragged_to_the_next_entry_switches_menus() {
    let (mut bar, mut mgr) = bar();
    mgr.dispatch(&mut bar, down(10, 10));
    assert!(bar.bar().item(0).menu_is_open());
    mgr.dispatch(&mut bar, moved(50, 10));
    assert!(!bar.bar().item(0).menu_is_open());
    assert!(bar.bar().item(1).menu_is_open());
    assert_eq!(bar.open_count(), 1);
    assert_eq!(mgr.popup_count(), 1);
}

#[test]
fn a_release_over_an_entry_of_the_menu_sends_its_message() {
    let (mut bar, mut mgr) = bar();
    mgr.dispatch(&mut bar, down(10, 10));
    // the entries of the open menu are 18 high with a margin of 3 between
    assert_eq!(bar.find_id(Coord(10, 30)), Some(WidgetId(5)));
    assert_eq!(bar.find_id(Coord(10, 45)), Some(WidgetId(6)));
    mgr.dispatch(&mut bar, moved(10, 45));
    assert_eq!(mgr.dispatch(&mut bar, up(10, 45)), Response::Msg(11));
    assert!(!bar.bar().item(0).menu_is_open());
    assert_eq!(mgr.popup_count(), 0);
    assert_eq!(mgr.grab_holder(LEFT), None);
}

#[test]
fn a_press_elsewhere_closes_the_menu_and_comes_back() {
    let (mut bar, mut mgr) = bar();
    mgr.dispatch(&mut bar, down(10, 10));
    mgr.dispatch(&mut bar, up(10, 10));
    assert_eq!(mgr.popup_count(), 1);
    let outside = Event::PressStart { source: LEFT, start_id: WidgetId(99), coord: Coord(150, 80) };
    assert_eq!(bar.send(&mut mgr, WidgetId(1), outside), Response::Unhandled(outside));
    assert_eq!(mgr.popup_count(), 0);
    assert_eq!(bar.open_count(), 0);
}

#[test]
fn a_release_in_a_menu_closes_it_whatever_the_answer() {
    let (mut bar, mut mgr) = bar();
    mgr.dispatch(&mut bar, down(10, 10));
    assert!(bar.bar().item(0).menu_is_open());
    // between the two entries of the menu there is the column alone, which has no use for activation
    assert_eq!(bar.find_id(Coord(10, 39)), Some(WidgetId(4)));
    assert_eq!(mgr.dispatch(&mut bar, up(10, 39)), Response::Unhandled(Event::Activate));
    assert!(!bar.bar().item(0).menu_is_open());
    assert_eq!(bar.open_count(), 0);
    assert_eq!(mgr.popup_count(), 0);
    assert_eq!(mgr.grab_holder(LEFT), None);
}

#[test]
fn a_release_beside_the_bar_and_its_menus_closes_all_menus() {
    let (mut bar, mut mgr) = bar();
    mgr.dispatch(&mut bar, down(50, 10));
    assert!(bar.bar().item(1).menu_is_open());
    assert_eq!(mgr.dispatch(&mut bar, up(190, 90)), Response::Nothing);
    assert_eq!(bar.open_count(), 0);
    assert_eq!(mgr.popup_count(), 0);
}
