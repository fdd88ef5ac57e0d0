use kas::event::HighlightState;
use kas::geom::{Margins, Size};
use kas::layout::{AxisInfo, SizeRules};
use kas::theme::{FontId, SizeHandle, SizeModel, Style, TextClass, ThemeAction, ThemeColours};

fn colours() -> ThemeColours<u32> {
    ThemeColours {
        background: 1,
        frame: 2,
        text_area: 3,
        text: 4,
        label_text: 5,
        button_text: 6,
        key_nav_focus: 7,
        button: 8,
        button_highlighted: 9,
        button_depressed: 10,
    }
}

fn state(hover: bool, depress: bool, key_focus: bool) -> HighlightState {
    HighlightState { hover, depress, key_focus }
}

#[test]
fn the_focus_colour_is_given_with_the_focus_only() {
    let c = colours();
    assert_eq!(c.nav_region(state(false, false, true)), Some(7));
    assert_eq!(c.nav_region(state(true, true, false)), None);
}

#[test]
fn a_pressed_button_comes_before_a_hovered_one() {
    let c = colours();
    assert_eq!(c.button_state(state(false, false, false)), 8);
    assert_eq!(c.button_state(state(true, false, false)), 9);
    assert_eq!(c.button_state(state(false, true, false)), 10);
    assert_eq!(c.button_state(state(true, true, true)), 10);
    assert_eq!(c.scrollbar_state(state(true, false, true)), 9);
    assert_eq!(c.scrollbar_state(state(true, true, true)), 10);
}

#[test]
fn a_check_mark_is_drawn_when_checked_or_pressed() {
    let c = colours();
    assert_eq!(c.check_mark_state(state(false, false, false), false), None);
    assert_eq!(c.check_mark_state(state(true, false, false), false), None);
    assert_eq!(c.check_mark_state(state(false, false, false), true), Some(8));
    assert_eq!(c.check_mark_state(state(true, false, false), true), Some(9));
    assert_eq!(c.check_mark_state(state(false, true, false), false), Some(10));
    assert_eq!(c.check_mark_state(state(true, true, false), true), Some(10));
}

#[test]
fn a_style_has_normals_unless_it_is_flat() {
    assert_eq!(Style::<(i8, i8)>::Flat.normals(), None);
    assert_eq!(Style::Square((1i8, -1i8)).normals(), Some((1, -1)));
    assert_eq!(Style::Round((0i8, 1i8)).normals(), Some((0, 1)));
}

#[test]
fn theme_actions_are_ordered() {
    assert!(ThemeAction::Nothing < ThemeAction::RedrawAll);
    assert!(ThemeAction::RedrawAll < ThemeAction::ThemeResize);
    assert_eq!(ThemeAction::Nothing.rank(), 0);
    assert_eq!(ThemeAction::ThemeResize.rank(), 2);
    assert_eq!(ThemeAction::RedrawAll.stronger(ThemeAction::Nothing), ThemeAction::RedrawAll);
    assert_eq!(ThemeAction::RedrawAll.stronger(ThemeAction::ThemeResize), ThemeAction::ThemeResize);
}

#[test]
fn the_default_font_is_the_first() {
    assert_eq!(FontId::default(), FontId(0));
    assert!(TextClass::Label < TextClass::Button);
    assert!(TextClass::Edit < TextClass::EditMulti);
}

struct Sizes;

impl SizeHandle for Sizes {
    fn answers(&self) -> SizeModel {
        unreachable!()
    }
    fn outer_frame(&self) -> (Size, Size) {
        (Size(2, 3), Size(4, 5))
    }
    fn frame(&self) -> Size {
        Size(2, 2)
    }
    fn inner_margin(&self) -> Size {
        Size(1, 1)
    }
    fn outer_margin(&self) -> Size {
        Size(3, 3)
    }
    fn outer_margins(&self) -> Margins {
        Margins { horiz: (3, 3), vert: (3, 3) }
    }
    fn line_height(&self, class: TextClass) -> u32 {
        if class == TextClass::Button {
            12
        } else {
            10
        }
    }
    fn text_bound(&mut self, text: &str, _class: TextClass, _axis: AxisInfo) -> SizeRules {
        SizeRules::fixed(8 * text.len() as u32, (1, 1))
    }
    fn button_surround(&self) -> (Size, Size) {
        (Size(4, 4), Size(4, 4))
    }
    fn edit_surround(&self) -> (Size, Size) {
        (Size(2, 2), Size(2, 2))
    }
    fn checkbox(&self) -> Size {
        Size(12, 13)
    }
    fn radiobox(&self) -> Size {
        Size(14, 15)
    }
    fn scrollbar(&self) -> (u32, u32, u32) {
        (8, 16, 32)
    }
}

#[test]
fn a_boxed_size_handle_gives_the_same_answers() {
    let mut boxed = Box::new(Sizes);
    assert_eq!(boxed.outer_frame(), (Size(2, 3), Size(4, 5)));
    assert_eq!(boxed.frame(), Size(2, 2));
    assert_eq!(boxed.inner_margin(), Size(1, 1));
    assert_eq!(boxed.outer_margin(), Size(3, 3));
    assert_eq!(boxed.outer_margins(), Margins { horiz: (3, 3), vert: (3, 3) });
    assert_eq!(boxed.line_height(TextClass::Button), 12);
    assert_eq!(boxed.text_bound("abc", TextClass::Label, AxisInfo::new(false, None)), SizeRules::fixed(24, (1, 1)));
    assert_eq!(boxed.button_surround(), (Size(4, 4), Size(4, 4)));
    assert_eq!(boxed.edit_surround(), (Size(2, 2), Size(2, 2)));
    assert_eq!(boxed.checkbox(), Size(12, 13));
    assert_eq!(boxed.radiobox(), Size(14, 15));
    assert_eq!(boxed.scrollbar(), (8, 16, 32));
}
