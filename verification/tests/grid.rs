use kas::data::AlignHints;
use kas::event::{Event, Response};
use kas::geom::{Coord, Margins, Rect, Size};
use kas::grid::{cell_rect, places, track_rules, Cell, Span};
use kas::id::WidgetId;
use kas::layout::{AxisInfo, SizeRules, StretchPolicy};
use kas::manager::Manager;
use kas::theme::{SizeHandle, SizeModel, TextClass};
use kas::traits::{Layout, SendEvent, WidgetCore};
use kas::widget::button::TextButton;
use kas::widget::grid::{Grid, GridCell};

fn cell(first: usize, len: usize, rules: SizeRules) -> Cell {
    Cell { span: Span { first, len }, rules }
}

fn sizes_of(tracks: &[SizeRules]) -> Vec<(u32, u32)> {
    tracks.iter().map(|t| (t.min_size(), t.ideal_size())).collect()
}

#[test]
fn a_track_takes_the_maximum_of_its_cells() {
    let cells = vec![
        cell(0, 1, SizeRules::new(10, 20, (1, 2), StretchPolicy::Fixed)),
        cell(1, 1, SizeRules::new(5, 5, (0, 0), StretchPolicy::Filler)),
        cell(0, 1, SizeRules::new(4, 30, (3, 0), StretchPolicy::LowUtility)),
    ];
    let tracks = track_rules(&cells, 3);
    assert_eq!(tracks.len(), 3);
    assert_eq!(tracks[0], SizeRules::new(10, 30, (3, 2), StretchPolicy::LowUtility));
    assert_eq!(tracks[1], SizeRules::new(5, 5, (0, 0), StretchPolicy::Filler));
    assert_eq!(tracks[2], SizeRules::empty(StretchPolicy::Fixed));
}

#[test]
fn a_cell_over_several_tracks_divides_what_is_missing() {
    let wide = |min, ideal| cell(0, 2, SizeRules::new(min, ideal, (0, 0), StretchPolicy::Fixed));
    let singles = vec![cell(0, 1, SizeRules::fixed(10, (0, 0))), cell(1, 1, SizeRules::fixed(20, (0, 0)))];
    let with = |extra: Cell| {
        let mut cells = singles.clone();
        cells.push(extra);
        sizes_of(&track_rules(&cells, 2))
    };
    // the tracks offer 30: nothing is missing
    assert_eq!(with(wide(30, 30)), vec![(10, 10), (20, 20)]);
    // 20 are missing: 10 each
    assert_eq!(with(wide(50, 50)), vec![(20, 20), (30, 30)]);
    // 21 are missing: the first track takes one more
    assert_eq!(with(wide(51, 51)), vec![(21, 21), (30, 30)]);
    // the minimum fits, 5 are missing of the ideal size
    assert_eq!(with(wide(30, 35)), vec![(10, 13), (20, 22)]);
    // 4 are missing of the minimum; with these, 2 of the ideal size
    assert_eq!(with(wide(34, 36)), vec![(12, 13), (22, 23)]);
}

#[test]
fn margins_between_tracks_count_for_a_wide_cell() {
    let cells = vec![
        cell(0, 1, SizeRules::fixed(10, (0, 4))),
        cell(1, 1, SizeRules::fixed(20, (6, 0))),
        cell(0, 2, SizeRules::fixed(37, (0, 0))),
    ];
    // 10 + 6 + 20 are offered: one is missing
    assert_eq!(sizes_of(&track_rules(&cells, 2)), vec![(11, 11), (20, 20)]);
}

#[test]
fn cells_beyond_the_grid_are_left_out() {
    let cells = vec![
        cell(2, 1, SizeRules::fixed(10, (0, 0))),
        cell(1, 2, SizeRules::fixed(50, (0, 0))),
        cell(0, 0, SizeRules::fixed(50, (0, 0))),
    ];
    assert_eq!(sizes_of(&track_rules(&cells, 2)), vec![(0, 0), (0, 0)]);
    assert!(Span { first: 1, len: 1 }.within(2));
    assert!(!Span { first: 1, len: 2 }.within(2));
    assert!(!Span { first: 0, len: 0 }.within(2));
    assert!(!Span { first: usize::MAX, len: 2 }.within(usize::MAX));
}

#[test]
fn a_cell_reaches_from_its_first_track_to_its_last() {
    let tracks = vec![SizeRules::fixed(20, (0, 2)), SizeRules::fixed(30, (3, 0)), SizeRules::fixed(5, (0, 0))];
    let cells = vec![
        cell(0, 1, SizeRules::empty(StretchPolicy::Fixed)),
        cell(1, 1, SizeRules::empty(StretchPolicy::Fixed)),
        cell(0, 2, SizeRules::empty(StretchPolicy::Fixed)),
        cell(1, 2, SizeRules::empty(StretchPolicy::Fixed)),
        cell(2, 2, SizeRules::empty(StretchPolicy::Fixed)),
    ];
    // the tracks begin at 0, 23 and 53
    assert_eq!(places(&tracks, 100, &cells), vec![(0, 20), (23, 30), (0, 53), (23, 35), (0, 0)]);
    let rect = Rect::new(Coord(10, 20), Size(100, 100));
    assert_eq!(cell_rect(rect, (23, 30), (0, 20)), Rect::new(Coord(33, 20), Size(30, 20)));
}

struct Sizes;

impl SizeHandle for Sizes {
    fn answers(&self) -> SizeModel {
        unreachable!()
    }
    fn outer_frame(&self) -> (Size, Size) {
        (Size(2, 2), Size(2, 2))
    }
    fn frame(&self) -> Size {
        Size(2, 2)
    }
    fn inner_margin(&self) -> Size {
        Size(1, 1)
    }
    fn outer_margin(&self) -> Size {
        Size(3, 3)
    }
    fn outer_margins(&self) -> Margins {
        Margins { horiz: (3, 3), vert: (3, 3) }
    }
    fn line_height(&self, _class: TextClass) -> u32 {
        10
    }
    fn text_bound(&mut self, text: &str, _class: TextClass, axis: AxisInfo) -> SizeRules {
        if axis.is_vertical() {
            SizeRules::fixed(10, (0, 0))
        } else {
            SizeRules::new(8 * text.len() as u32, 8 * text.len() as u32, (1, 1), StretchPolicy::Fixed)
        }
    }
    fn button_surround(&self) -> (Size, Size) {
        (Size(4, 4), Size(4, 4))
    }
    fn edit_surround(&self) -> (Size, Size) {
        (Size(2, 2), Size(2, 2))
    }
    fn checkbox(&self) -> Size {
        Size(12, 12)
    }
    fn radiobox(&self) -> Size {
        Size(12, 12)
    }
    fn scrollbar(&self) -> (u32, u32, u32) {
        (8, 16, 32)
    }
}

fn at(col: usize, cols: usize, row: usize, rows: usize) -> GridCell {
    GridCell { col: Span { first: col, len: cols }, row: Span { first: row, len: rows } }
}

/// Two buttons side by side above one that is as wide as both.
fn grid() -> (Grid<TextButton<u8>>, Manager) {
    let widgets = vec![
        TextButton::new(String::from("a"), 1u8),
        TextButton::new(String::from("bb"), 2u8),
        TextButton::new(String::from("ccc"), 3u8),
    ];
    let cells = vec![at(0, 1, 0, 1), at(1, 1, 0, 1), at(0, 2, 1, 1)];
    let mut grid = Grid::new(2, 2, widgets, cells);
    let mut mgr = Manager::new();
    mgr.configure(&mut grid);
    (grid, mgr)
}

#[test]
fn a_grid_is_laid_out_by_its_tracks() {
    let (mut grid, _) = grid();
    assert_eq!((grid.id(), grid.core_data().last, grid.len()), (WidgetId(1), WidgetId(4), 3));
    assert_eq!(grid.cell(2), at(0, 2, 1, 1));
    assert_eq!(grid.cell(3), at(0, 0, 0, 0));
    // columns of 18 and 26 with a margin of 3 between
    assert_eq!(
        grid.size_rules(&mut Sizes, AxisInfo::new(false, None)),
        SizeRules::new(47, 47, (3, 3), StretchPolicy::Fixed)
    );
    assert_eq!(
        grid.size_rules(&mut Sizes, AxisInfo::new(true, Some(100))),
        SizeRules::new(39, 39, (3, 3), StretchPolicy::Fixed)
    );
    grid.set_rect(Rect::new(Coord(10, 10), Size(100, 60)), AlignHints::unhinted());
    assert_eq!(grid.rect(), Rect::new(Coord(10, 10), Size(100, 60)));
    assert_eq!(grid.item(0).rect(), Rect::new(Coord(10, 10), Size(18, 18)));
    assert_eq!(grid.item(1).rect(), Rect::new(Coord(31, 10), Size(26, 18)));
    assert_eq!(grid.item(2).rect(), Rect::new(Coord(10, 31), Size(47, 18)));
    assert_eq!(grid.find_id(Coord(40, 35)), Some(WidgetId(4)));
    assert_eq!(grid.find_id(Coord(40, 15)), Some(WidgetId(3)));
    assert_eq!(grid.find_id(Coord(90, 15)), Some(WidgetId(1)));
}

#[test]
fn a_wide_widget_widens_the_columns_of_a_grid() {
    let widgets = vec![
        TextButton::new(String::from("a"), 1u8),
        TextButton::new(String::from("b"), 2u8),
        TextButton::new(String::from("a long text"), 3u8),
    ];
    let cells = vec![at(0, 1, 0, 1), at(1, 1, 0, 1), at(0, 2, 1, 1)];
    let mut grid = Grid::new(2, 2, widgets, cells);
    let mut mgr = Manager::new();
    mgr.configure(&mut grid);
    // the columns offer 18 + 3 + 18; the wide button needs 98: 59 are missing
    assert_eq!(
        grid.size_rules(&mut Sizes, AxisInfo::new(false, None)),
        SizeRules::new(98, 98, (3, 3), StretchPolicy::Fixed)
    );
    grid.size_rules(&mut Sizes, AxisInfo::new(true, None));
    grid.set_rect(Rect::new(Coord(0, 0), Size(98, 39)), AlignHints::unhinted());
    assert_eq!(grid.item(0).rect(), Rect::new(Coord(0, 0), Size(48, 18)));
    assert_eq!(grid.item(1).rect(), Rect::new(Coord(51, 0), Size(47, 18)));
    assert_eq!(grid.item(2).rect(), Rect::new(Coord(0, 21), Size(98, 18)));
}

#[test]
fn a_grid_sends_events_to_its_items() {
    let (mut grid, mut mgr) = grid();
    assert_eq!(grid.send(&mut mgr, WidgetId(3), Event::Activate), Response::Msg(2));
    assert_eq!(grid.send(&mut mgr, WidgetId(1), Event::Activate), Response::Unhandled(Event::Activate));
    assert_eq!(grid.widget_name(), "Grid");
}
