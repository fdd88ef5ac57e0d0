//! Widgets of one type, laid out in a grid.

use vstd::prelude::*;
use crate::data::{AlignHints, CoreData, Direction, TkAction};
use crate::event::{CursorIcon, Event, Response};
use crate::geom::{Coord, Rect};
use crate::grid::{cell_rect, places, spec_cell_rect, spec_place, spec_track_rules, track_rules, Cell, Span};
use crate::id::WidgetId;
use crate::layout::{AxisInfo, SizeRules};
use crate::manager::{Manager, ManagerModel, ManagerState};
use crate::theme::{DrawCmd, DrawHandle, SizeHandle, SizeModel};
use crate::traits::{same_ids, Handler, Layout, SendEvent, Sent, Visitor, WidgetCore};
use crate::widget::list::{lemma_flat_equal, lemma_list_alike, list_valid, List, ListModel};

verus! {

/// Where a widget stands in a grid: the columns and the rows that it
/// covers.
#[derive(Clone, Copy, Debug, PartialEq, Eq)]
pub struct GridCell {
    pub col: Span,
    pub row: Span,
}

/// A grid of widgets.
#[derive(Clone, Debug)]
pub struct Grid<W> {
    list: List<W>,
    cells: Vec<GridCell>,
    cols: usize,
    rows: usize,
    /// The rules of the columns and of the rows, from the last time sizes
    /// were negotiated on each axis.
    col_rules: Vec<SizeRules>,
    row_rules: Vec<SizeRules>,
}

/// A [`Grid`] as a mathematical value; `I` is the model of the items.
pub struct GridModel<I> {
    /// The items with the data of the grid itself.
    pub list: ListModel<I>,
    /// Where each item stands.
    pub cells: Seq<GridCell>,
    pub cols: usize,
    pub rows: usize,
    pub col_rules: Seq<SizeRules>,
    pub row_rules: Seq<SizeRules>,
}

/// Where item `i` stands; an item without a place covers nothing.
pub open spec fn cell_at(cells: Seq<GridCell>, i: int) -> GridCell {
    if 0 <= i < cells.len() {
        cells[i]
    } else {
        GridCell { col: Span { first: 0, len: 0 }, row: Span { first: 0, len: 0 } }
    }
}

/// The tracks that item `i` covers along an axis.
pub open spec fn span_at(cells: Seq<GridCell>, i: int, vertical: bool) -> Span {
    if vertical {
        cell_at(cells, i).row
    } else {
        cell_at(cells, i).col
    }
}

/// The cells of a grid along one axis: for each item the tracks that it
/// covers and its rules.
pub open spec fn axis_cells(cells: Seq<GridCell>, rules: Seq<SizeRules>, vertical: bool) -> Seq<Cell> {
    Seq::new(rules.len(), |i: int| Cell { span: span_at(cells, i, vertical), rules: rules[i] })
}

/// The rectangle of item `i` of a grid within `rect`: from the start of its
/// first column to the end of its last one, and so for the rows.
pub open spec fn grid_slot<I>(m: GridModel<I>, rect: Rect, i: int) -> Rect {
    spec_cell_rect(
        rect,
        spec_place(m.col_rules, rect.size.0, cell_at(m.cells, i).col),
        spec_place(m.row_rules, rect.size.1, cell_at(m.cells, i).row),
    )
}

impl<W: WidgetCore> Grid<W> {
    /// A grid of `cols` columns and `rows` rows, not yet configured. The
    /// widget at place `i` of `widgets` stands where place `i` of `cells`
    /// says.
    pub fn new(cols: usize, rows: usize, widgets: Vec<W>, cells: Vec<GridCell>) -> (r: Grid<W>)
        ensures
            r.model() == (GridModel {
                list: ListModel {
                    core: CoreData::spec_unset(),
                    direction: Direction::Down,
                    items: Seq::new(widgets@.len(), |i: int| widgets@[i].model()),
                    rules: Seq::empty(),
                },
                cells: cells@,
                cols,
                rows,
                col_rules: Seq::empty(),
                row_rules: Seq::empty(),
            }),
    {
        Grid { list: List::new(widgets), cells, cols, rows, col_rules: Vec::new(), row_rules: Vec::new() }
    }

    /// The widget at `index`.
    pub fn item(&self, index: usize) -> (r: &W)
        requires
            index < self.model().list.items.len(),
        ensures
            r.model() == self.model().list.items[index as int],
    {
        self.list.item(index)
    }

    /// Where the widget at `index` stands.
    pub fn cell(&self, index: usize) -> (r: GridCell)
        ensures
            r == cell_at(self.model().cells, index as int),
    {
        if index < self.cells.len() {
            self.cells[index]
        } else {
            GridCell { col: Span { first: 0, len: 0 }, row: Span { first: 0, len: 0 } }
        }
    }
}

impl<W: WidgetCore> WidgetCore for Grid<W> {
    type Model = GridModel<W::Model>;

    closed spec fn model(&self) -> GridModel<W::Model> {
        GridModel {
            list: self.list.model(),
            cells: self.cells@,
            cols: self.cols,
            rows: self.rows,
            col_rules: self.col_rules@,
            row_rules: self.row_rules@,
        }
    }

    open spec fn own(m: GridModel<W::Model>) -> CoreData {
        m.list.core
    }

    open spec fn children(m: GridModel<W::Model>) -> Seq<CoreData> {
        List::<W>::children(m.list)
    }

    open spec fn nodes(m: GridModel<W::Model>) -> Seq<CoreData> {
        List::<W>::nodes(m.list)
    }

    /// The items are valid and numbered one after the other behind the
    /// grid itself.
    open spec fn valid(m: GridModel<W::Model>) -> bool {
        list_valid::<W>(m.list)
    }

    open spec fn configured(m: GridModel<W::Model>, mgr: ManagerModel, first: WidgetId) -> (
        GridModel<W::Model>,
        ManagerModel,
    ) {
        let list = List::<W>::configured(m.list, mgr, first);
        (GridModel { list: list.0, ..m }, list.1)
    }

    open spec fn name() -> Seq<char> {
        "Grid"@
    }

    open spec fn navigable(m: GridModel<W::Model>) -> bool {
        false
    }

    open spec fn cursor(m: GridModel<W::Model>) -> CursorIcon {
        CursorIcon::Default
    }

    open spec fn with_disabled(m: GridModel<W::Model>, disabled: bool) -> GridModel<W::Model> {
        GridModel { list: List::<W>::with_disabled(m.list, disabled), ..m }
    }

    proof fn lemma_with_disabled(m: GridModel<W::Model>, disabled: bool) {
        List::<W>::lemma_with_disabled(m.list, disabled);
    }

    proof fn lemma_count(m: GridModel<W::Model>) {
    }

    proof fn lemma_tree(m: GridModel<W::Model>) {
        List::<W>::lemma_tree(m.list);
    }

    proof fn lemma_configured(m: GridModel<W::Model>, mgr: ManagerModel, first: WidgetId) {
        List::<W>::lemma_configured(m.list, mgr, first);
    }

    fn core_data(&self) -> (r: &CoreData) {
        self.list.core_data()
    }

    fn widget_name(&self) -> (r: &'static str) {
        "Grid"
    }

    fn key_nav(&self) -> (r: bool) {
        false
    }

    fn cursor_icon(&self) -> (r: CursorIcon) {
        CursorIcon::Default
    }

    fn set_disabled(&mut self, disabled: bool) -> (r: TkAction) {
        self.list.set_disabled(disabled)
    }

    fn len(&self) -> (r: usize) {
        self.list.len()
    }

    fn get(&self, index: usize) -> (r: Option<CoreData>) {
        self.list.get(index)
    }

    fn find(&self, id: WidgetId) -> (r: Option<CoreData>) {
        self.list.find(id)
    }

    fn walk<V: Visitor>(&self, visitor: &mut V) {
        self.list.walk(visitor);
    }

    fn configure(&mut self, mgr: &mut Manager, first: WidgetId) -> (next: WidgetId) {
        self.list.configure(mgr, first)
    }
}

impl<W: Layout> Grid<W> {
    /// The items after each was asked for its rules along `axis`.
    pub open spec fn sized_items(items: Seq<W::Model>, sizes: SizeModel, axis: AxisInfo) -> Seq<W::Model> {
        Seq::new(items.len(), |i: int| W::sized(items[i], sizes, axis).0)
    }

    /// The rules of each item along `axis`.
    pub open spec fn item_rules(items: Seq<W::Model>, sizes: SizeModel, axis: AxisInfo) -> Seq<SizeRules> {
        Seq::new(items.len(), |i: int| W::sized(items[i], sizes, axis).1)
    }

    /// The items after each was given its rectangle within `rect`.
    pub open spec fn placed_items(m: GridModel<W::Model>, rect: Rect, align: AlignHints) -> Seq<W::Model> {
        Seq::new(m.list.items.len(), |i: int| W::placed(m.list.items[i], grid_slot(m, rect, i), align))
    }

    /// The rules of the tracks along `axis` for the items of `m`.
    pub open spec fn tracks(m: GridModel<W::Model>, sizes: SizeModel, axis: AxisInfo) -> Seq<SizeRules> {
        spec_track_rules(
            axis_cells(m.cells, Self::item_rules(m.list.items, sizes, axis), axis.vertical),
            if axis.vertical {
                m.rows as int
            } else {
                m.cols as int
            },
        )
    }
}

impl<W: Layout> Layout for Grid<W> {
    /// The items lie within the rectangle in the order of the list.
    open spec fn spatial(m: GridModel<W::Model>) -> (usize, usize) {
        List::<W>::spatial(m.list)
    }

    /// Every item is asked for its rules. From these the rules of the
    /// tracks along the axis are found, and remembered for placing; the
    /// grid needs what the tracks need one after the other.
    open spec fn sized(m: GridModel<W::Model>, sizes: SizeModel, axis: AxisInfo) -> (GridModel<W::Model>, SizeRules) {
        let items = Self::sized_items(m.list.items, sizes, axis);
        let tracks = Self::tracks(m, sizes, axis);
        let list = ListModel { items, ..m.list };
        if axis.vertical {
            (GridModel { list, row_rules: tracks, ..m }, SizeRules::spec_sum(tracks))
        } else {
            (GridModel { list, col_rules: tracks, ..m }, SizeRules::spec_sum(tracks))
        }
    }

    /// The grid takes `rect`, and every item the rectangle of its cell.
    open spec fn placed(m: GridModel<W::Model>, rect: Rect, align: AlignHints) -> GridModel<W::Model> {
        GridModel {
            list: ListModel {
                core: CoreData { rect, ..m.list.core },
                items: Self::placed_items(m, rect, align),
                ..m.list
            },
            ..m
        }
    }

    /// The first hit among the items; without one, the grid itself within
    /// its rectangle.
    open spec fn hit(m: GridModel<W::Model>, coord: Coord) -> Option<WidgetId> {
        List::<W>::hit(m.list, coord)
    }

    /// The items, in order.
    open spec fn painted(m: GridModel<W::Model>, mgr: ManagerState, disabled: bool) -> Seq<DrawCmd> {
        List::<W>::painted(m.list, mgr, disabled)
    }

    /// The rules of all columns and rows are known, and every item is
    /// ready.
    open spec fn ready(m: GridModel<W::Model>) -> bool {
        m.col_rules.len() == m.cols && m.row_rules.len() == m.rows && forall|i: int|
            0 <= i < m.list.items.len() ==> W::ready(#[trigger] m.list.items[i])
    }

    proof fn lemma_ready(
        m: GridModel<W::Model>,
        sizes: SizeModel,
        across: AxisInfo,
        down: AxisInfo,
        axis: AxisInfo,
        rect: Rect,
        align: AlignHints,
    ) {
        let first = Self::sized(m, sizes, across).0;
        let both = Self::sized(first, sizes, down).0;
        crate::grid::lemma_spread_all_len(
            Seq::new(
                m.cols as nat,
                |c: int|
                    crate::grid::single(
                        axis_cells(m.cells, Self::item_rules(m.list.items, sizes, across), false),
                        c,
                    ),
            ),
            axis_cells(m.cells, Self::item_rules(m.list.items, sizes, across), false),
        );
        crate::grid::lemma_spread_all_len(
            Seq::new(
                first.rows as nat,
                |c: int|
                    crate::grid::single(
                        axis_cells(first.cells, Self::item_rules(first.list.items, sizes, down), true),
                        c,
                    ),
            ),
            axis_cells(first.cells, Self::item_rules(first.list.items, sizes, down), true),
        );
        assert forall|i: int| 0 <= i < m.list.items.len() implies W::ready(#[trigger] both.list.items[i]) by {
            W::lemma_ready(m.list.items[i], sizes, across, down, axis, rect, align);
            assert(first.list.items[i] == W::sized(m.list.items[i], sizes, across).0);
        }
        if Self::ready(m) {
            let again = Self::sized(m, sizes, axis).0;
            crate::grid::lemma_spread_all_len(
                Seq::new(
                    (if axis.vertical {
                        m.rows
                    } else {
                        m.cols
                    }) as nat,
                    |c: int|
                        crate::grid::single(
                            axis_cells(m.cells, Self::item_rules(m.list.items, sizes, axis), axis.vertical),
                            c,
                        ),
                ),
                axis_cells(m.cells, Self::item_rules(m.list.items, sizes, axis), axis.vertical),
            );
            assert forall|i: int| 0 <= i < m.list.items.len() implies W::ready(#[trigger] again.list.items[i]) by {
                assert(W::ready(m.list.items[i]));
                W::lemma_ready(m.list.items[i], sizes, across, down, axis, rect, align);
            }
            let placed = Self::placed(m, rect, align);
            assert forall|i: int| 0 <= i < m.list.items.len() implies W::ready(#[trigger] placed.list.items[i]) by {
                assert(W::ready(m.list.items[i]));
                W::lemma_ready(m.list.items[i], sizes, across, down, axis, grid_slot(m, rect, i), align);
            }
        }
    }

    proof fn lemma_layout(
        m: GridModel<W::Model>,
        sizes: SizeModel,
        axis: AxisInfo,
        rect: Rect,
        align: AlignHints,
        coord: Coord,
    ) {
        List::<W>::lemma_layout(m.list, sizes, axis, rect, align, coord);
        let sized = Self::sized(m, sizes, axis).0;
        let placed = Self::placed(m, rect, align);
        assert forall|i: int| 0 <= i < m.list.items.len() implies {
            &&& W::valid(#[trigger] sized.list.items[i])
            &&& W::nodes(sized.list.items[i]) == W::nodes(m.list.items[i])
            &&& same_ids(W::nodes(sized.list.items[i]), W::nodes(m.list.items[i]))
        } by {
            assert(W::valid(m.list.items[i]));
            W::lemma_layout(m.list.items[i], sizes, axis, rect, align, coord);
        }
        assert forall|i: int| 0 <= i < m.list.items.len() implies {
            &&& W::valid(#[trigger] placed.list.items[i])
            &&& same_ids(W::nodes(placed.list.items[i]), W::nodes(m.list.items[i]))
        } by {
            assert(W::valid(m.list.items[i]));
            W::lemma_layout(m.list.items[i], sizes, axis, grid_slot(m, rect, i), align, coord);
        }
        lemma_list_alike::<W>(m.list, sized.list);
        lemma_flat_equal::<W>(sized.list.items, m.list.items);
        lemma_list_alike::<W>(m.list, placed.list);
    }

    fn size_rules<S: SizeHandle>(&mut self, size_handle: &mut S, axis: AxisInfo) -> (r: SizeRules) {
        let ghost m = self.model();
        let ghost sizes = size_handle.answers();
        let vertical = axis.is_vertical();
        let n = self.list.len();
        let mut cells: Vec<Cell> = Vec::new();
        let mut i: usize = 0;
        while i < n
            invariant
                0 <= i <= n,
                n == m.list.items.len(),
                vertical == axis.vertical,
                self.list.model().core == m.list.core,
                self.list.model().direction == m.list.direction,
                self.list.model().rules == m.list.rules,
                self.list.model().items.len() == n,
                self.cells@ == m.cells,
                self.cols == m.cols,
                self.rows == m.rows,
                self.col_rules@ == m.col_rules,
                self.row_rules@ == m.row_rules,
                size_handle.answers() == sizes,
                cells@.len() == i,
                forall|k: int|
                    0 <= k < i ==> #[trigger] cells@[k] == (Cell {
                        span: span_at(m.cells, k, vertical),
                        rules: W::sized(m.list.items[k], sizes, axis).1,
                    }),
                forall|k: int|
                    0 <= k < n ==> #[trigger] self.list.model().items[k] == if k < i {
                        W::sized(m.list.items[k], sizes, axis).0
                    } else {
                        m.list.items[k]
                    },
            decreases n - i,
        {
            let ghost before = self.list.model().items;
            assert(before[i as int] == m.list.items[i as int]);
            let item = self.list.item_mut(i);
            let rules = item.size_rules(size_handle, axis);
            let place = if i < self.cells.len() {
                self.cells[i]
            } else {
                GridCell { col: Span { first: 0, len: 0 }, row: Span { first: 0, len: 0 } }
            };
            let span = if vertical {
                place.row
            } else {
                place.col
            };
            cells.push(Cell { span, rules });
            proof {
                assert forall|k: int| 0 <= k < n implies #[trigger] self.list.model().items[k] == if k < i + 1 {
                    W::sized(m.list.items[k], sizes, axis).0
                } else {
                    m.list.items[k]
                } by {
                    if k != i {
                        assert(self.list.model().items[k] == before[k]);
                    }
                }
            }
            i += 1;
        }
        proof {
            assert(self.list.model().items =~= Self::sized_items(m.list.items, sizes, axis));
            assert(cells@ =~= axis_cells(m.cells, Self::item_rules(m.list.items, sizes, axis), vertical));
        }
        if vertical {
            let tracks = track_rules(&cells, self.rows);
            let r = SizeRules::sum(&tracks);
            self.row_rules = tracks;
            r
        } else {
            let tracks = track_rules(&cells, self.cols);
            let r = SizeRules::sum(&tracks);
            self.col_rules = tracks;
            r
        }
    }

    fn set_rect(&mut self, rect: Rect, align: AlignHints) {
        let ghost m = self.model();
        self.list.set_own_rect(rect);
        let n = self.list.len();
        let mut across: Vec<Cell> = Vec::new();
        let mut down: Vec<Cell> = Vec::new();
        let mut i: usize = 0;
        while i < n
            invariant
                0 <= i <= n,
                self.cells@ == m.cells,
                across@.len() == i,
                down@.len() == i,
                forall|k: int| 0 <= k < i ==> (#[trigger] across@[k]).span == cell_at(m.cells, k).col,
                forall|k: int| 0 <= k < i ==> (#[trigger] down@[k]).span == cell_at(m.cells, k).row,
            decreases n - i,
        {
            let place = if i < self.cells.len() {
                self.cells[i]
            } else {
                GridCell { col: Span { first: 0, len: 0 }, row: Span { first: 0, len: 0 } }
            };
            across.push(Cell { span: place.col, rules: SizeRules::empty(crate::layout::StretchPolicy::Fixed) });
            down.push(Cell { span: place.row, rules: SizeRules::empty(crate::layout::StretchPolicy::Fixed) });
            i += 1;
        }
        let xs = places(&self.col_rules, rect.size.0, &across);
        let ys = places(&self.row_rules, rect.size.1, &down);
        let mut i: usize = 0;
        while i < n
            invariant
                0 <= i <= n,
                n == m.list.items.len(),
                self.list.model().core == (CoreData { rect, ..m.list.core }),
                self.list.model().direction == m.list.direction,
                self.list.model().rules == m.list.rules,
                self.list.model().items.len() == n,
                self.cells@ == m.cells,
                self.cols == m.cols,
                self.rows == m.rows,
                self.col_rules@ == m.col_rules,
                self.row_rules@ == m.row_rules,
                Self::ready(m),
                xs@.len() == n,
                ys@.len() == n,
                forall|k: int|
                    0 <= k < n ==> #[trigger] xs@[k] == spec_place(m.col_rules, rect.size.0, cell_at(m.cells, k).col),
                forall|k: int|
                    0 <= k < n ==> #[trigger] ys@[k] == spec_place(m.row_rules, rect.size.1, cell_at(m.cells, k).row),
                forall|k: int|
                    0 <= k < n ==> #[trigger] self.list.model().items[k] == if k < i {
                        W::placed(m.list.items[k], grid_slot(m, rect, k), align)
                    } else {
                        m.list.items[k]
                    },
            decreases n - i,
        {
            let ghost before = self.list.model().items;
            assert(before[i as int] == m.list.items[i as int]);
            let place = cell_rect(rect, xs[i], ys[i]);
            assert(place == grid_slot(m, rect, i as int));
            assert(W::ready(m.list.items[i as int]));
            let item = self.list.item_mut(i);
            item.set_rect(place, align);
            proof {
                assert forall|k: int| 0 <= k < n implies #[trigger] self.list.model().items[k] == if k < i + 1 {
                    W::placed(m.list.items[k], grid_slot(m, rect, k), align)
                } else {
                    m.list.items[k]
                } by {
                    if k != i {
                        assert(self.list.model().items[k] == before[k]);
                    }
                }
            }
            i += 1;
        }
        proof {
            assert(self.list.model().items =~= Self::placed_items(m, rect, align));
        }
    }

    fn spatial_range(&self) -> (r: (usize, usize)) {
        self.list.spatial_range()
    }

    fn find_id(&self, coord: Coord) -> (r: Option<WidgetId>) {
        self.list.find_id(coord)
    }

    fn draw<D: DrawHandle>(&self, draw_handle: &mut D, mgr: &ManagerState, disabled: bool) {
        self.list.draw(draw_handle, mgr, disabled);
    }
}

impl<W: Handler> Handler for Grid<W> {
    type Msg = W::Msg;

    open spec fn activable(m: GridModel<W::Model>) -> bool {
        false
    }

    /// The grid itself has no use for any event.
    open spec fn handled(m: GridModel<W::Model>, mgr: ManagerModel, event: Event) -> Sent<
        GridModel<W::Model>,
        W::Msg,
    > {
        Sent { widget: m, mgr, response: Response::Unhandled(event) }
    }

    proof fn lemma_handled(m: GridModel<W::Model>, mgr: ManagerModel, event: Event) {
    }

    fn activation_via_press(&self) -> (r: bool) {
        false
    }

    fn handle(&mut self, mgr: &mut Manager, event: Event) -> (r: Response<W::Msg>) {
        Response::Unhandled(event)
    }
}

impl<W: SendEvent> SendEvent for Grid<W> {
    /// A disabled grid hands the event back. An event for an item or
    /// something below it goes to that item, and what comes back is passed
    /// on as it is. Any other event comes back unhandled.
    open spec fn sent(m: GridModel<W::Model>, mgr: ManagerModel, id: WidgetId, event: Event) -> Sent<
        GridModel<W::Model>,
        W::Msg,
    > {
        let s = List::<W>::sent(m.list, mgr, id, event);
        Sent { widget: GridModel { list: s.widget, ..m }, mgr: s.mgr, response: s.response }
    }

    proof fn lemma_sent(m: GridModel<W::Model>, mgr: ManagerModel, id: WidgetId, event: Event) {
        List::<W>::lemma_sent(m.list, mgr, id, event);
    }

    fn send(&mut self, mgr: &mut Manager, id: WidgetId, event: Event) -> (r: Response<W::Msg>) {
        self.list.send(mgr, id, event)
    }
}

} // verus!
