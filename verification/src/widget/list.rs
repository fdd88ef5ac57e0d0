//! A sequence of widgets of one type, laid out in a row or a column.

use vstd::prelude::*;
use crate::data::{AlignHints, CoreData, Direction, TkAction};
use crate::event::{CursorIcon, Event, Response};
use crate::geom::{clamp_i32, offset_ordinate, Coord, Rect, Size};
use crate::id::WidgetId;
use crate::layout::{offset_at, offsets, spec_share, AxisInfo, SizeRules};
use crate::manager::{Manager, ManagerModel, ManagerState};
use crate::theme::{DrawCmd, DrawHandle, SizeHandle, SizeModel};
use crate::traits::{
    lemma_same_ids, same_ids, Handler, Layout, SendEvent, Sent, Visitor,
    WidgetCore,
};

verus! {

/// A row or column of widgets.
#[derive(Clone, Debug)]
pub struct List<W> {
    core: CoreData,
    direction: Direction,
    widgets: Vec<W>,
    /// The rules of the children along the list, from the last time sizes
    /// were negotiated on that axis.
    rules: Vec<SizeRules>,
}

/// A list whose widgets run downwards.
pub type Column<W> = List<W>;

/// A list whose widgets run to the right.
pub type Row<W> = List<W>;

/// A [`List`] as a mathematical value; `I` is the model of the items.
pub struct ListModel<I> {
    pub core: CoreData,
    pub direction: Direction,
    pub items: Seq<I>,
    pub rules: Seq<SizeRules>,
}

/// The walks of `items`, one after the other.
#[verifier::opaque]
pub open spec fn flat<W: WidgetCore>(items: Seq<W::Model>) -> Seq<CoreData>
    decreases items.len(),
{
    if items.len() == 0 {
        Seq::empty()
    } else {
        flat::<W>(items.drop_last()) + W::nodes(items.last())
    }
}

/// The number of nodes in the first `i` of `items`.
pub open spec fn before<W: WidgetCore>(items: Seq<W::Model>, i: int) -> int {
    flat::<W>(items.take(i)).len() as int
}

/// The data of each of `items` itself.
pub open spec fn owns<W: WidgetCore>(items: Seq<W::Model>) -> Seq<CoreData> {
    Seq::new(items.len(), |i: int| W::own(items[i]))
}

/// The item whose range holds `id`, where there is one.
pub open spec fn covering<W: WidgetCore>(items: Seq<W::Model>, id: WidgetId) -> int {
    choose|i: int| 0 <= i < items.len() && W::own(#[trigger] items[i]).spec_covers(id)
}

/// Whether the range of some item holds `id`.
pub open spec fn covered<W: WidgetCore>(items: Seq<W::Model>, id: WidgetId) -> bool {
    exists|i: int| 0 <= i < items.len() && W::own(#[trigger] items[i]).spec_covers(id)
}

/// `items` configured one after the other, the first of them as `next`,
/// and the manager after that.
pub open spec fn configured_items<W: WidgetCore>(items: Seq<W::Model>, mgr: ManagerModel, next: int) -> (
    Seq<W::Model>,
    ManagerModel,
)
    decreases items.len(),
{
    if items.len() == 0 {
        (Seq::empty(), mgr)
    } else {
        let init = configured_items::<W>(items.drop_last(), mgr, next);
        let last = W::configured(
            items.last(),
            init.1,
            WidgetId((next + flat::<W>(items.drop_last()).len()) as u32),
        );
        (init.0.push(last.0), last.1)
    }
}

/// One more item adds its walk to the nodes before.
pub proof fn lemma_before_step<W: WidgetCore>(items: Seq<W::Model>, i: int)
    requires
        0 <= i < items.len(),
    ensures
        flat::<W>(items.take(i + 1)) == flat::<W>(items.take(i)) + W::nodes(items[i]),
        before::<W>(items, i + 1) == before::<W>(items, i) + W::nodes(items[i]).len(),
{
    reveal_with_fuel(flat, 2);
    assert(items.take(i + 1).drop_last() =~= items.take(i));
    assert(items.take(i + 1).last() == items[i]);
}

/// All items together have all the nodes.
pub proof fn lemma_before_all<W: WidgetCore>(items: Seq<W::Model>)
    ensures
        before::<W>(items, items.len() as int) == flat::<W>(items).len(),
        before::<W>(items, 0) == 0,
{
    reveal_with_fuel(flat, 2);
    assert(items.take(items.len() as int) =~= items);
    assert(items.take(0) =~= Seq::<W::Model>::empty());
}

/// More items have no fewer nodes.
pub proof fn lemma_before_grows<W: WidgetCore>(items: Seq<W::Model>, i: int, j: int)
    requires
        0 <= i <= j <= items.len(),
    ensures
        before::<W>(items, i) <= before::<W>(items, j),
    decreases j - i,
{
    if i < j {
        lemma_before_grows::<W>(items, i, j - 1);
        lemma_before_step::<W>(items, j - 1);
    }
}

/// The walk of item `i` stands in the joint walk behind the nodes of the
/// items before it.
pub proof fn lemma_flat_index<W: WidgetCore>(items: Seq<W::Model>, i: int, j: int)
    requires
        0 <= i < items.len(),
        0 <= j < W::nodes(items[i]).len(),
    ensures
        before::<W>(items, i) + j < flat::<W>(items).len(),
        flat::<W>(items)[before::<W>(items, i) + j] == W::nodes(items[i])[j],
    decreases items.len(),
{
    reveal_with_fuel(flat, 2);
    let n = items.len() as int;
    if i == n - 1 {
        assert(items.take(i) =~= items.drop_last());
    } else {
        let init = items.drop_last();
        lemma_flat_index::<W>(init, i, j);
        assert(init.take(i) =~= items.take(i));
    }
}

/// Every place in the joint walk belongs to the walk of some item.
pub proof fn lemma_flat_locate<W: WidgetCore>(items: Seq<W::Model>, p: int) -> (i: int)
    requires
        0 <= p < flat::<W>(items).len(),
    ensures
        0 <= i < items.len(),
        before::<W>(items, i) <= p < before::<W>(items, i + 1),
    decreases items.len(),
{
    reveal_with_fuel(flat, 2);
    let n = items.len() as int;
    let init = items.drop_last();
    lemma_before_all::<W>(items);
    lemma_before_step::<W>(items, n - 1);
    if p >= flat::<W>(init).len() {
        assert(items.take(n - 1) =~= init);
        n - 1
    } else {
        let i = lemma_flat_locate::<W>(init, p);
        assert(init.take(i) =~= items.take(i));
        assert(init.take(i + 1) =~= items.take(i + 1));
        i
    }
}

/// Configuring the items makes each of them valid, numbers them one after
/// the other from `next`, keeps the number of nodes of each, and keeps the
/// manager well-formed. Configuring some of the first items gives the same
/// as taking them from all the configured ones.
#[verifier::rlimit(60)]
pub proof fn lemma_configured_items<W: WidgetCore>(items: Seq<W::Model>, mgr: ManagerModel, next: int)
    requires
        next >= 1,
        next + flat::<W>(items).len() <= u32::MAX,
        mgr.wf(),
    ensures
        configured_items::<W>(items, mgr, next).0.len() == items.len(),
        configured_items::<W>(items, mgr, next).1.wf(),
        flat::<W>(configured_items::<W>(items, mgr, next).0).len() == flat::<W>(items).len(),
        forall|i: int|
            0 <= i < items.len() ==> {
                &&& W::valid(#[trigger] configured_items::<W>(items, mgr, next).0[i])
                &&& W::own(configured_items::<W>(items, mgr, next).0[i]).id.0 == next + before::<W>(items, i)
                &&& W::nodes(configured_items::<W>(items, mgr, next).0[i]).len() == W::nodes(items[i]).len()
            },
        forall|i: int|
            0 <= i <= items.len() ==> before::<W>(configured_items::<W>(items, mgr, next).0, i) == #[trigger] before::<
                W,
            >(items, i),
    decreases items.len(),
{
    reveal_with_fuel(flat, 1);
    let n = items.len() as int;
    let out = configured_items::<W>(items, mgr, next).0;
    if n == 0 {
        assert forall|i: int| 0 <= i <= items.len() implies before::<W>(out, i) == #[trigger] before::<W>(
            items,
            i,
        ) by {
            assert(out.take(i) =~= items.take(i));
        }
    } else {
        let init = items.drop_last();
        lemma_configured_items::<W>(init, mgr, next);
        let done = configured_items::<W>(init, mgr, next);
        W::lemma_count(items.last());
        let at = WidgetId((next + flat::<W>(init).len()) as u32);
        W::lemma_configured(items.last(), done.1, at);
        assert(out.drop_last() =~= done.0);
        assert(out.last() == W::configured(items.last(), done.1, at).0);
        assert forall|i: int| 0 <= i <= items.len() implies before::<W>(out, i) == #[trigger] before::<W>(
            items,
            i,
        ) by {
            if i < n {
                assert(out.take(i) =~= done.0.take(i));
                assert(items.take(i) =~= init.take(i));
                assert(before::<W>(done.0, i) == before::<W>(init, i));
            } else {
                assert(out.take(i) =~= out);
                assert(items.take(i) =~= items);
            }
        }
        assert forall|i: int| 0 <= i < items.len() implies {
            &&& W::valid(#[trigger] out[i])
            &&& W::own(out[i]).id.0 == next + before::<W>(items, i)
            &&& W::nodes(out[i]).len() == W::nodes(items[i]).len()
        } by {
            if i < n - 1 {
                assert(out[i] == done.0[i]);
                assert(items.take(i) =~= init.take(i));
            } else {
                assert(items.take(i) =~= init);
            }
        }
    }
}

/// Configuring the first `k + 1` items configures the first `k` in the same
/// way and then the next one.
pub proof fn lemma_configured_step<W: WidgetCore>(items: Seq<W::Model>, mgr: ManagerModel, next: int, k: int)
    requires
        0 <= k < items.len(),
    ensures
        ({
            let init = configured_items::<W>(items.take(k), mgr, next);
            let one = W::configured(items[k], init.1, WidgetId((next + before::<W>(items, k)) as u32));
            configured_items::<W>(items.take(k + 1), mgr, next) == (init.0.push(one.0), one.1)
        }),
{
    assert(items.take(k + 1).drop_last() =~= items.take(k));
    assert(items.take(k + 1).last() == items[k]);
}

/// Whether `m` is a list with valid items that are numbered one after the
/// other behind the list itself.
pub open spec fn list_valid<W: WidgetCore>(m: ListModel<W::Model>) -> bool {
    &&& m.core.id.0 >= 1
    &&& m.core.last.0 == m.core.id.0 + flat::<W>(m.items).len()
    &&& forall|i: int|
        0 <= i < m.items.len() ==> {
            &&& W::valid(#[trigger] m.items[i])
            &&& W::own(m.items[i]).id.0 == m.core.id.0 + 1 + before::<W>(m.items, i)
        }
}

/// In a valid list, item `k` stands in the joint walk where its identifier
/// says, and its range ends where the nodes up to and with it end.
pub proof fn lemma_list_item<W: WidgetCore>(m: ListModel<W::Model>, k: int)
    requires
        list_valid::<W>(m),
        0 <= k < m.items.len(),
    ensures
        W::nodes(m.items[k]).len() >= 1,
        0 <= before::<W>(m.items, k) < before::<W>(m.items, k + 1) <= flat::<W>(m.items).len(),
        before::<W>(m.items, k + 1) == before::<W>(m.items, k) + W::nodes(m.items[k]).len(),
        W::own(m.items[k]).id.0 == m.core.id.0 + 1 + before::<W>(m.items, k),
        W::own(m.items[k]).last.0 == m.core.id.0 + before::<W>(m.items, k + 1),
        flat::<W>(m.items)[before::<W>(m.items, k)] == W::own(m.items[k]),
        (seq![m.core] + flat::<W>(m.items))[W::own(m.items[k]).id.0 - m.core.id.0] == W::own(m.items[k]),
        owns::<W>(m.items)[k] == W::own(m.items[k]),
        W::own(m.items[k]).id.0 <= W::own(m.items[k]).last.0 <= m.core.last.0,
        m.core.id.0 < W::own(m.items[k]).id.0,
{
    lemma_before_all::<W>(m.items);
    W::lemma_tree(m.items[k]);
    lemma_before_step::<W>(m.items, k);
    lemma_before_grows::<W>(m.items, k + 1, m.items.len() as int);
    lemma_flat_index::<W>(m.items, k, 0);
    let all = flat::<W>(m.items);
    let b = before::<W>(m.items, k);
    assert((seq![m.core] + all)[1 + b] == all[b]);
}

/// In a valid list, the node at place `i` of the walk has the identifier of
/// the list plus `i`, and its range lies within that of the list.
pub proof fn lemma_list_node<W: WidgetCore>(m: ListModel<W::Model>, i: int)
    requires
        list_valid::<W>(m),
        0 <= i < 1 + flat::<W>(m.items).len(),
    ensures
        (seq![m.core] + flat::<W>(m.items))[i].id.0 == m.core.id.0 + i,
        (seq![m.core] + flat::<W>(m.items))[i].id.0 <= (seq![m.core] + flat::<W>(m.items))[i].last.0
            <= m.core.last.0,
{
    let all = flat::<W>(m.items);
    if i > 0 {
        let p = i - 1;
        let c = lemma_flat_locate::<W>(m.items, p);
        let j = p - before::<W>(m.items, c);
        lemma_list_item::<W>(m, c);
        lemma_flat_index::<W>(m.items, c, j);
        W::lemma_tree(m.items[c]);
        assert((seq![m.core] + all)[i] == all[p]);
        assert(all[p] == W::nodes(m.items[c])[j]);
        assert(W::nodes(m.items[c])[j].id.0 == W::own(m.items[c]).id.0 + j);
    }
}

impl<W: WidgetCore> List<W> {
    /// A list of `widgets` that runs in `direction`, not yet configured.
    pub fn new_with_direction(direction: Direction, widgets: Vec<W>) -> (r: List<W>)
        ensures
            r.model() == (ListModel {
                core: CoreData::spec_unset(),
                direction,
                items: Seq::new(widgets@.len(), |i: int| widgets@[i].model()),
                rules: Seq::empty(),
            }),
    {
        List { core: CoreData::unset(), direction, widgets, rules: Vec::new() }
    }

    /// A column of `widgets`.
    pub fn new(widgets: Vec<W>) -> (r: List<W>)
        ensures
            r.model() == (ListModel {
                core: CoreData::spec_unset(),
                direction: Direction::Down,
                items: Seq::new(widgets@.len(), |i: int| widgets@[i].model()),
                rules: Seq::empty(),
            }),
    {
        List::new_with_direction(Direction::Down, widgets)
    }

    /// The direction in which the list runs.
    pub fn direction(&self) -> (r: Direction)
        ensures
            r == self.model().direction,
    {
        self.direction
    }

    /// The widget at `index`.
    pub fn item(&self, index: usize) -> (r: &W)
        requires
            index < self.model().items.len(),
        ensures
            r.model() == self.model().items[index as int],
    {
        &self.widgets[index]
    }

    /// The widget at `index`, to change it. The list holds whatever the
    /// widget has become when the caller is done with it.
    pub fn item_mut(&mut self, index: usize) -> (r: &mut W)
        requires
            index < old(self).model().items.len(),
        ensures
            r.model() == old(self).model().items[index as int],
            final(self).model().items =~= old(self).model().items.update(index as int, final(r).model()),
            final(self).model().core == old(self).model().core,
            final(self).model().direction == old(self).model().direction,
            final(self).model().rules == old(self).model().rules,
    {
        &mut self.widgets[index]
    }

    /// Gives the list itself the rectangle `rect`. The items stay where
    /// they are.
    pub fn set_own_rect(&mut self, rect: Rect)
        ensures
            final(self).model() == (ListModel { core: CoreData { rect, ..old(self).model().core }, ..old(self).model() }),
    {
        self.core.rect = rect;
    }

    /// The place of the widget whose range holds `id`, if there is one.
    pub fn find_child(&self, id: WidgetId) -> (r: Option<usize>)
        ensures
            r matches Some(i) ==> i < self.model().items.len() && W::own(self.model().items[i as int]).spec_covers(
                id,
            ),
            r is None ==> !covered::<W>(self.model().items, id),
    {
        self.locate(id)
    }

    /// The place of the first widget whose range holds `id`.
    fn locate(&self, id: WidgetId) -> (r: Option<usize>)
        ensures
            r matches Some(i) ==> i < self.model().items.len() && W::own(self.model().items[i as int]).spec_covers(
                id,
            ) && self.model().items[i as int] == self.widgets@[i as int].model(),
            r is None ==> !covered::<W>(self.model().items, id),
    {
        let ghost items = self.model().items;
        let mut i: usize = 0;
        while i < self.widgets.len()
            invariant
                0 <= i <= self.widgets.len(),
                self.widgets.len() == items.len(),
                items == self.model().items,
                forall|k: int| 0 <= k < i ==> !W::own(#[trigger] items[k]).spec_covers(id),
            decreases self.widgets.len() - i,
        {
            assert(self.widgets@[i as int].model() == items[i as int]);
            if self.widgets[i].core_data().covers(id) {
                return Some(i);
            }
            i += 1;
        }
        None
    }
}

impl<W: WidgetCore> WidgetCore for List<W> {
    type Model = ListModel<W::Model>;

    closed spec fn model(&self) -> ListModel<W::Model> {
        ListModel {
            core: self.core,
            direction: self.direction,
            items: Seq::new(self.widgets@.len(), |i: int| self.widgets@[i].model()),
            rules: self.rules@,
        }
    }

    open spec fn own(m: ListModel<W::Model>) -> CoreData {
        m.core
    }

    open spec fn children(m: ListModel<W::Model>) -> Seq<CoreData> {
        owns::<W>(m.items)
    }

    open spec fn nodes(m: ListModel<W::Model>) -> Seq<CoreData> {
        seq![m.core] + flat::<W>(m.items)
    }

    /// Every item is valid, and the items have the identifiers that follow
    /// the list's own, one item after the other.
    open spec fn valid(m: ListModel<W::Model>) -> bool {
        list_valid::<W>(m)
    }

    open spec fn configured(m: ListModel<W::Model>, mgr: ManagerModel, first: WidgetId) -> (
        ListModel<W::Model>,
        ManagerModel,
    ) {
        let items = configured_items::<W>(m.items, mgr, first.0 + 1);
        (
            ListModel {
                core: CoreData {
                    id: first,
                    last: WidgetId((first.0 + flat::<W>(m.items).len()) as u32),
                    ..m.core
                },
                items: items.0,
                ..m
            },
            items.1,
        )
    }

    open spec fn name() -> Seq<char> {
        "List"@
    }

    open spec fn navigable(m: ListModel<W::Model>) -> bool {
        false
    }

    open spec fn cursor(m: ListModel<W::Model>) -> CursorIcon {
        CursorIcon::Default
    }

    open spec fn with_disabled(m: ListModel<W::Model>, disabled: bool) -> ListModel<W::Model> {
        ListModel { core: CoreData { disabled, ..m.core }, ..m }
    }

    proof fn lemma_with_disabled(m: ListModel<W::Model>, disabled: bool) {
        assert(Self::nodes(Self::with_disabled(m, disabled)) =~= Self::nodes(m).update(
            0,
            CoreData { disabled, ..m.core },
        ));
    }

    proof fn lemma_count(m: ListModel<W::Model>) {
    }

    proof fn lemma_tree(m: ListModel<W::Model>) {
        let nodes = Self::nodes(m);
        let children = Self::children(m);
        assert forall|i: int| 0 <= i < nodes.len() implies {
            &&& (#[trigger] nodes[i]).id.0 == m.core.id.0 + i
            &&& nodes[i].id.0 <= nodes[i].last.0 <= m.core.last.0
        } by {
            lemma_list_node::<W>(m, i);
        }
        assert forall|k: int| 0 <= k < children.len() implies {
            &&& m.core.id.0 < (#[trigger] children[k]).id.0
            &&& children[k].id.0 <= children[k].last.0 <= m.core.last.0
            &&& nodes[children[k].id.0 - m.core.id.0] == children[k]
        } by {
            lemma_list_item::<W>(m, k);
        }
        assert forall|k: int, l: int| 0 <= k < l < children.len() implies (#[trigger] children[k]).last.0 < (
        #[trigger] children[l]).id.0 by {
            lemma_list_item::<W>(m, k);
            lemma_list_item::<W>(m, l);
            lemma_before_grows::<W>(m.items, k + 1, l);
        }
    }

    proof fn lemma_configured(m: ListModel<W::Model>, mgr: ManagerModel, first: WidgetId) {
        lemma_configured_items::<W>(m.items, mgr, first.0 + 1);
    }

    fn core_data(&self) -> (r: &CoreData) {
        &self.core
    }

    fn widget_name(&self) -> (r: &'static str) {
        "List"
    }

    fn key_nav(&self) -> (r: bool) {
        false
    }

    fn cursor_icon(&self) -> (r: CursorIcon) {
        CursorIcon::Default
    }

    fn set_disabled(&mut self, disabled: bool) -> (r: TkAction) {
        self.core.disabled = disabled;
        TkAction::Redraw
    }

    fn len(&self) -> (r: usize) {
        self.widgets.len()
    }

    fn get(&self, index: usize) -> (r: Option<CoreData>) {
        if index < self.widgets.len() {
            Some(*self.widgets[index].core_data())
        } else {
            None
        }
    }

    fn find(&self, id: WidgetId) -> (r: Option<CoreData>) {
        if id.0 == self.core.id.0 {
            return Some(self.core);
        }
        if !self.core.covers(id) {
            return None;
        }
        let ghost m = self.model();
        proof {
            Self::lemma_tree(m);
            lemma_before_all::<W>(m.items);
        }
        let mut i: usize = 0;
        while i < self.widgets.len()
            invariant
                0 <= i <= self.widgets.len(),
                m == self.model(),
                Self::valid(m),
                m.core.spec_covers(id),
                id != m.core.id,
                id.0 > m.core.id.0 + before::<W>(m.items, i as int),
            decreases self.widgets.len() - i,
        {
            proof {
                W::lemma_tree(m.items[i as int]);
                lemma_before_step::<W>(m.items, i as int);
            }
            if self.widgets[i].core_data().covers(id) {
                let r = self.widgets[i].find(id);
                proof {
                    let j = id.0 - W::own(m.items[i as int]).id.0;
                    lemma_flat_index::<W>(m.items, i as int, j);
                }
                return r;
            }
            i += 1;
        }
        proof {
            assert(false);
        }
        None
    }

    fn walk<V: Visitor>(&self, visitor: &mut V) {
        visitor.visit(&self.core);
        let ghost m = self.model();
        let mut i: usize = 0;
        proof {
            lemma_before_all::<W>(m.items);
            assert(m.items.take(0) =~= Seq::<W::Model>::empty());
            assert(visitor.seen() =~= old(visitor).seen() + seq![m.core] + flat::<W>(m.items.take(0)));
        }
        while i < self.widgets.len()
            invariant
                0 <= i <= self.widgets.len(),
                m == self.model(),
                visitor.seen() == old(visitor).seen() + seq![m.core] + flat::<W>(m.items.take(i as int)),
            decreases self.widgets.len() - i,
        {
            self.widgets[i].walk(visitor);
            proof {
                lemma_before_step::<W>(m.items, i as int);
                assert(visitor.seen() =~= old(visitor).seen() + seq![m.core] + flat::<W>(
                    m.items.take(i as int + 1),
                ));
            }
            i += 1;
        }
        proof {
            assert(m.items.take(i as int) =~= m.items);
            assert(visitor.seen() =~= old(visitor).seen() + Self::nodes(m));
        }
    }

    fn configure(&mut self, mgr: &mut Manager, first: WidgetId) -> (next: WidgetId) {
        let ghost m = self.model();
        let ghost mgr0 = mgr@;
        self.core.id = first;
        let mut next = first.next();
        let mut i: usize = 0;
        proof {
            lemma_before_all::<W>(m.items);
            assert(m.items.take(0) =~= Seq::<W::Model>::empty());
            assert(self.model().items =~= configured_items::<W>(m.items.take(0), mgr0, first.0 + 1).0
                + m.items.skip(0));
        }
        while i < self.widgets.len()
            invariant
                0 <= i <= self.widgets.len(),
                self.widgets.len() == m.items.len(),
                first.0 >= 1,
                first.0 + 1 + flat::<W>(m.items).len() <= u32::MAX,
                mgr0.wf(),
                self.core == (CoreData { id: first, ..m.core }),
                self.direction == m.direction,
                self.rules@ == m.rules,
                next.0 == first.0 + 1 + before::<W>(m.items, i as int),
                mgr@ == configured_items::<W>(m.items.take(i as int), mgr0, first.0 + 1).1,
                self.model().items == configured_items::<W>(m.items.take(i as int), mgr0, first.0 + 1).0
                    + m.items.skip(i as int),
            decreases self.widgets.len() - i,
        {
            let ghost before_step = self.model().items;
            proof {
                lemma_before_step::<W>(m.items, i as int);
                lemma_before_grows::<W>(m.items, i as int + 1, m.items.len() as int);
                lemma_before_all::<W>(m.items);
                lemma_before_grows::<W>(m.items, 0, i as int);
                lemma_before_all::<W>(m.items.take(i as int));
                assert(m.items.take(i as int).take(i as int) =~= m.items.take(i as int));
                lemma_configured_items::<W>(m.items.take(i as int), mgr0, first.0 + 1);
                lemma_configured_step::<W>(m.items, mgr0, first.0 + 1, i as int);
                assert(before_step[i as int] == m.items[i as int]);
                assert(self.widgets@[i as int].model() == m.items[i as int]);
            }
            next = self.widgets[i].configure(mgr, next);
            proof {
                let done = configured_items::<W>(m.items.take(i as int), mgr0, first.0 + 1);
                let more = configured_items::<W>(m.items.take(i as int + 1), mgr0, first.0 + 1);
                assert(self.model().items =~= more.0 + m.items.skip(i as int + 1)) by {
                    assert forall|k: int| 0 <= k < m.items.len() implies self.model().items[k] == (more.0
                        + m.items.skip(i as int + 1))[k] by {
                        if k < i {
                            assert(self.model().items[k] == before_step[k]);
                            assert(before_step[k] == done.0[k]);
                        } else if k == i {
                        } else {
                            assert(self.model().items[k] == before_step[k]);
                            assert(before_step[k] == m.items.skip(i as int)[k - i]);
                        }
                    }
                }
            }
            i += 1;
        }
        proof {
            assert(m.items.take(i as int) =~= m.items);
            assert(m.items.skip(i as int) =~= Seq::<W::Model>::empty());
            assert(self.model().items =~= configured_items::<W>(m.items, mgr0, first.0 + 1).0);
        }
        self.core.last = WidgetId(next.0 - 1);
        next
    }
}

/// Lists whose items have walks that name the same widgets have joint walks
/// that do, with as many nodes in every part.
pub proof fn lemma_flat_alike<W: WidgetCore>(a: Seq<W::Model>, b: Seq<W::Model>)
    requires
        a.len() == b.len(),
        forall|i: int| 0 <= i < a.len() ==> same_ids(W::nodes(#[trigger] a[i]), W::nodes(b[i])),
    ensures
        same_ids(flat::<W>(a), flat::<W>(b)),
    decreases a.len(),
{
    reveal_with_fuel(flat, 2);
    if a.len() > 0 {
        lemma_flat_alike::<W>(a.drop_last(), b.drop_last());
        let fa = flat::<W>(a.drop_last());
        let fb = flat::<W>(b.drop_last());
        let na = W::nodes(a.last());
        let nb = W::nodes(b.last());
        assert(same_ids(na, nb));
        assert forall|i: int| 0 <= i < (fa + na).len() implies {
            &&& (#[trigger] (fa + na)[i]).id == (fb + nb)[i].id
            &&& (fa + na)[i].last == (fb + nb)[i].last
            &&& (fa + na)[i].disabled == (fb + nb)[i].disabled
        } by {
            if i < fa.len() {
                assert((fa + na)[i] == fa[i]);
                assert((fb + nb)[i] == fb[i]);
            } else {
                assert((fa + na)[i] == na[i - fa.len()]);
                assert((fb + nb)[i] == nb[i - fa.len()]);
            }
        }
    }
}

/// Lists whose items have the same walks have the same joint walk.
pub proof fn lemma_flat_equal<W: WidgetCore>(a: Seq<W::Model>, b: Seq<W::Model>)
    requires
        a.len() == b.len(),
        forall|i: int| 0 <= i < a.len() ==> W::nodes(#[trigger] a[i]) == W::nodes(b[i]),
    ensures
        flat::<W>(a) == flat::<W>(b),
    decreases a.len(),
{
    reveal_with_fuel(flat, 2);
    if a.len() > 0 {
        lemma_flat_equal::<W>(a.drop_last(), b.drop_last());
    }
}

/// A valid list stays valid when its items are replaced by valid items
/// whose walks name the same widgets.
pub proof fn lemma_list_alike<W: WidgetCore>(m: ListModel<W::Model>, n: ListModel<W::Model>)
    requires
        list_valid::<W>(m),
        n.core.id == m.core.id,
        n.core.last == m.core.last,
        n.core.disabled == m.core.disabled,
        n.items.len() == m.items.len(),
        forall|i: int|
            0 <= i < m.items.len() ==> W::valid(#[trigger] n.items[i]) && same_ids(
                W::nodes(n.items[i]),
                W::nodes(m.items[i]),
            ),
    ensures
        list_valid::<W>(n),
        same_ids(seq![n.core] + flat::<W>(n.items), seq![m.core] + flat::<W>(m.items)),
{
    lemma_flat_alike::<W>(n.items, m.items);
    assert forall|i: int| 0 <= i < n.items.len() implies {
        &&& W::valid(#[trigger] n.items[i])
        &&& W::own(n.items[i]).id.0 == n.core.id.0 + 1 + before::<W>(n.items, i)
    } by {
        assert(W::valid(m.items[i]));
        lemma_same_ids::<W>(n.items[i], m.items[i]);
        assert forall|k: int| 0 <= k < i implies same_ids(
            W::nodes(#[trigger] n.items.take(i)[k]),
            W::nodes(m.items.take(i)[k]),
        ) by {
            assert(n.items.take(i)[k] == n.items[k]);
            assert(m.items.take(i)[k] == m.items[k]);
        }
        lemma_flat_alike::<W>(n.items.take(i), m.items.take(i));
    }
    let a = seq![n.core] + flat::<W>(n.items);
    let b = seq![m.core] + flat::<W>(m.items);
    assert forall|i: int| 0 <= i < a.len() implies {
        &&& (#[trigger] a[i]).id == b[i].id
        &&& a[i].last == b[i].last
        &&& a[i].disabled == b[i].disabled
    } by {
        if i > 0 {
            assert(a[i] == flat::<W>(n.items)[i - 1]);
            assert(b[i] == flat::<W>(m.items)[i - 1]);
        }
    }
}

/// The rules of a row in the order in which the widgets stand in it: the
/// order of the list or, in a list that runs to the left or upwards, the
/// opposite order.
pub open spec fn ordered(rules: Seq<SizeRules>, reversed: bool) -> Seq<SizeRules> {
    if reversed {
        rules.reverse()
    } else {
        rules
    }
}

/// The part of `rect` that begins `offset` along the list and is `extent`
/// long, all of `rect` across.
pub open spec fn part(rect: Rect, vertical: bool, offset: u32, extent: u32) -> Rect {
    if vertical {
        Rect { pos: Coord(rect.pos.0, clamp_i32(rect.pos.1 + offset)), size: Size(rect.size.0, extent) }
    } else {
        Rect { pos: Coord(clamp_i32(rect.pos.0 + offset), rect.pos.1), size: Size(extent, rect.size.1) }
    }
}

/// The rectangle of item `i` of a list of `n` items within `rect`.
///
/// The length of `rect` along the list is divided among the items by their
/// rules, and the items stand one after the other with their margins in
/// between, beginning at the start of `rect`; in a list that runs to the
/// left or upwards the last item stands first. Across the list every item
/// has all of `rect`. The rules are those of the `n` items, from the first
/// pass of layout.
pub open spec fn slot(rect: Rect, direction: Direction, rules: Seq<SizeRules>, n: int, i: int) -> Rect {
    let vertical = direction.spec_is_vertical();
    let target = if vertical {
        rect.size.1
    } else {
        rect.size.0
    };
    let row = ordered(rules, direction.spec_is_reversed());
    let extents = spec_share(row, target);
    let k = if direction.spec_is_reversed() {
        n - 1 - i
    } else {
        i
    };
    part(rect, vertical, offset_at(row, extents, k), extents[k])
}

/// The rules in the order in which the widgets stand in a row.
pub fn ordered_rules(rules: &Vec<SizeRules>, reversed: bool) -> (out: Vec<SizeRules>)
    ensures
        out@ == ordered(rules@, reversed),
{
    let n = rules.len();
    let mut out: Vec<SizeRules> = Vec::new();
    let mut j: usize = 0;
    while j < n
        invariant
            0 <= j <= n,
            n == rules.len(),
            out@.len() == j,
            forall|t: int|
                0 <= t < j ==> #[trigger] out@[t] == if reversed {
                    rules@[n - 1 - t]
                } else {
                    rules@[t]
                },
        decreases n - j,
    {
        let from = if reversed {
            n - 1 - j
        } else {
            j
        };
        out.push(rules[from]);
        j += 1;
    }
    proof {
        assert(out@ =~= ordered(rules@, reversed));
    }
    out
}

/// The rectangles of the `n` items of a list within `rect`, by the rules of
/// the items from the first pass of layout.
pub fn slots(rect: Rect, direction: Direction, rules: &Vec<SizeRules>, n: usize) -> (out: Vec<Rect>)
    requires
        rules@.len() == n,
    ensures
        out@.len() == n,
        forall|i: int| 0 <= i < n ==> #[trigger] out@[i] == slot(rect, direction, rules@, n as int, i),
{
    let vertical = direction.is_vertical();
    let reversed = direction.is_reversed();
    let mut out: Vec<Rect> = Vec::new();
    let target = if vertical {
        rect.size.1
    } else {
        rect.size.0
    };
    let row = ordered_rules(rules, reversed);
    let extents = SizeRules::solve_seq(&row, target);
    let starts = offsets(&row, &extents);
    let mut i: usize = 0;
    while i < n
        invariant
            0 <= i <= n,
            rules.len() == n,
            vertical == direction.spec_is_vertical(),
            reversed == direction.spec_is_reversed(),
            target == if vertical {
                rect.size.1
            } else {
                rect.size.0
            },
            row@ == ordered(rules@, reversed),
            row@.len() == n,
            extents@ == spec_share(row@, target),
            starts@.len() == n,
            forall|k: int| 0 <= k < n ==> #[trigger] starts@[k] == offset_at(row@, extents@, k),
            out@.len() == i,
            forall|t: int| 0 <= t < i ==> #[trigger] out@[t] == slot(rect, direction, rules@, n as int, t),
        decreases n - i,
    {
        let k = if reversed {
            n - 1 - i
        } else {
            i
        };
        let place = if vertical {
            Rect {
                pos: Coord(rect.pos.0, offset_ordinate(rect.pos.1, starts[k])),
                size: Size(rect.size.0, extents[k]),
            }
        } else {
            Rect {
                pos: Coord(offset_ordinate(rect.pos.0, starts[k]), rect.pos.1),
                size: Size(extents[k], rect.size.1),
            }
        };
        out.push(place);
        i += 1;
    }
    out
}

/// The first hit among `items`, in order.
pub open spec fn hit_in<W: Layout>(items: Seq<W::Model>, coord: Coord) -> Option<WidgetId>
    decreases items.len(),
{
    if items.len() == 0 {
        None
    } else {
        match W::hit(items[0], coord) {
            Some(id) => Some(id),
            None => hit_in::<W>(items.drop_first(), coord),
        }
    }
}

/// What `items` draw, one after the other.
pub open spec fn painted_items<W: Layout>(items: Seq<W::Model>, mgr: ManagerState, disabled: bool) -> Seq<DrawCmd>
    decreases items.len(),
{
    if items.len() == 0 {
        Seq::empty()
    } else {
        painted_items::<W>(items.drop_last(), mgr, disabled) + W::painted(items.last(), mgr, disabled)
    }
}

/// A hit among the items of a valid list lies within the range of an item.
pub proof fn lemma_hit_in<W: Layout>(items: Seq<W::Model>, coord: Coord, sizes: SizeModel, axis: AxisInfo)
    requires
        forall|i: int| 0 <= i < items.len() ==> W::valid(#[trigger] items[i]),
    ensures
        hit_in::<W>(items, coord) matches Some(id) ==> covered::<W>(items, id),
    decreases items.len(),
{
    if items.len() > 0 {
        let rect = Rect { pos: Coord(0, 0), size: Size(0, 0) };
        W::lemma_layout(items[0], sizes, axis, rect, AlignHints::spec_unhinted(), coord);
        match W::hit(items[0], coord) {
            Some(id) => {
                assert(W::own(items[0]).spec_covers(id));
            },
            None => {
                let rest = items.drop_first();
                assert forall|i: int| 0 <= i < rest.len() implies W::valid(#[trigger] rest[i]) by {
                    assert(rest[i] == items[i + 1]);
                }
                lemma_hit_in::<W>(rest, coord, sizes, axis);
                if let Some(id) = hit_in::<W>(rest, coord) {
                    let k = covering::<W>(rest, id);
                    assert(rest[k] == items[k + 1]);
                    assert(W::own(items[k + 1]).spec_covers(id));
                }
            },
        }
    }
}

impl<W: Layout> List<W> {
    /// The items after each was asked for its rules along `axis`.
    pub open spec fn sized_items(items: Seq<W::Model>, sizes: SizeModel, axis: AxisInfo) -> Seq<W::Model> {
        Seq::new(items.len(), |i: int| W::sized(items[i], sizes, axis).0)
    }

    /// The rules of each item along `axis`.
    pub open spec fn item_rules(items: Seq<W::Model>, sizes: SizeModel, axis: AxisInfo) -> Seq<SizeRules> {
        Seq::new(items.len(), |i: int| W::sized(items[i], sizes, axis).1)
    }

    /// The items after each was given its slot of `rect`.
    pub open spec fn placed_items(m: ListModel<W::Model>, rect: Rect, align: AlignHints) -> Seq<W::Model> {
        Seq::new(
            m.items.len(),
            |i: int| W::placed(m.items[i], slot(rect, m.direction, m.rules, m.items.len() as int, i), align),
        )
    }
}

impl<W: Layout> Layout for List<W> {
    /// All items lie within the rectangle, in the order of the list or, in
    /// a list that runs to the left or upwards, in the opposite order.
    open spec fn spatial(m: ListModel<W::Model>) -> (usize, usize) {
        if m.items.len() == 0 {
            (0usize, usize::MAX)
        } else if m.direction.spec_is_reversed() {
            ((m.items.len() - 1) as usize, 0usize)
        } else {
            (0usize, (m.items.len() - 1) as usize)
        }
    }

    /// Every item is asked for its rules. Along the list the rules are
    /// appended in the order in which the items stand, and remembered for
    /// placing; across it their maximum is taken.
    open spec fn sized(m: ListModel<W::Model>, sizes: SizeModel, axis: AxisInfo) -> (
        ListModel<W::Model>,
        SizeRules,
    ) {
        let items = Self::sized_items(m.items, sizes, axis);
        let rules = Self::item_rules(m.items, sizes, axis);
        if axis.vertical == m.direction.spec_is_vertical() {
            (
                ListModel { items, rules, ..m },
                SizeRules::spec_sum(ordered(rules, m.direction.spec_is_reversed())),
            )
        } else {
            (ListModel { items, ..m }, SizeRules::spec_max_of(rules))
        }
    }

    /// The list takes `rect` and every item its slot of it.
    open spec fn placed(m: ListModel<W::Model>, rect: Rect, align: AlignHints) -> ListModel<W::Model> {
        ListModel { core: CoreData { rect, ..m.core }, items: Self::placed_items(m, rect, align), ..m }
    }

    /// The first hit among the items; without one, the list itself within
    /// its rectangle. The items are asked first because one of them may
    /// show a popup beyond the list's rectangle.
    open spec fn hit(m: ListModel<W::Model>, coord: Coord) -> Option<WidgetId> {
        match hit_in::<W>(m.items, coord) {
            Some(id) => Some(id),
            None => if m.core.rect.spec_contains(coord) {
                Some(m.core.id)
            } else {
                None
            },
        }
    }

    /// The items, in order.
    open spec fn painted(m: ListModel<W::Model>, mgr: ManagerState, disabled: bool) -> Seq<DrawCmd> {
        painted_items::<W>(m.items, mgr, disabled || m.core.disabled)
    }

    /// The rules of all items along the list are known, and every item is
    /// ready.
    open spec fn ready(m: ListModel<W::Model>) -> bool {
        m.rules.len() == m.items.len() && forall|i: int| 0 <= i < m.items.len() ==> W::ready(#[trigger] m.items[i])
    }

    proof fn lemma_ready(
        m: ListModel<W::Model>,
        sizes: SizeModel,
        across: AxisInfo,
        down: AxisInfo,
        axis: AxisInfo,
        rect: Rect,
        align: AlignHints,
    ) {
        let first = Self::sized(m, sizes, across).0;
        let both = Self::sized(first, sizes, down).0;
        assert forall|i: int| 0 <= i < m.items.len() implies W::ready(#[trigger] both.items[i]) by {
            W::lemma_ready(m.items[i], sizes, across, down, axis, rect, align);
            assert(first.items[i] == W::sized(m.items[i], sizes, across).0);
        }
        if Self::ready(m) {
            let again = Self::sized(m, sizes, axis).0;
            assert forall|i: int| 0 <= i < m.items.len() implies W::ready(#[trigger] again.items[i]) by {
                assert(W::ready(m.items[i]));
                W::lemma_ready(m.items[i], sizes, across, down, axis, rect, align);
            }
            let placed = Self::placed(m, rect, align);
            assert forall|i: int| 0 <= i < m.items.len() implies W::ready(#[trigger] placed.items[i]) by {
                assert(W::ready(m.items[i]));
                W::lemma_ready(
                    m.items[i],
                    sizes,
                    across,
                    down,
                    axis,
                    slot(rect, m.direction, m.rules, m.items.len() as int, i),
                    align,
                );
            }
        }
    }

    proof fn lemma_layout(
        m: ListModel<W::Model>,
        sizes: SizeModel,
        axis: AxisInfo,
        rect: Rect,
        align: AlignHints,
        coord: Coord,
    ) {
        let sized = Self::sized(m, sizes, axis).0;
        let placed = Self::placed(m, rect, align);
        assert forall|i: int| 0 <= i < m.items.len() implies {
            &&& W::valid(#[trigger] sized.items[i])
            &&& W::nodes(sized.items[i]) == W::nodes(m.items[i])
            &&& same_ids(W::nodes(sized.items[i]), W::nodes(m.items[i]))
        } by {
            assert(W::valid(m.items[i]));
            W::lemma_layout(m.items[i], sizes, axis, rect, align, coord);
        }
        assert forall|i: int| 0 <= i < m.items.len() implies {
            &&& W::valid(#[trigger] placed.items[i])
            &&& same_ids(W::nodes(placed.items[i]), W::nodes(m.items[i]))
        } by {
            assert(W::valid(m.items[i]));
            W::lemma_layout(
                m.items[i],
                sizes,
                axis,
                slot(rect, m.direction, m.rules, m.items.len() as int, i),
                align,
                coord,
            );
        }
        lemma_list_alike::<W>(m, sized);
        lemma_flat_equal::<W>(sized.items, m.items);
        lemma_list_alike::<W>(m, placed);
        lemma_hit_in::<W>(m.items, coord, sizes, axis);
        if let Some(id) = hit_in::<W>(m.items, coord) {
            let k = covering::<W>(m.items, id);
            lemma_list_item::<W>(m, k);
        }
    }

    fn size_rules<S: SizeHandle>(&mut self, size_handle: &mut S, axis: AxisInfo) -> (r: SizeRules) {
        let ghost m = self.model();
        let ghost sizes = size_handle.answers();
        let mut child_rules: Vec<SizeRules> = Vec::new();
        let mut i: usize = 0;
        while i < self.widgets.len()
            invariant
                0 <= i <= self.widgets.len(),
                self.widgets.len() == m.items.len(),
                self.core == m.core,
                self.direction == m.direction,
                self.rules@ == m.rules,
                size_handle.answers() == sizes,
                child_rules@.len() == i,
                forall|k: int| 0 <= k < i ==> child_rules@[k] == W::sized(#[trigger] m.items[k], sizes, axis).1,
                forall|k: int|
                    0 <= k < m.items.len() ==> #[trigger] self.model().items[k] == if k < i {
                        W::sized(m.items[k], sizes, axis).0
                    } else {
                        m.items[k]
                    },
            decreases self.widgets.len() - i,
        {
            let ghost before_step = self.model().items;
            assert(before_step[i as int] == m.items[i as int]);
            let r = self.widgets[i].size_rules(size_handle, axis);
            child_rules.push(r);
            proof {
                assert forall|k: int| 0 <= k < m.items.len() implies #[trigger] self.model().items[k] == if k
                    < i + 1 {
                    W::sized(m.items[k], sizes, axis).0
                } else {
                    m.items[k]
                } by {
                    if k != i {
                        assert(self.model().items[k] == before_step[k]);
                    }
                }
            }
            i += 1;
        }
        proof {
            assert(self.model().items =~= Self::sized_items(m.items, sizes, axis));
            assert(child_rules@ =~= Self::item_rules(m.items, sizes, axis));
        }
        if axis.is_vertical() == self.direction.is_vertical() {
            let row = ordered_rules(&child_rules, self.direction.is_reversed());
            let r = SizeRules::sum(&row);
            self.rules = child_rules;
            r
        } else {
            SizeRules::max_of(&child_rules)
        }
    }

    fn set_rect(&mut self, rect: Rect, align: AlignHints) {
        let ghost m = self.model();
        self.core.rect = rect;
        let places = slots(rect, self.direction, &self.rules, self.widgets.len());
        let mut i: usize = 0;
        while i < self.widgets.len()
            invariant
                0 <= i <= self.widgets.len(),
                self.widgets.len() == m.items.len(),
                self.core == (CoreData { rect, ..m.core }),
                self.direction == m.direction,
                self.rules@ == m.rules,
                Self::ready(m),
                places@.len() == m.items.len(),
                forall|k: int|
                    0 <= k < m.items.len() ==> #[trigger] places@[k] == slot(
                        rect,
                        m.direction,
                        m.rules,
                        m.items.len() as int,
                        k,
                    ),
                forall|k: int|
                    0 <= k < m.items.len() ==> #[trigger] self.model().items[k] == if k < i {
                        W::placed(m.items[k], places@[k], align)
                    } else {
                        m.items[k]
                    },
            decreases self.widgets.len() - i,
        {
            let ghost before_step = self.model().items;
            assert(before_step[i as int] == m.items[i as int]);
            assert(W::ready(m.items[i as int]));
            self.widgets[i].set_rect(places[i], align);
            proof {
                assert forall|k: int| 0 <= k < m.items.len() implies #[trigger] self.model().items[k] == if k
                    < i + 1 {
                    W::placed(m.items[k], places@[k], align)
                } else {
                    m.items[k]
                } by {
                    if k != i {
                        assert(self.model().items[k] == before_step[k]);
                    }
                }
            }
            i += 1;
        }
        proof {
            assert(self.model().items =~= Self::placed_items(m, rect, align));
        }
    }

    fn spatial_range(&self) -> (r: (usize, usize)) {
        let n = self.widgets.len();
        if n == 0 {
            (0, usize::MAX)
        } else if self.direction.is_reversed() {
            (n - 1, 0)
        } else {
            (0, n - 1)
        }
    }

    fn find_id(&self, coord: Coord) -> (r: Option<WidgetId>) {
        let ghost m = self.model();
        let mut i: usize = 0;
        proof {
            assert(m.items.subrange(0, m.items.len() as int) =~= m.items);
        }
        while i < self.widgets.len()
            invariant
                0 <= i <= self.widgets.len(),
                self.widgets.len() == m.items.len(),
                m == self.model(),
                hit_in::<W>(m.items.subrange(i as int, m.items.len() as int), coord) == hit_in::<W>(
                    m.items,
                    coord,
                ),
            decreases self.widgets.len() - i,
        {
            proof {
                let rest = m.items.subrange(i as int, m.items.len() as int);
                assert(rest[0] == m.items[i as int]);
                assert(rest.drop_first() =~= m.items.subrange(i as int + 1, m.items.len() as int));
                assert(self.widgets@[i as int].model() == m.items[i as int]);
            }
            if let Some(id) = self.widgets[i].find_id(coord) {
                return Some(id);
            }
            i += 1;
        }
        proof {
            assert(m.items.subrange(i as int, m.items.len() as int).len() == 0);
        }
        if self.core.rect.contains(coord) {
            Some(self.core.id)
        } else {
            None
        }
    }

    fn draw<D: DrawHandle>(&self, draw_handle: &mut D, mgr: &ManagerState, disabled: bool) {
        let disabled = disabled || self.core.disabled;
        let ghost m = self.model();
        let mut i: usize = 0;
        proof {
            assert(m.items.take(0) =~= Seq::<W::Model>::empty());
            assert(draw_handle.drawn() =~= old(draw_handle).drawn() + painted_items::<W>(
                m.items.take(0),
                *mgr,
                disabled,
            ));
        }
        while i < self.widgets.len()
            invariant
                0 <= i <= self.widgets.len(),
                m == self.model(),
                draw_handle.target() == old(draw_handle).target(),
                draw_handle.outer() == old(draw_handle).outer(),
                draw_handle.drawn() == old(draw_handle).drawn() + painted_items::<W>(
                    m.items.take(i as int),
                    *mgr,
                    disabled,
                ),
            decreases self.widgets.len() - i,
        {
            self.widgets[i].draw(draw_handle, mgr, disabled);
            proof {
                assert(m.items.take(i as int + 1).drop_last() =~= m.items.take(i as int));
                assert(m.items.take(i as int + 1).last() == m.items[i as int]);
                assert(draw_handle.drawn() =~= old(draw_handle).drawn() + painted_items::<W>(
                    m.items.take(i as int + 1),
                    *mgr,
                    disabled,
                ));
            }
            i += 1;
        }
        proof {
            assert(m.items.take(i as int) =~= m.items);
        }
    }
}

impl<W: Handler> Handler for List<W> {
    type Msg = W::Msg;

    open spec fn activable(m: ListModel<W::Model>) -> bool {
        false
    }

    /// The list itself has no use for any event.
    open spec fn handled(m: ListModel<W::Model>, mgr: ManagerModel, event: Event) -> Sent<
        ListModel<W::Model>,
        W::Msg,
    > {
        Sent { widget: m, mgr, response: Response::Unhandled(event) }
    }

    proof fn lemma_handled(m: ListModel<W::Model>, mgr: ManagerModel, event: Event) {
    }

    fn activation_via_press(&self) -> (r: bool) {
        false
    }

    fn handle(&mut self, mgr: &mut Manager, event: Event) -> (r: Response<W::Msg>) {
        Response::Unhandled(event)
    }
}

/// In a valid list at most one item has a range that holds `id`.
pub proof fn lemma_covering_unique<W: WidgetCore>(m: ListModel<W::Model>, id: WidgetId, i: int)
    requires
        list_valid::<W>(m),
        0 <= i < m.items.len(),
        W::own(m.items[i]).spec_covers(id),
    ensures
        covered::<W>(m.items, id),
        covering::<W>(m.items, id) == i,
{
    let t = covering::<W>(m.items, id);
    lemma_list_item::<W>(m, t);
    lemma_list_item::<W>(m, i);
    if t < i {
        lemma_before_grows::<W>(m.items, t + 1, i);
    } else if t > i {
        lemma_before_grows::<W>(m.items, i + 1, t);
    }
}

/// Sending changes only the item that the event is sent to.
pub proof fn lemma_list_sent<W: SendEvent>(m: ListModel<W::Model>, mgr: ManagerModel, id: WidgetId, event: Event)
    requires
        list_valid::<W>(m),
        mgr.wf(),
        covered::<W>(m.items, id),
    ensures
        ({
            let i = covering::<W>(m.items, id);
            let s = W::sent(m.items[i], mgr, id, event);
            let n = ListModel { items: m.items.update(i, s.widget), ..m };
            &&& list_valid::<W>(n)
            &&& flat::<W>(n.items) == flat::<W>(m.items)
            &&& s.mgr.wf()
        }),
{
    let i = covering::<W>(m.items, id);
    let s = W::sent(m.items[i], mgr, id, event);
    let n = ListModel { items: m.items.update(i, s.widget), ..m };
    assert(W::valid(m.items[i]));
    W::lemma_sent(m.items[i], mgr, id, event);
    assert forall|k: int| 0 <= k < m.items.len() implies {
        &&& W::valid(#[trigger] n.items[k])
        &&& same_ids(W::nodes(n.items[k]), W::nodes(m.items[k]))
        &&& W::nodes(n.items[k]) == W::nodes(m.items[k])
    } by {
        assert(W::valid(m.items[k]));
    }
    lemma_list_alike::<W>(m, n);
    lemma_flat_equal::<W>(n.items, m.items);
}

impl<W: SendEvent> SendEvent for List<W> {
    /// A disabled list hands the event back. An event for an item or
    /// something below it goes to that item, and what comes back is passed
    /// on as it is. Any other event comes back unhandled.
    open spec fn sent(m: ListModel<W::Model>, mgr: ManagerModel, id: WidgetId, event: Event) -> Sent<
        ListModel<W::Model>,
        W::Msg,
    > {
        if !m.core.disabled && covered::<W>(m.items, id) {
            let i = covering::<W>(m.items, id);
            let s = W::sent(m.items[i], mgr, id, event);
            Sent { widget: ListModel { items: m.items.update(i, s.widget), ..m }, mgr: s.mgr, response: s.response }
        } else {
            Sent { widget: m, mgr, response: Response::Unhandled(event) }
        }
    }

    proof fn lemma_sent(m: ListModel<W::Model>, mgr: ManagerModel, id: WidgetId, event: Event) {
        if !m.core.disabled && covered::<W>(m.items, id) {
            lemma_list_sent::<W>(m, mgr, id, event);
        }
    }

    fn send(&mut self, mgr: &mut Manager, id: WidgetId, event: Event) -> (r: Response<W::Msg>) {
        if self.core.disabled {
            return Response::Unhandled(event);
        }
        let ghost m = self.model();
        match self.locate(id) {
            Some(i) => {
                proof {
                    lemma_covering_unique::<W>(m, id, i as int);
                    assert(W::valid(m.items[i as int]));
                }
                let r = self.widgets[i].send(mgr, id, event);
                proof {
                    assert(self.model().items =~= m.items.update(i as int, self.widgets@[i as int].model()));
                }
                r
            },
            None => Response::Unhandled(event),
        }
    }
}

/// What comes back from an item of a list is passed on as it is: the
/// response of the list is that of the item that the event went to.
pub proof fn lemma_list_passes_on<W: SendEvent>(m: ListModel<W::Model>, mgr: ManagerModel, id: WidgetId, event: Event)
    requires
        !m.core.disabled,
        covered::<W>(m.items, id),
    ensures
        List::<W>::sent(m, mgr, id, event).response == W::sent(
            m.items[covering::<W>(m.items, id)],
            mgr,
            id,
            event,
        ).response,
{
}

/// An event that a list hands back because it is for none of its items is
/// the event that came.
pub proof fn lemma_list_hands_back<W: SendEvent>(m: ListModel<W::Model>, mgr: ManagerModel, id: WidgetId, event: Event)
    requires
        m.core.disabled || !covered::<W>(m.items, id),
    ensures
        List::<W>::sent(m, mgr, id, event) == (Sent { widget: m, mgr, response: Response::<W::Msg>::Unhandled(event) }),
{
}

} // verus!
