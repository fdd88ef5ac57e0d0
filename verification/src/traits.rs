//! What every widget provides: identity and children, layout, and event
//! handling.
//!
//! Each widget type has a mathematical model ([`WidgetCore::Model`]). What a
//! widget does when it is configured, sized, placed or sent an event is a
//! function on models, stated by a specification function of the trait, and
//! the executable method is required to compute that function. Containers
//! state their own behaviour in terms of that of their children.

mod impls;

use vstd::prelude::*;
use crate::data::{AlignHints, CoreData, TkAction};
use crate::event::{CursorIcon, Event, GrabMode, Response};
use crate::geom::{Coord, Rect};
use crate::id::WidgetId;
use crate::layout::{AxisInfo, SizeRules};
use crate::manager::{Manager, ManagerModel, ManagerState};
use crate::theme::{DrawCmd, DrawHandle, SizeHandle, SizeModel};

verus! {

/// The order that configuration gives to the identifiers of a tree: `own`
/// is the data of a widget, `children` that of its children in order, and
/// `nodes` that of the widget and all its descendants as a depth-first walk
/// first meets them.
///
/// The identifiers count up from the widget's own along `nodes`, so a widget
/// comes before each of its descendants; the range of each node lies within
/// that of the widget; and the ranges of the children lie strictly inside,
/// one wholly after the other.
pub open spec fn tree_ordered(own: CoreData, children: Seq<CoreData>, nodes: Seq<CoreData>) -> bool {
    &&& nodes.len() >= 1
    &&& nodes[0] == own
    &&& own.id.0 >= 1
    &&& own.last.0 == own.id.0 + nodes.len() - 1
    &&& forall|i: int|
        0 <= i < nodes.len() ==> {
            &&& (#[trigger] nodes[i]).id.0 == own.id.0 + i
            &&& nodes[i].id.0 <= nodes[i].last.0 <= own.last.0
        }
    &&& forall|k: int|
        0 <= k < children.len() ==> {
            &&& own.id.0 < (#[trigger] children[k]).id.0
            &&& children[k].id.0 <= children[k].last.0 <= own.last.0
            &&& nodes[children[k].id.0 - own.id.0] == children[k]
        }
    &&& forall|k: int, l: int|
        0 <= k < l < children.len() ==> (#[trigger] children[k]).last.0 < (#[trigger] children[l]).id.0
}

/// Whether two walks name the same widgets: the same identifiers and ranges
/// in the same places, and the same widgets disabled. Rectangles may differ.
pub open spec fn same_ids(a: Seq<CoreData>, b: Seq<CoreData>) -> bool {
    &&& a.len() == b.len()
    &&& forall|i: int|
        0 <= i < a.len() ==> {
            &&& (#[trigger] a[i]).id == b[i].id
            &&& a[i].last == b[i].last
            &&& a[i].disabled == b[i].disabled
        }
}

/// The node named `id` in the walk `nodes` of a configured widget with data
/// `own`, if `id` is in its range.
pub open spec fn node_of(own: CoreData, nodes: Seq<CoreData>, id: WidgetId) -> Option<CoreData> {
    if own.spec_covers(id) {
        Some(nodes[id.0 - own.id.0])
    } else {
        None
    }
}

/// A widget comes before its descendants: in a valid widget, every widget
/// of the walk has an identifier that is no less than the widget's own and
/// no more than the end of its range, and the range of that widget lies
/// within the range of the widget itself.
pub proof fn lemma_ancestor_order<W: WidgetCore>(m: W::Model, i: int)
    requires
        W::valid(m),
        0 <= i < W::nodes(m).len(),
    ensures
        W::own(m).id.0 <= W::nodes(m)[i].id.0 <= W::own(m).last.0,
        W::nodes(m)[i].id.0 <= W::nodes(m)[i].last.0 <= W::own(m).last.0,
        i > 0 ==> W::own(m).id.0 < W::nodes(m)[i].id.0,
        W::own(m).spec_covers(W::nodes(m)[i].id),
{
    W::lemma_tree(m);
}

/// The ranges of the children of a valid widget are disjoint and come in
/// the order of the children: the range of an earlier child ends before
/// that of a later child begins, and both lie behind the widget's own
/// identifier.
pub proof fn lemma_sibling_order<W: WidgetCore>(m: W::Model, k: int, l: int)
    requires
        W::valid(m),
        0 <= k < l < W::children(m).len(),
    ensures
        W::own(m).id.0 < W::children(m)[k].id.0,
        W::children(m)[k].id.0 <= W::children(m)[k].last.0,
        W::children(m)[k].last.0 < W::children(m)[l].id.0,
        W::children(m)[l].id.0 <= W::children(m)[l].last.0,
        W::children(m)[l].last.0 <= W::own(m).last.0,
{
    W::lemma_tree(m);
}

/// A widget with one child, whose identifiers follow the widget's own, is
/// in tree order; and what is found below the widget is what is found in
/// the child.
pub proof fn lemma_one_child<W: WidgetCore>(own: CoreData, child: W::Model)
    requires
        own.id.0 >= 1,
        W::valid(child),
        W::own(child).id.0 == own.id.0 + 1,
        own.last == W::own(child).last,
    ensures
        tree_ordered(own, seq![W::own(child)], seq![own] + W::nodes(child)),
        forall|id: WidgetId|
            id != own.id ==> #[trigger] node_of(own, seq![own] + W::nodes(child), id) == node_of(
                W::own(child),
                W::nodes(child),
                id,
            ),
{
    W::lemma_tree(child);
    let nodes = seq![own] + W::nodes(child);
    let inner = W::nodes(child);
    assert forall|i: int| 0 <= i < nodes.len() implies {
        &&& (#[trigger] nodes[i]).id.0 == own.id.0 + i
        &&& nodes[i].id.0 <= nodes[i].last.0 <= own.last.0
    } by {
        if i > 0 {
            assert(nodes[i] == inner[i - 1]);
        }
    }
    assert(nodes[W::own(child).id.0 - own.id.0] == inner[0]);
    assert forall|id: WidgetId| id != own.id implies #[trigger] node_of(own, nodes, id) == node_of(
        W::own(child),
        inner,
        id,
    ) by {
        if own.spec_covers(id) {
            assert(nodes[id.0 - own.id.0] == inner[id.0 - own.id.0 - 1]);
        }
    }
}

/// Two valid widgets with the same walk have the same data themselves.
pub proof fn lemma_same_nodes<W: WidgetCore>(a: W::Model, b: W::Model)
    requires
        W::valid(a),
        W::valid(b),
        W::nodes(a) == W::nodes(b),
    ensures
        W::own(a) == W::own(b),
{
    W::lemma_tree(a);
    W::lemma_tree(b);
}

/// Two valid widgets whose walks name the same widgets have the same
/// identifier and range themselves.
pub proof fn lemma_same_ids<W: WidgetCore>(a: W::Model, b: W::Model)
    requires
        W::valid(a),
        W::valid(b),
        same_ids(W::nodes(a), W::nodes(b)),
    ensures
        W::own(a).id == W::own(b).id,
        W::own(a).last == W::own(b).last,
        W::own(a).disabled == W::own(b).disabled,
{
    W::lemma_tree(a);
    W::lemma_tree(b);
    assert(W::nodes(a)[0].id == W::nodes(b)[0].id);
}

/// Receives the widgets of a tree one by one.
pub trait Visitor {
    /// What has been visited so far, in order.
    spec fn seen(&self) -> Seq<CoreData>;

    /// Visits the widget whose data is `own`.
    fn visit(&mut self, own: &CoreData)
        ensures
            final(self).seen() == old(self).seen().push(*own),
    ;
}

/// A visitor that keeps what it visits.
pub struct Collector {
    pub cores: Vec<CoreData>,
}

impl Collector {
    pub fn new() -> (r: Collector)
        ensures
            r.cores@.len() == 0,
    {
        Collector { cores: Vec::new() }
    }
}

impl Visitor for Collector {
    open spec fn seen(&self) -> Seq<CoreData> {
        self.cores@
    }

    fn visit(&mut self, own: &CoreData) {
        self.cores.push(*own);
    }
}

/// Identity and structure of a widget.
pub trait WidgetCore {
    /// The widget as a mathematical value.
    type Model;

    /// The model of the widget.
    spec fn model(&self) -> Self::Model;

    /// The data of the widget itself.
    spec fn own(m: Self::Model) -> CoreData;

    /// The data of the widget's children, in order.
    spec fn children(m: Self::Model) -> Seq<CoreData>;

    /// The data of the widget and of all its descendants, as a depth-first
    /// walk first meets them.
    spec fn nodes(m: Self::Model) -> Seq<CoreData>;

    /// Whether the widget is configured and its state is consistent.
    spec fn valid(m: Self::Model) -> bool;

    /// The widget and the manager after the widget was configured with
    /// `first` as its identifier.
    spec fn configured(m: Self::Model, mgr: ManagerModel, first: WidgetId) -> (Self::Model, ManagerModel);

    /// The name of the widget's type.
    spec fn name() -> Seq<char>;

    /// Whether the widget can be reached with the keyboard.
    spec fn navigable(m: Self::Model) -> bool;

    /// The cursor to show over the widget.
    spec fn cursor(m: Self::Model) -> CursorIcon;

    /// The widget enabled or disabled. A disabled widget hands back every
    /// event that is sent to it or to anything below it.
    spec fn with_disabled(m: Self::Model, disabled: bool) -> Self::Model;

    /// Enabling or disabling changes the widget's own data and nothing
    /// else of the tree.
    proof fn lemma_with_disabled(m: Self::Model, disabled: bool)
        requires
            Self::valid(m),
        ensures
            Self::valid(Self::with_disabled(m, disabled)),
            Self::own(Self::with_disabled(m, disabled)) == (CoreData { disabled, ..Self::own(m) }),
            Self::children(Self::with_disabled(m, disabled)) == Self::children(m),
            Self::nodes(Self::with_disabled(m, disabled)) == Self::nodes(m).update(
                0,
                CoreData { disabled, ..Self::own(m) },
            ),
    ;

    /// In a valid widget the identifiers are in tree order.
    proof fn lemma_tree(m: Self::Model)
        requires
            Self::valid(m),
        ensures
            tree_ordered(Self::own(m), Self::children(m), Self::nodes(m)),
    ;

    /// The walk of a widget holds the widget itself at least.
    proof fn lemma_count(m: Self::Model)
        ensures
            Self::nodes(m).len() >= 1,
    ;

    /// Configuring makes a widget valid, with identifiers from `first` on
    /// and as many nodes as before, and keeps the manager well-formed.
    proof fn lemma_configured(m: Self::Model, mgr: ManagerModel, first: WidgetId)
        requires
            first.0 >= 1,
            first.0 + Self::nodes(m).len() <= u32::MAX,
            mgr.wf(),
        ensures
            Self::valid(Self::configured(m, mgr, first).0),
            Self::own(Self::configured(m, mgr, first).0).id == first,
            Self::nodes(Self::configured(m, mgr, first).0).len() == Self::nodes(m).len(),
            Self::configured(m, mgr, first).1.wf(),
    ;

    /// The data common to all widgets.
    fn core_data(&self) -> (r: &CoreData)
        ensures
            *r == Self::own(self.model()),
    ;

    /// The name of the widget's type.
    fn widget_name(&self) -> (r: &'static str)
        ensures
            r@ == Self::name(),
    ;

    /// The identifier of the widget.
    fn id(&self) -> (r: WidgetId)
        ensures
            r == Self::own(self.model()).id,
    {
        self.core_data().id
    }

    /// The rectangle of the widget.
    fn rect(&self) -> (r: Rect)
        ensures
            r == Self::own(self.model()).rect,
    {
        self.core_data().rect
    }

    /// Whether the widget is disabled.
    fn is_disabled(&self) -> (r: bool)
        ensures
            r == Self::own(self.model()).disabled,
    {
        self.core_data().disabled
    }

    /// Enables or disables the widget. The result says what the toolkit
    /// has to do.
    fn set_disabled(&mut self, disabled: bool) -> (r: TkAction)
        ensures
            final(self).model() == Self::with_disabled(old(self).model(), disabled),
            r == TkAction::Redraw,
    ;

    /// Whether `id` names the widget or one of its descendants.
    fn is_ancestor_of(&self, id: WidgetId) -> (r: bool)
        ensures
            r == Self::own(self.model()).spec_covers(id),
    {
        self.core_data().covers(id)
    }

    /// Whether the widget can be reached with the keyboard.
    fn key_nav(&self) -> (r: bool)
        ensures
            r == Self::navigable(self.model()),
    ;

    /// The cursor to show over the widget.
    fn cursor_icon(&self) -> (r: CursorIcon)
        ensures
            r == Self::cursor(self.model()),
    ;

    /// The number of children.
    fn len(&self) -> (r: usize)
        ensures
            r == Self::children(self.model()).len(),
    ;

    /// The data of the child at `index`; `None` beyond the last child.
    fn get(&self, index: usize) -> (r: Option<CoreData>)
        ensures
            r == if index < Self::children(self.model()).len() {
                Some(Self::children(self.model())[index as int])
            } else {
                None
            },
    ;

    /// The data of the widget or descendant named `id`, if there is one.
    /// Only the subtree whose range holds `id` is searched.
    fn find(&self, id: WidgetId) -> (r: Option<CoreData>)
        requires
            Self::valid(self.model()),
        ensures
            r == node_of(Self::own(self.model()), Self::nodes(self.model()), id),
    ;

    /// Shows `visitor` the widget and then its descendants, children in
    /// order, each child with all below it before the next.
    fn walk<V: Visitor>(&self, visitor: &mut V)
        ensures
            final(visitor).seen() == old(visitor).seen() + Self::nodes(self.model()),
    ;

    /// Configures the widget and its descendants: the widget takes `first`
    /// as its identifier, the descendants the following ones. Returns the
    /// first identifier that is still free.
    fn configure(&mut self, mgr: &mut Manager, first: WidgetId) -> (next: WidgetId)
        requires
            first.0 >= 1,
            first.0 + Self::nodes(old(self).model()).len() <= u32::MAX,
            old(mgr)@.wf(),
        ensures
            (final(self).model(), final(mgr)@) == Self::configured(old(self).model(), old(mgr)@, first),
            next.0 == first.0 + Self::nodes(old(self).model()).len(),
    ;
}

/// Size negotiation, placement, hit-testing and drawing.
pub trait Layout: WidgetCore {
    /// The widget after it was asked for its rules along `axis`, and the
    /// rules.
    spec fn sized(m: Self::Model, sizes: SizeModel, axis: AxisInfo) -> (Self::Model, SizeRules);

    /// The widget after it was given `rect`.
    spec fn placed(m: Self::Model, rect: Rect, align: AlignHints) -> Self::Model;

    /// The widget under `coord`: the deepest one that contains it.
    spec fn hit(m: Self::Model, coord: Coord) -> Option<WidgetId>;

    /// The places of the first and the last child within the widget's
    /// rectangle, in the order in which they stand there.
    spec fn spatial(m: Self::Model) -> (usize, usize);

    /// Whether the sizes of the widget and of everything in it have been
    /// negotiated, so that the widget can be placed.
    spec fn ready(m: Self::Model) -> bool;

    /// What the widget draws.
    spec fn painted(m: Self::Model, mgr: ManagerState, disabled: bool) -> Seq<DrawCmd>;

    /// Sizing and placing keep a valid widget valid and its identifiers in
    /// place; sizing moves nothing; placing gives the widget the rectangle;
    /// and a hit is within the widget's range.
    proof fn lemma_layout(m: Self::Model, sizes: SizeModel, axis: AxisInfo, rect: Rect, align: AlignHints, coord: Coord)
        requires
            Self::valid(m),
        ensures
            Self::valid(Self::sized(m, sizes, axis).0),
            Self::nodes(Self::sized(m, sizes, axis).0) == Self::nodes(m),
            Self::valid(Self::placed(m, rect, align)),
            same_ids(Self::nodes(Self::placed(m, rect, align)), Self::nodes(m)),
            Self::own(Self::placed(m, rect, align)).rect == rect,
            Self::hit(m, coord) matches Some(id) ==> Self::own(m).spec_covers(id),
    ;

    /// A widget is ready to be placed when it has been asked for its rules
    /// from left to right and then from top to bottom. It stays so when it
    /// is asked again, along whatever axis, and when it is placed.
    proof fn lemma_ready(
        m: Self::Model,
        sizes: SizeModel,
        across: AxisInfo,
        down: AxisInfo,
        axis: AxisInfo,
        rect: Rect,
        align: AlignHints,
    )
        requires
            !across.vertical,
            down.vertical,
        ensures
            Self::ready(Self::sized(Self::sized(m, sizes, across).0, sizes, down).0),
            Self::ready(m) ==> Self::ready(Self::sized(m, sizes, axis).0),
            Self::ready(m) ==> Self::ready(Self::placed(m, rect, align)),
    ;

    /// First pass of layout: the rules of the widget along `axis`, its
    /// children and frame included. Run for an axis before `set_rect` uses
    /// that axis.
    fn size_rules<S: SizeHandle>(&mut self, size_handle: &mut S, axis: AxisInfo) -> (r: SizeRules)
        ensures
            (final(self).model(), r) == Self::sized(old(self).model(), old(size_handle).answers(), axis),
            final(size_handle).answers() == old(size_handle).answers(),
    ;

    /// Second pass of layout: the widget takes `rect` and hands each child
    /// its part. The first pass must have been run along both axes.
    fn set_rect(&mut self, rect: Rect, align: AlignHints)
        requires
            Self::ready(old(self).model()),
        ensures
            final(self).model() == Self::placed(old(self).model(), rect, align),
    ;

    /// The places of the first and the last child that lie within the
    /// widget's rectangle, in the order in which they stand there: the
    /// first place is the greater one where the children stand in the
    /// opposite order. The pair `(0, usize::MAX)` says that no child lies
    /// within the rectangle.
    fn spatial_range(&self) -> (r: (usize, usize))
        ensures
            r == Self::spatial(self.model()),
    ;

    /// The identifier of the deepest widget that contains `coord`.
    fn find_id(&self, coord: Coord) -> (r: Option<WidgetId>)
        ensures
            r == Self::hit(self.model(), coord),
    ;

    /// Draws the widget and its children. `disabled` says that an ancestor
    /// is disabled.
    fn draw<D: DrawHandle>(&self, draw_handle: &mut D, mgr: &ManagerState, disabled: bool)
        ensures
            final(draw_handle).drawn() == old(draw_handle).drawn() + Self::painted(self.model(), *mgr, disabled),
            final(draw_handle).target() == old(draw_handle).target(),
            final(draw_handle).outer() == old(draw_handle).outer(),
    ;
}

/// A widget, the manager and the response after an event was delivered.
pub struct Sent<W, M> {
    pub widget: W,
    pub mgr: ManagerModel,
    pub response: Response<M>,
}

/// Handling of the events that are meant for the widget itself.
pub trait Handler: Layout {
    /// The type of the messages that the widget sends to its parent.
    type Msg;

    /// Whether a press on the widget activates it.
    spec fn activable(m: Self::Model) -> bool;

    /// What comes of the widget handling `event` itself.
    spec fn handled(m: Self::Model, mgr: ManagerModel, event: Event) -> Sent<Self::Model, Self::Msg>;

    /// Handling an event changes neither the shape of the tree nor the
    /// well-formedness of the manager.
    proof fn lemma_handled(m: Self::Model, mgr: ManagerModel, event: Event)
        requires
            Self::valid(m),
            mgr.wf(),
        ensures
            Self::valid(Self::handled(m, mgr, event).widget),
            Self::nodes(Self::handled(m, mgr, event).widget) == Self::nodes(m),
            Self::activable(Self::handled(m, mgr, event).widget) == Self::activable(m),
            Self::handled(m, mgr, event).mgr.wf(),
    ;

    /// Whether a press on the widget activates it. Such a widget gets
    /// [`Event::Activate`] in place of the events of the press.
    fn activation_via_press(&self) -> (r: bool)
        ensures
            r == Self::activable(self.model()),
    ;

    /// Handles an event that is meant for this widget itself. An event that
    /// the widget has no use for comes back in [`Response::Unhandled`].
    fn handle(&mut self, mgr: &mut Manager, event: Event) -> (r: Response<Self::Msg>)
        requires
            Self::valid(old(self).model()),
            old(mgr)@.wf(),
        ensures
            (Sent { widget: final(self).model(), mgr: final(mgr)@, response: r }) == Self::handled(
                old(self).model(),
                old(mgr)@,
                event,
            ),
    ;
}

/// Routing of events through the tree.
pub trait SendEvent: Handler {
    /// What comes of sending `event` to the widget or descendant `id`.
    spec fn sent(m: Self::Model, mgr: ManagerModel, id: WidgetId, event: Event) -> Sent<Self::Model, Self::Msg>;

    /// Sending an event changes neither the shape of the tree nor the
    /// well-formedness of the manager.
    proof fn lemma_sent(m: Self::Model, mgr: ManagerModel, id: WidgetId, event: Event)
        requires
            Self::valid(m),
            mgr.wf(),
        ensures
            Self::valid(Self::sent(m, mgr, id, event).widget),
            Self::nodes(Self::sent(m, mgr, id, event).widget) == Self::nodes(m),
            Self::activable(Self::sent(m, mgr, id, event).widget) == Self::activable(m),
            Self::sent(m, mgr, id, event).mgr.wf(),
    ;

    /// Sends an event to the widget named `id`: to the child whose range
    /// holds `id`, or else to this widget itself.
    fn send(&mut self, mgr: &mut Manager, id: WidgetId, event: Event) -> (r: Response<Self::Msg>)
        requires
            Self::valid(old(self).model()),
            old(mgr)@.wf(),
        ensures
            (Sent { widget: final(self).model(), mgr: final(mgr)@, response: r }) == Self::sent(
                old(self).model(),
                old(mgr)@,
                id,
                event,
            ),
    ;
}

/// What comes of an event that a widget receives for itself, with the
/// default treatment of presses: a widget that a press activates takes the
/// grab when a primary press starts, is drawn as pressed while the press is
/// over it, and is activated when the press ends over it. Every other event
/// goes to the widget's own handler.
pub open spec fn generic<W: Handler>(m: W::Model, mgr: ManagerModel, event: Event) -> Sent<W::Model, W::Msg> {
    let own = W::own(m);
    if !W::activable(m) {
        W::handled(m, mgr, event)
    } else {
        match event {
            Event::PressStart { source, start_id, coord } => if source.spec_is_primary() {
                Sent {
                    widget: m,
                    mgr: mgr.request_grab(own.id, source, coord, GrabMode::Grab, None).0,
                    response: Response::Nothing,
                }
            } else {
                W::handled(m, mgr, event)
            },
            Event::PressMove { source, cur_id, coord, delta } => {
                let target = match cur_id {
                    Some(c) => if own.spec_covers(c) {
                        cur_id
                    } else {
                        None
                    },
                    None => None,
                };
                Sent { widget: m, mgr: mgr.set_grab_depress(source, target), response: Response::Nothing }
            },
            Event::PressEnd { source, end_id, coord } => match end_id {
                Some(e) => if own.spec_covers(e) {
                    W::handled(m, mgr, Event::Activate)
                } else {
                    W::handled(m, mgr, event)
                },
                None => W::handled(m, mgr, event),
            },
            _ => W::handled(m, mgr, event),
        }
    }
}

/// The default treatment keeps what the widget's own handler keeps.
pub proof fn lemma_generic<W: Handler>(m: W::Model, mgr: ManagerModel, event: Event)
    requires
        W::valid(m),
        mgr.wf(),
    ensures
        W::valid(generic::<W>(m, mgr, event).widget),
        W::nodes(generic::<W>(m, mgr, event).widget) == W::nodes(m),
        W::activable(generic::<W>(m, mgr, event).widget) == W::activable(m),
        generic::<W>(m, mgr, event).mgr.wf(),
{
    W::lemma_handled(m, mgr, event);
    W::lemma_handled(m, mgr, Event::Activate);
    match event {
        Event::PressStart { source, start_id, coord } => {
            crate::manager::lemma_request_grab(mgr, W::own(m).id, source, coord, GrabMode::Grab, None);
        },
        Event::PressMove { source, cur_id, coord, delta } => {
            assert forall|t: Option<WidgetId>| (#[trigger] mgr.set_grab_depress(source, t)).wf() by {
                crate::manager::lemma_set_grab_depress(mgr, source, t);
            }
        },
        _ => {},
    }
}

/// An event that the default treatment hands back is the event that came,
/// if that holds of the widget's own handler.
pub proof fn lemma_generic_hands_back<W: Handler>(m: W::Model, mgr: ManagerModel, event: Event)
    requires
        forall|ev: Event| #[trigger] W::handled(m, mgr, ev).response matches Response::Unhandled(e) ==> e == ev,
        !W::activable(m),
    ensures
        generic::<W>(m, mgr, event).response matches Response::Unhandled(e) ==> e == event,
{
}

/// Looks for the widget named `id` in a widget with the data `own` and the
/// one child `child`: `id` names the widget itself, or the search goes on
/// in the child.
pub fn find_below<W: WidgetCore>(own: &CoreData, child: &W, id: WidgetId) -> (r: Option<CoreData>)
    requires
        own.id.0 >= 1,
        W::valid(child.model()),
        W::own(child.model()).id.0 == own.id.0 + 1,
        own.last == W::own(child.model()).last,
    ensures
        r == node_of(*own, seq![*own] + W::nodes(child.model()), id),
{
    proof {
        lemma_one_child::<W>(*own, child.model());
    }
    if id.0 == own.id.0 {
        Some(*own)
    } else {
        child.find(id)
    }
}

/// What is drawn when a widget is drawn in a clip region: the beginning of
/// the region, what the widget draws, and the end of the region.
pub open spec fn painted_clipped<W: Layout>(
    m: W::Model,
    mgr: ManagerState,
    disabled: bool,
    rect: Rect,
    offset: Coord,
) -> Seq<DrawCmd> {
    seq![DrawCmd::ClipBegin { rect, offset }] + W::painted(m, mgr, disabled) + seq![DrawCmd::ClipEnd]
}

/// Draws `widget` in a clip region: what the widget draws is clipped to
/// `rect`, in coordinates relative to `offset`. Afterwards the handle draws
/// on what it drew on before.
pub fn draw_clipped<W: Layout, D: DrawHandle>(
    widget: &W,
    draw_handle: &mut D,
    mgr: &ManagerState,
    disabled: bool,
    rect: Rect,
    offset: Coord,
)
    ensures
        final(draw_handle).drawn() == old(draw_handle).drawn() + painted_clipped::<W>(
            widget.model(),
            *mgr,
            disabled,
            rect,
            offset,
        ),
        final(draw_handle).target() == old(draw_handle).target(),
        final(draw_handle).outer() == old(draw_handle).outer(),
{
    draw_handle.clip_region(rect, offset);
    widget.draw(draw_handle, mgr, disabled);
    draw_handle.end_clip_region();
    proof {
        assert(old(draw_handle).outer().push(old(draw_handle).target()).drop_last() =~= old(draw_handle).outer());
        assert(final(draw_handle).drawn() =~= old(draw_handle).drawn() + painted_clipped::<W>(
            widget.model(),
            *mgr,
            disabled,
            rect,
            offset,
        ));
    }
}

impl Manager {
    /// Gives `event` to `widget` with the default treatment of presses.
    pub fn handle_generic<W: Handler>(widget: &mut W, mgr: &mut Manager, event: Event) -> (r: Response<W::Msg>)
        requires
            W::valid(old(widget).model()),
            old(mgr)@.wf(),
        ensures
            (Sent { widget: final(widget).model(), mgr: final(mgr)@, response: r }) == generic::<W>(
                old(widget).model(),
                old(mgr)@,
                event,
            ),
    {
        if !widget.activation_via_press() {
            return widget.handle(mgr, event);
        }
        let own = *widget.core_data();
        match event {
            Event::PressStart { source, start_id, coord } => {
                if source.is_primary() {
                    mgr.request_grab(own.id, source, coord, GrabMode::Grab, None);
                    Response::Nothing
                } else {
                    widget.handle(mgr, event)
                }
            },
            Event::PressMove { source, cur_id, coord, delta } => {
                let target = match cur_id {
                    Some(c) => if own.covers(c) {
                        cur_id
                    } else {
                        None
                    },
                    None => None,
                };
                mgr.set_grab_depress(source, target);
                Response::Nothing
            },
            Event::PressEnd { source, end_id, coord } => match end_id {
                Some(e) => if own.covers(e) {
                    widget.handle(mgr, Event::Activate)
                } else {
                    widget.handle(mgr, event)
                },
                None => widget.handle(mgr, event),
            },
            _ => widget.handle(mgr, event),
        }
    }
}

} // verus!
