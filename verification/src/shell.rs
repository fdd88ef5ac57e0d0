//! Several windows under one event loop.
//!
//! The windows share the broadcast channels: an update that a widget of one
//! window triggers is delivered to the widgets of all windows that
//! registered for its handle before the update was triggered. Delivery takes
//! place when the input that led to the update has been handled, and before
//! the next input is taken.
//!
//! To know what came first, the set keeps the time. A manager is set to the
//! time of the set before it is used, and the set takes the time of the
//! manager afterwards.

use vstd::prelude::*;
use crate::driver::{dispatched, lemma_dispatched, lemma_sent_to_all, sent_to_all, Input};
use crate::event::{Event, Response};
use crate::id::{UpdateHandle, WidgetId};
use crate::manager::{served, Manager, ManagerModel, Update};
use crate::traits::{SendEvent, WidgetCore};

verus! {

/// A window with its manager.
pub struct Slot<W> {
    widget: W,
    mgr: Manager,
}

/// The windows of a program.
pub struct WindowSet<W> {
    windows: Vec<Slot<W>>,
    clock: u64,
}

/// A window and its manager as mathematical values.
pub struct SlotModel<I> {
    pub widget: I,
    pub mgr: ManagerModel,
}

/// A set of windows as a mathematical value.
pub struct SetModel<I> {
    pub windows: Seq<SlotModel<I>>,
    /// The time of the set: no earlier than any registration or update so
    /// far.
    pub clock: u64,
}

/// Every window is valid and every manager well-formed.
pub open spec fn all_valid<W: WidgetCore>(ws: Seq<SlotModel<W::Model>>) -> bool {
    forall|i: int| 0 <= i < ws.len() ==> W::valid((#[trigger] ws[i]).widget) && ws[i].mgr.wf()
}

/// The updates that wait in the managers of `ws`, window by window.
pub open spec fn waiting<I>(ws: Seq<SlotModel<I>>) -> Seq<Update>
    decreases ws.len(),
{
    if ws.len() == 0 {
        Seq::empty()
    } else {
        waiting(ws.drop_last()) + ws.last().mgr.pending
    }
}

/// The windows with no update waiting.
pub open spec fn cleared<I>(ws: Seq<SlotModel<I>>) -> Seq<SlotModel<I>> {
    Seq::new(ws.len(), |i: int| SlotModel { widget: ws[i].widget, mgr: ws[i].mgr.without_pending() })
}

/// A window as it is handed out for use at the time `clock`: its manager is
/// set to that time, unless it is ahead.
pub open spec fn lent<I>(w: SlotModel<I>, clock: u64) -> SlotModel<I> {
    SlotModel { widget: w.widget, mgr: w.mgr.advanced(clock) }
}

/// A window after `update` was delivered to it: every widget of the window
/// that registered for the handle before the update was triggered was sent
/// the update.
pub open spec fn told<W: SendEvent>(w: SlotModel<W::Model>, update: Update) -> SlotModel<W::Model> {
    let sent = sent_to_all::<W>(
        w.widget,
        w.mgr,
        served(w.mgr.registrations, update),
        Event::HandleUpdate { handle: update.handle, payload: update.payload },
    );
    SlotModel { widget: sent.0, mgr: sent.1 }
}

/// The set after `update` was delivered to the first `n` windows, one after
/// the other.
pub open spec fn told_first<W: SendEvent>(s: SetModel<W::Model>, update: Update, n: int) -> SetModel<W::Model>
    decreases n,
{
    if n <= 0 {
        s
    } else {
        let before = told_first::<W>(s, update, n - 1);
        let w = told::<W>(lent(before.windows[n - 1], before.clock), update);
        SetModel { windows: before.windows.update(n - 1, w), clock: w.mgr.clock }
    }
}

/// The set after `update` was delivered to every window.
pub open spec fn broadcast<W: SendEvent>(s: SetModel<W::Model>, update: Update) -> SetModel<W::Model> {
    told_first::<W>(s, update, s.windows.len() as int)
}

/// The set after each of `updates` was delivered to every window, in
/// order.
pub open spec fn broadcast_all<W: SendEvent>(s: SetModel<W::Model>, updates: Seq<Update>) -> SetModel<W::Model>
    decreases updates.len(),
{
    if updates.len() == 0 {
        s
    } else {
        broadcast::<W>(broadcast_all::<W>(s, updates.drop_last()), updates.last())
    }
}

/// The set after the updates that wait in any window were taken and
/// delivered to all windows. Updates that are triggered while the others
/// are delivered wait in their turn.
pub open spec fn flushed<W: SendEvent>(s: SetModel<W::Model>) -> SetModel<W::Model> {
    broadcast_all::<W>(SetModel { windows: cleared(s.windows), clock: s.clock }, waiting(s.windows))
}

/// The set and the response after window `index` was given `input`: the
/// updates that wait are delivered; the input is handled by its window; and
/// the updates that wait then are delivered, before another input can be
/// taken.
pub open spec fn handled_input<W: SendEvent>(s: SetModel<W::Model>, index: int, input: Input) -> (
    SetModel<W::Model>,
    Response<W::Msg>,
) {
    let ready = flushed::<W>(s);
    let w = lent(ready.windows[index], ready.clock);
    let d = dispatched::<W>(w.widget, w.mgr, input);
    let after = SetModel {
        windows: ready.windows.update(index, SlotModel { widget: d.widget, mgr: d.mgr }),
        clock: d.mgr.clock,
    };
    (flushed::<W>(after), d.response)
}

/// The set after an update was triggered in window `index`.
pub open spec fn triggered<I>(s: SetModel<I>, index: int, handle: UpdateHandle, payload: u64) -> SetModel<I> {
    let w = lent(s.windows[index], s.clock);
    let mgr = w.mgr.trigger_update(handle, payload);
    SetModel { windows: s.windows.update(index, SlotModel { widget: w.widget, mgr }), clock: mgr.clock }
}

/// The set after widget `id` of window `index` registered for `handle`.
pub open spec fn registered_in<I>(s: SetModel<I>, index: int, handle: UpdateHandle, id: WidgetId) -> SetModel<I> {
    let w = lent(s.windows[index], s.clock);
    let mgr = w.mgr.update_on_handle(handle, id);
    SetModel { windows: s.windows.update(index, SlotModel { widget: w.widget, mgr }), clock: mgr.clock }
}

/// The set with one more window: `widget` configured as the root of a tree,
/// with a new manager at the time of the set.
pub open spec fn added<W: WidgetCore>(s: SetModel<W::Model>, widget: W::Model) -> SetModel<W::Model> {
    let made = W::configured(widget, ManagerModel::initial().advanced(s.clock), WidgetId::spec_first());
    SetModel { windows: s.windows.push(SlotModel { widget: made.0, mgr: made.1 }), clock: made.1.clock }
}

/// Delivery to some of the windows keeps every window valid and every
/// manager well-formed.
pub proof fn lemma_told_first<W: SendEvent>(s: SetModel<W::Model>, update: Update, n: int)
    requires
        all_valid::<W>(s.windows),
        n <= s.windows.len(),
    ensures
        all_valid::<W>(told_first::<W>(s, update, n).windows),
        told_first::<W>(s, update, n).windows.len() == s.windows.len(),
        forall|k: int| n <= k < s.windows.len() && 0 <= k ==> told_first::<W>(s, update, n).windows[k] == s.windows[k],
    decreases n,
{
    if n > 0 {
        lemma_told_first::<W>(s, update, n - 1);
        let before = told_first::<W>(s, update, n - 1);
        let w = lent(before.windows[n - 1], before.clock);
        assert(W::valid(before.windows[n - 1].widget) && before.windows[n - 1].mgr.wf());
        lemma_sent_to_all::<W>(
            w.widget,
            w.mgr,
            served(w.mgr.registrations, update),
            Event::HandleUpdate { handle: update.handle, payload: update.payload },
        );
        let out = told_first::<W>(s, update, n).windows;
        assert forall|i: int| 0 <= i < out.len() implies W::valid((#[trigger] out[i]).widget) && out[i].mgr.wf() by {
            if i != n - 1 {
                assert(W::valid(before.windows[i].widget) && before.windows[i].mgr.wf());
            }
        }
    }
}

/// Delivery of several updates keeps every window valid and every manager
/// well-formed.
pub proof fn lemma_broadcast_all<W: SendEvent>(s: SetModel<W::Model>, updates: Seq<Update>)
    requires
        all_valid::<W>(s.windows),
    ensures
        all_valid::<W>(broadcast_all::<W>(s, updates).windows),
        broadcast_all::<W>(s, updates).windows.len() == s.windows.len(),
    decreases updates.len(),
{
    if updates.len() > 0 {
        lemma_broadcast_all::<W>(s, updates.drop_last());
        let mid = broadcast_all::<W>(s, updates.drop_last());
        lemma_told_first::<W>(mid, updates.last(), mid.windows.len() as int);
    }
}

/// Delivery of what waits keeps every window valid and every manager
/// well-formed.
pub proof fn lemma_flushed<W: SendEvent>(s: SetModel<W::Model>)
    requires
        all_valid::<W>(s.windows),
    ensures
        all_valid::<W>(flushed::<W>(s).windows),
        flushed::<W>(s).windows.len() == s.windows.len(),
{
    let clear = cleared(s.windows);
    assert forall|i: int| 0 <= i < clear.len() implies W::valid((#[trigger] clear[i]).widget) && clear[i].mgr.wf() by {
        assert(W::valid(s.windows[i].widget) && s.windows[i].mgr.wf());
    }
    lemma_broadcast_all::<W>(SetModel { windows: clear, clock: s.clock }, waiting(s.windows));
}

/// An input keeps every window valid and every manager well-formed.
pub proof fn lemma_handled_input<W: SendEvent>(s: SetModel<W::Model>, index: int, input: Input)
    requires
        all_valid::<W>(s.windows),
        0 <= index < s.windows.len(),
    ensures
        all_valid::<W>(handled_input::<W>(s, index, input).0.windows),
        handled_input::<W>(s, index, input).0.windows.len() == s.windows.len(),
{
    lemma_flushed::<W>(s);
    let ready = flushed::<W>(s);
    let w = lent(ready.windows[index], ready.clock);
    assert(W::valid(ready.windows[index].widget) && ready.windows[index].mgr.wf());
    lemma_dispatched::<W>(w.widget, w.mgr, input);
    let d = dispatched::<W>(w.widget, w.mgr, input);
    let after = SetModel {
        windows: ready.windows.update(index, SlotModel { widget: d.widget, mgr: d.mgr }),
        clock: d.mgr.clock,
    };
    assert forall|i: int| 0 <= i < after.windows.len() implies W::valid((#[trigger] after.windows[i]).widget)
        && after.windows[i].mgr.wf() by {
        if i != index {
            assert(W::valid(ready.windows[i].widget) && ready.windows[i].mgr.wf());
        }
    }
    lemma_flushed::<W>(after);
}

/// A widget that registers after an update was triggered, in whatever
/// window, is not told of that update: the update is delivered in the
/// widget's window as if the widget had not registered.
pub proof fn lemma_set_late_registration_lost<I>(
    s: SetModel<I>,
    j: int,
    k: int,
    handle: UpdateHandle,
    payload: u64,
    other: UpdateHandle,
    id: WidgetId,
)
    requires
        0 <= j < s.windows.len(),
        0 <= k < s.windows.len(),
    ensures
        ({
            let first = triggered(s, j, handle, payload);
            let update = first.windows[j].mgr.pending.last();
            let late = registered_in(first, k, other, id);
            &&& update.handle == handle && update.payload == payload
            &&& late.windows[j].mgr.pending.last() == update
            &&& served(late.windows[k].mgr.registrations, update) == served(s.windows[k].mgr.registrations, update)
        }),
{
    let first = triggered(s, j, handle, payload);
    let late = registered_in(first, k, other, id);
    assert(late.windows[k].mgr.registrations.drop_last() =~= s.windows[k].mgr.registrations);
}

/// A widget that registers before an update on its handle is triggered, in
/// whatever window, is told of that update, as long as time can be
/// counted.
pub proof fn lemma_set_early_registration_served<I>(
    s: SetModel<I>,
    j: int,
    k: int,
    handle: UpdateHandle,
    payload: u64,
    id: WidgetId,
)
    requires
        0 <= j < s.windows.len(),
        0 <= k < s.windows.len(),
        s.clock < u64::MAX,
        s.windows[k].mgr.clock < u64::MAX,
    ensures
        ({
            let early = registered_in(s, k, handle, id);
            let then = triggered(early, j, handle, payload);
            let update = then.windows[j].mgr.pending.last();
            served(then.windows[k].mgr.registrations, update) == served(s.windows[k].mgr.registrations, update).push(
                id,
            )
        }),
{
    let early = registered_in(s, k, handle, id);
    let then = triggered(early, j, handle, payload);
    assert(then.windows[k].mgr.registrations.drop_last() =~= s.windows[k].mgr.registrations);
}

impl<W: SendEvent> WindowSet<W> {
    /// No window.
    pub fn new() -> (r: WindowSet<W>)
        ensures
            r@.windows.len() == 0,
            r@.clock == 0,
    {
        WindowSet { windows: Vec::new(), clock: 0 }
    }

    /// The set as a mathematical value.
    pub closed spec fn view(&self) -> SetModel<W::Model> {
        SetModel {
            windows: Seq::new(
                self.windows@.len(),
                |i: int| SlotModel { widget: self.windows@[i].widget.model(), mgr: self.windows@[i].mgr@ },
            ),
            clock: self.clock,
        }
    }

    /// Adds a window: `widget` is configured as the root of a tree with a
    /// manager of its own. Returns the place of the window.
    pub fn add(&mut self, widget: W) -> (index: usize)
        requires
            W::nodes(widget.model()).len() < u32::MAX,
        ensures
            index == old(self)@.windows.len(),
            final(self)@ == added::<W>(old(self)@, widget.model()),
            all_valid::<W>(old(self)@.windows) ==> all_valid::<W>(final(self)@.windows),
    {
        let mut widget = widget;
        let mut mgr = Manager::new();
        mgr.advance_clock(self.clock);
        mgr.configure(&mut widget);
        self.clock = mgr.clock();
        let ghost before = self@.windows;
        self.windows.push(Slot { widget, mgr });
        proof {
            assert(self@.windows =~= before.push(SlotModel { widget: widget.model(), mgr: mgr@ }));
            if all_valid::<W>(before) {
                assert forall|i: int| 0 <= i < self@.windows.len() implies W::valid(
                    (#[trigger] self@.windows[i]).widget,
                ) && self@.windows[i].mgr.wf() by {
                    if i < before.len() {
                        assert(self@.windows[i] == before[i]);
                    }
                }
            }
        }
        self.windows.len() - 1
    }

    /// The number of windows.
    pub fn len(&self) -> (r: usize)
        ensures
            r == self@.windows.len(),
    {
        self.windows.len()
    }

    /// The window at `index`.
    pub fn window(&self, index: usize) -> (r: &W)
        requires
            index < self@.windows.len(),
        ensures
            r.model() == self@.windows[index as int].widget,
    {
        &self.windows[index].widget
    }

    /// The window at `index`, to change it: to lay it out, say.
    pub fn window_mut(&mut self, index: usize) -> (r: &mut W)
        requires
            index < old(self)@.windows.len(),
        ensures
            r.model() == old(self)@.windows[index as int].widget,
            final(self)@.clock == old(self)@.clock,
            final(self)@.windows =~= old(self)@.windows.update(
                index as int,
                SlotModel { widget: final(r).model(), mgr: old(self)@.windows[index as int].mgr },
            ),
    {
        &mut self.windows[index].widget
    }

    /// The manager of the window at `index`.
    pub fn manager(&self, index: usize) -> (r: &Manager)
        requires
            index < self@.windows.len(),
        ensures
            r@ == self@.windows[index as int].mgr,
    {
        &self.windows[index].mgr
    }

    /// Triggers an update from the window at `index`. It is delivered to
    /// all windows before the next input is handled.
    pub fn trigger_update(&mut self, index: usize, handle: UpdateHandle, payload: u64)
        requires
            index < old(self)@.windows.len(),
        ensures
            final(self)@ == triggered(old(self)@, index as int, handle, payload),
    {
        let ghost s = self@;
        let slot = &mut self.windows[index];
        slot.mgr.advance_clock(self.clock);
        slot.mgr.trigger_update(handle, payload);
        self.clock = slot.mgr.clock();
        proof {
            assert(self@.windows =~= triggered(s, index as int, handle, payload).windows);
        }
    }

    /// Registers widget `id` of the window at `index` for `handle`.
    pub fn update_on_handle(&mut self, index: usize, handle: UpdateHandle, id: WidgetId)
        requires
            index < old(self)@.windows.len(),
        ensures
            final(self)@ == registered_in(old(self)@, index as int, handle, id),
    {
        let ghost s = self@;
        let slot = &mut self.windows[index];
        slot.mgr.advance_clock(self.clock);
        slot.mgr.update_on_handle(handle, id);
        self.clock = slot.mgr.clock();
        proof {
            assert(self@.windows =~= registered_in(s, index as int, handle, id).windows);
        }
    }

    /// Takes the updates that wait in the managers.
    fn gather(&mut self) -> (updates: Vec<Update>)
        ensures
            updates@ == waiting(old(self)@.windows),
            final(self)@ == (SetModel { windows: cleared(old(self)@.windows), clock: old(self)@.clock }),
    {
        let ghost ws = self@.windows;
        let mut updates: Vec<Update> = Vec::new();
        let n = self.windows.len();
        let mut i: usize = 0;
        proof {
            assert(ws.take(0) =~= Seq::<SlotModel<W::Model>>::empty());
        }
        while i < n
            invariant
                0 <= i <= n,
                n == ws.len(),
                self@.windows.len() == n,
                self@.clock == old(self)@.clock,
                updates@ == waiting(ws.take(i as int)),
                forall|k: int|
                    0 <= k < n ==> #[trigger] self@.windows[k] == if k < i {
                        SlotModel { widget: ws[k].widget, mgr: ws[k].mgr.without_pending() }
                    } else {
                        ws[k]
                    },
            decreases n - i,
        {
            let ghost before = self@.windows;
            assert(before[i as int] == ws[i as int]);
            let mut taken = self.windows[i].mgr.take_pending();
            updates.append(&mut taken);
            proof {
                assert(ws.take(i as int + 1).drop_last() =~= ws.take(i as int));
                assert(ws.take(i as int + 1).last() == ws[i as int]);
                assert forall|k: int| 0 <= k < n implies #[trigger] self@.windows[k] == if k < i + 1 {
                    SlotModel { widget: ws[k].widget, mgr: ws[k].mgr.without_pending() }
                } else {
                    ws[k]
                } by {
                    if k != i {
                        assert(self@.windows[k] == before[k]);
                    }
                }
            }
            i += 1;
        }
        proof {
            assert(ws.take(n as int) =~= ws);
            assert(self@.windows =~= cleared(ws));
        }
        updates
    }

    /// Delivers `update` to every window.
    fn tell_all(&mut self, update: Update)
        requires
            all_valid::<W>(old(self)@.windows),
        ensures
            final(self)@ == broadcast::<W>(old(self)@, update),
            all_valid::<W>(final(self)@.windows),
    {
        let ghost s = self@;
        let n = self.windows.len();
        let mut i: usize = 0;
        while i < n
            invariant
                0 <= i <= n,
                n == s.windows.len(),
                all_valid::<W>(s.windows),
                self@ == told_first::<W>(s, update, i as int),
            decreases n - i,
        {
            let ghost before = self@;
            proof {
                lemma_told_first::<W>(s, update, i as int);
                assert(W::valid(before.windows[i as int].widget) && before.windows[i as int].mgr.wf());
            }
            let slot = &mut self.windows[i];
            slot.mgr.advance_clock(self.clock);
            slot.mgr.update_handle(&mut slot.widget, update);
            self.clock = slot.mgr.clock();
            proof {
                let w = told::<W>(lent(before.windows[i as int], before.clock), update);
                assert(self@.windows =~= before.windows.update(i as int, w));
            }
            i += 1;
        }
        proof {
            lemma_told_first::<W>(s, update, n as int);
        }
    }

    /// Takes the updates that wait in the managers and delivers each of
    /// them to every window.
    pub fn deliver(&mut self)
        requires
            all_valid::<W>(old(self)@.windows),
        ensures
            final(self)@ == flushed::<W>(old(self)@),
            all_valid::<W>(final(self)@.windows),
    {
        let ghost s = self@;
        let updates = self.gather();
        let ghost clear = self@;
        proof {
            assert forall|i: int| 0 <= i < clear.windows.len() implies W::valid((#[trigger] clear.windows[i]).widget)
                && clear.windows[i].mgr.wf() by {
                assert(W::valid(s.windows[i].widget) && s.windows[i].mgr.wf());
            }
        }
        let mut j: usize = 0;
        proof {
            assert(updates@.take(0) =~= Seq::<Update>::empty());
        }
        while j < updates.len()
            invariant
                0 <= j <= updates.len(),
                all_valid::<W>(clear.windows),
                all_valid::<W>(self@.windows),
                self@ == broadcast_all::<W>(clear, updates@.take(j as int)),
            decreases updates.len() - j,
        {
            proof {
                assert(updates@.take(j as int + 1).drop_last() =~= updates@.take(j as int));
                assert(updates@.take(j as int + 1).last() == updates@[j as int]);
            }
            self.tell_all(updates[j]);
            j += 1;
        }
        proof {
            assert(updates@.take(j as int) =~= updates@);
        }
    }

    /// Gives `input` to the window at `index`. The updates that wait are
    /// delivered before the input is handled, and those that wait then
    /// before the call returns. Returns what the window answered to the
    /// input.
    pub fn handle_input(&mut self, index: usize, input: Input) -> (r: Response<W::Msg>)
        requires
            index < old(self)@.windows.len(),
            all_valid::<W>(old(self)@.windows),
        ensures
            (final(self)@, r) == handled_input::<W>(old(self)@, index as int, input),
            all_valid::<W>(final(self)@.windows),
    {
        proof {
            lemma_flushed::<W>(self@);
        }
        self.deliver();
        let ghost ready = self@;
        proof {
            let w = lent(ready.windows[index as int], ready.clock);
            assert(W::valid(ready.windows[index as int].widget) && ready.windows[index as int].mgr.wf());
            lemma_dispatched::<W>(w.widget, w.mgr, input);
        }
        let slot = &mut self.windows[index];
        slot.mgr.advance_clock(self.clock);
        let r = slot.mgr.dispatch(&mut slot.widget, input);
        self.clock = slot.mgr.clock();
        proof {
            let w = lent(ready.windows[index as int], ready.clock);
            let d = dispatched::<W>(w.widget, w.mgr, input);
            let after = ready.windows.update(index as int, SlotModel { widget: d.widget, mgr: d.mgr });
            assert(self@.windows =~= after);
            assert forall|i: int| 0 <= i < after.len() implies W::valid((#[trigger] after[i]).widget)
                && after[i].mgr.wf() by {
                if i != index {
                    assert(W::valid(ready.windows[i].widget) && ready.windows[i].mgr.wf());
                }
            }
        }
        self.deliver();
        r
    }
}

} // verus!
