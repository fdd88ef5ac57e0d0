//! The entry points for the event loop: configuring a tree, feeding it one
//! input at a time, and delivering the updates that were triggered.
//!
//! An input is handled to the end before the next one is taken. Updates
//! that widgets trigger meanwhile wait in the manager; the event loop takes
//! them when the input has been handled and delivers them to every window
//! before it takes the next input.

use vstd::prelude::*;
use crate::event::{ControlKey, Event, PressSource, Response};
use crate::geom::{clamp_i32, Coord};
use crate::id::WidgetId;
use crate::manager::{
    lemma_close_window, lemma_end_grab, lemma_move_grab, served, Manager, ManagerModel, Update, };
use crate::traits::{SendEvent, Sent, WidgetCore};

verus! {

/// Something that the platform reports.
#[derive(Clone, Copy, Debug, PartialEq, Eq)]
pub enum Input {
    /// A button went down, or a finger touched the screen.
    PointerDown { source: PressSource, coord: Coord },
    /// The mouse or a finger moved.
    PointerMove { source: PressSource, coord: Coord },
    /// A button went up, or a finger left the screen.
    PointerUp { source: PressSource, coord: Coord },
    /// A key with a meaning for navigation or editing was pressed.
    Control(ControlKey),
    /// A character was typed.
    Character(char),
    /// The window lost the focus.
    FocusLost,
}

/// The way from `from` to `to`, each part clamped to `i32`.
pub open spec fn spec_delta(from: Coord, to: Coord) -> Coord {
    Coord(clamp_i32(to.0 - from.0), clamp_i32(to.1 - from.1))
}

/// The way from `from` to `to`.
pub fn delta(from: Coord, to: Coord) -> (r: Coord)
    ensures
        r == spec_delta(from, to),
{
    let dx: i64 = to.0 as i64 - from.0 as i64;
    let dy: i64 = to.1 as i64 - from.1 as i64;
    let x: i32 = if dx < i32::MIN as i64 {
        i32::MIN
    } else if dx > i32::MAX as i64 {
        i32::MAX
    } else {
        dx as i32
    };
    let y: i32 = if dy < i32::MIN as i64 {
        i32::MIN
    } else if dy > i32::MAX as i64 {
        i32::MAX
    } else {
        dy as i32
    };
    Coord(x, y)
}

/// What comes of offering `event` to the parents of the open popups, the
/// topmost first, at most `fuel` of them. A parent that hands the event back
/// has its popup closed, and the next one is asked. The flag says whether a
/// parent took the event; the response is that parent's.
pub open spec fn offered<W: SendEvent>(m: W::Model, mgr: ManagerModel, event: Event, fuel: nat) -> (
    Sent<W::Model, W::Msg>,
    bool,
)
    decreases fuel,
{
    if fuel == 0 || mgr.popups.len() == 0 {
        (Sent { widget: m, mgr, response: Response::Nothing }, false)
    } else {
        let top = mgr.popups.last();
        let s = W::sent(m, mgr, top.popup.parent, event);
        if s.response is Unhandled {
            offered::<W>(s.widget, s.mgr.close_window(top.window), event, (fuel - 1) as nat)
        } else {
            (s, true)
        }
    }
}

/// What comes of one input.
///
/// - A press that starts while its source is grabbed, or over no widget, is
///   dropped. Any other is offered to the parents of the open popups as
///   [`offered`] says, and, if none of them takes it, is sent to the widget
///   under it. A press that nobody takes clears the keyboard focus.
/// - A move of a grabbed source is sent to the widget that holds the grab,
///   wherever the pointer is. A move without a grab sets the widget that is
///   hovered over.
/// - The end of a grabbed press is sent to the widget that holds the grab,
///   and the grab ends whatever the widget answers.
/// - Keys and characters go to the widget that has the keyboard focus.
/// - When the window loses the focus, all grabs end and nothing is hovered
///   over.
pub open spec fn dispatched<W: SendEvent>(m: W::Model, mgr: ManagerModel, input: Input) -> Sent<W::Model, W::Msg> {
    let idle = Sent { widget: m, mgr, response: Response::Nothing };
    match input {
        Input::PointerDown { source, coord } => {
            if mgr.has_grab(source) || W::hit(m, coord) is None {
                idle
            } else {
                let event = Event::PressStart { source, start_id: W::hit(m, coord)->0, coord };
                let first = offered::<W>(m, mgr, event, mgr.popups.len());
                if first.1 {
                    first.0
                } else {
                    let s = W::sent(first.0.widget, first.0.mgr, W::hit(m, coord)->0, event);
                    if s.response is Unhandled {
                        Sent { mgr: s.mgr.set_key_focus(None), ..s }
                    } else {
                        s
                    }
                }
            }
        },
        Input::PointerMove { source, coord } => {
            match mgr.grab_of(source) {
                Some(grab) => {
                    let event = Event::PressMove {
                        source,
                        cur_id: W::hit(m, coord),
                        coord,
                        delta: spec_delta(grab.coord, coord),
                    };
                    W::sent(m, mgr.move_grab(source, coord), grab.id, event)
                },
                None => Sent { widget: m, mgr: mgr.set_hover(W::hit(m, coord)), response: Response::Nothing },
            }
        },
        Input::PointerUp { source, coord } => {
            match mgr.grab_of(source) {
                Some(grab) => {
                    let event = Event::PressEnd { source, end_id: W::hit(m, coord), coord };
                    let s = W::sent(m, mgr, grab.id, event);
                    Sent { mgr: s.mgr.end_grab(source), ..s }
                },
                None => idle,
            }
        },
        Input::Control(key) => {
            match mgr.key_focus {
                Some(id) => W::sent(m, mgr, id, Event::Control(key)),
                None => idle,
            }
        },
        Input::Character(c) => {
            match mgr.key_focus {
                Some(id) => W::sent(m, mgr, id, Event::ReceivedCharacter(c)),
                None => idle,
            }
        },
        Input::FocusLost => Sent { widget: m, mgr: mgr.release_grabs().set_hover(None), response: Response::Nothing },
    }
}

/// What comes of sending `event` to each of `ids` in turn: the widget and
/// the manager in the end, and the responses in order.
pub open spec fn sent_to_all<W: SendEvent>(m: W::Model, mgr: ManagerModel, ids: Seq<WidgetId>, event: Event) -> (
    W::Model,
    ManagerModel,
    Seq<Response<W::Msg>>,
)
    decreases ids.len(),
{
    if ids.len() == 0 {
        (m, mgr, Seq::empty())
    } else {
        let init = sent_to_all::<W>(m, mgr, ids.drop_last(), event);
        let s = W::sent(init.0, init.1, ids.last(), event);
        (s.widget, s.mgr, init.2.push(s.response))
    }
}

/// Offering an event to the parents of popups keeps the tree valid, with
/// the same walk, and the manager well-formed.
pub proof fn lemma_offered<W: SendEvent>(m: W::Model, mgr: ManagerModel, event: Event, fuel: nat)
    requires
        W::valid(m),
        mgr.wf(),
    ensures
        W::valid(offered::<W>(m, mgr, event, fuel).0.widget),
        W::nodes(offered::<W>(m, mgr, event, fuel).0.widget) == W::nodes(m),
        offered::<W>(m, mgr, event, fuel).0.mgr.wf(),
    decreases fuel,
{
    if !(fuel == 0 || mgr.popups.len() == 0) {
        let top = mgr.popups.last();
        let s = W::sent(m, mgr, top.popup.parent, event);
        W::lemma_sent(m, mgr, top.popup.parent, event);
        lemma_close_window(s.mgr, top.window);
        if s.response is Unhandled {
            lemma_offered::<W>(s.widget, s.mgr.close_window(top.window), event, (fuel - 1) as nat);
        }
    }
}

/// An input changes neither the shape of the tree nor the well-formedness
/// of the manager, and the end of a press leaves its source free.
pub proof fn lemma_dispatched<W: SendEvent>(m: W::Model, mgr: ManagerModel, input: Input)
    requires
        W::valid(m),
        mgr.wf(),
    ensures
        W::valid(dispatched::<W>(m, mgr, input).widget),
        W::nodes(dispatched::<W>(m, mgr, input).widget) == W::nodes(m),
        dispatched::<W>(m, mgr, input).mgr.wf(),
        input matches Input::PointerUp { source, coord } ==> !dispatched::<W>(m, mgr, input).mgr.has_grab(source),
{
    match input {
        Input::PointerDown { source, coord } => {
            if !(mgr.has_grab(source) || W::hit(m, coord) is None) {
                let event = Event::PressStart { source, start_id: W::hit(m, coord)->0, coord };
                lemma_offered::<W>(m, mgr, event, mgr.popups.len());
                let first = offered::<W>(m, mgr, event, mgr.popups.len());
                W::lemma_sent(first.0.widget, first.0.mgr, W::hit(m, coord)->0, event);
            }
        },
        Input::PointerMove { source, coord } => {
            lemma_move_grab(mgr, source, coord);
            if let Some(grab) = mgr.grab_of(source) {
                let event = Event::PressMove {
                    source,
                    cur_id: W::hit(m, coord),
                    coord,
                    delta: spec_delta(grab.coord, coord),
                };
                W::lemma_sent(m, mgr.move_grab(source, coord), grab.id, event);
            }
        },
        Input::PointerUp { source, coord } => {
            if let Some(grab) = mgr.grab_of(source) {
                let event = Event::PressEnd { source, end_id: W::hit(m, coord), coord };
                W::lemma_sent(m, mgr, grab.id, event);
                lemma_end_grab(W::sent(m, mgr, grab.id, event).mgr, source);
            }
        },
        Input::Control(key) => {
            if let Some(id) = mgr.key_focus {
                W::lemma_sent(m, mgr, id, Event::Control(key));
            }
        },
        Input::Character(c) => {
            if let Some(id) = mgr.key_focus {
                W::lemma_sent(m, mgr, id, Event::ReceivedCharacter(c));
            }
        },
        Input::FocusLost => {},
    }
}

/// Sending an event to several widgets in turn keeps the tree valid, with
/// the same walk, and the manager well-formed; there is one response for
/// each widget.
pub proof fn lemma_sent_to_all<W: SendEvent>(m: W::Model, mgr: ManagerModel, ids: Seq<WidgetId>, event: Event)
    requires
        W::valid(m),
        mgr.wf(),
    ensures
        W::valid(sent_to_all::<W>(m, mgr, ids, event).0),
        W::nodes(sent_to_all::<W>(m, mgr, ids, event).0) == W::nodes(m),
        sent_to_all::<W>(m, mgr, ids, event).1.wf(),
        sent_to_all::<W>(m, mgr, ids, event).2.len() == ids.len(),
    decreases ids.len(),
{
    if ids.len() > 0 {
        lemma_sent_to_all::<W>(m, mgr, ids.drop_last(), event);
        let init = sent_to_all::<W>(m, mgr, ids.drop_last(), event);
        W::lemma_sent(init.0, init.1, ids.last(), event);
    }
}

/// The widget and the manager after each of `inputs` was handled in turn.
pub open spec fn run<W: SendEvent>(m: W::Model, mgr: ManagerModel, inputs: Seq<Input>) -> (W::Model, ManagerModel)
    decreases inputs.len(),
{
    if inputs.len() == 0 {
        (m, mgr)
    } else {
        let init = run::<W>(m, mgr, inputs.drop_last());
        let s = dispatched::<W>(init.0, init.1, inputs.last());
        (s.widget, s.mgr)
    }
}

/// Whatever the inputs are, a valid tree stays valid, with the same walk,
/// and the manager stays well-formed: for each source at most one widget
/// holds the grab.
pub proof fn lemma_run<W: SendEvent>(m: W::Model, mgr: ManagerModel, inputs: Seq<Input>)
    requires
        W::valid(m),
        mgr.wf(),
    ensures
        W::valid(run::<W>(m, mgr, inputs).0),
        W::nodes(run::<W>(m, mgr, inputs).0) == W::nodes(m),
        run::<W>(m, mgr, inputs).1.wf(),
    decreases inputs.len(),
{
    if inputs.len() > 0 {
        lemma_run::<W>(m, mgr, inputs.drop_last());
        let init = run::<W>(m, mgr, inputs.drop_last());
        lemma_dispatched::<W>(init.0, init.1, inputs.last());
    }
}

impl Manager {
    /// Configures the tree below and with `widget`, which becomes the root:
    /// it gets the first identifier.
    pub fn configure<W: WidgetCore>(&mut self, widget: &mut W)
        requires
            W::nodes(old(widget).model()).len() < u32::MAX,
            old(self)@.wf(),
        ensures
            (final(widget).model(), final(self)@) == W::configured(
                old(widget).model(),
                old(self)@,
                WidgetId::spec_first(),
            ),
            W::valid(final(widget).model()),
            W::own(final(widget).model()).id == WidgetId::spec_first(),
            final(self)@.wf(),
    {
        proof {
            W::lemma_configured(widget.model(), self@, WidgetId::spec_first());
        }
        widget.configure(self, WidgetId::first());
    }

    /// Offers `event` to the parents of the open popups.
    fn offer<W: SendEvent>(&mut self, widget: &mut W, event: Event) -> (r: Option<Response<W::Msg>>)
        requires
            W::valid(old(widget).model()),
            old(self)@.wf(),
        ensures
            ({
                let o = offered::<W>(old(widget).model(), old(self)@, event, old(self)@.popups.len());
                &&& final(widget).model() == o.0.widget
                &&& final(self)@ == o.0.mgr
                &&& r is Some == o.1
                &&& r matches Some(response) ==> response == o.0.response
            }),
    {
        let mut fuel = self.popup_count();
        let ghost m0 = widget.model();
        let ghost mgr0 = self@;
        while fuel > 0
            invariant
                W::valid(widget.model()),
                self@.wf(),
                m0 == old(widget).model(),
                mgr0 == old(self)@,
                offered::<W>(widget.model(), self@, event, fuel as nat) == offered::<W>(
                    m0,
                    mgr0,
                    event,
                    mgr0.popups.len(),
                ),
            decreases fuel,
        {
            let ghost here = offered::<W>(widget.model(), self@, event, fuel as nat);
            let ghost m1 = widget.model();
            let ghost mgr1 = self@;
            match self.top_popup() {
                None => {
                    return None;
                },
                Some(top) => {
                    proof {
                        W::lemma_sent(widget.model(), self@, top.popup.parent, event);
                    }
                    let r = widget.send(self, top.popup.parent, event);
                    proof {
                        let s = W::sent(m1, mgr1, top.popup.parent, event);
                        assert(s.response == r);
                        assert(here == if s.response is Unhandled {
                            offered::<W>(s.widget, s.mgr.close_window(top.window), event, (fuel - 1) as nat)
                        } else {
                            (s, true)
                        });
                    }
                    match r {
                        Response::Unhandled(_) => {
                            self.close_window(top.window);
                        },
                        r => {
                            return Some(r);
                        },
                    }
                },
            }
            fuel -= 1;
        }
        None
    }

    /// Handles one input: finds the widgets that it concerns and sends them
    /// the events that it stands for.
    pub fn dispatch<W: SendEvent>(&mut self, widget: &mut W, input: Input) -> (r: Response<W::Msg>)
        requires
            W::valid(old(widget).model()),
            old(self)@.wf(),
        ensures
            (Sent { widget: final(widget).model(), mgr: final(self)@, response: r }) == dispatched::<W>(
                old(widget).model(),
                old(self)@,
                input,
            ),
            W::valid(final(widget).model()),
            W::nodes(final(widget).model()) == W::nodes(old(widget).model()),
            final(self)@.wf(),
    {
        proof {
            lemma_dispatched::<W>(widget.model(), self@, input);
        }
        match input {
            Input::PointerDown { source, coord } => {
                if self.grab_of(source).is_some() {
                    return Response::Nothing;
                }
                match widget.find_id(coord) {
                    None => Response::Nothing,
                    Some(start_id) => {
                        let event = Event::PressStart { source, start_id, coord };
                        proof {
                            lemma_offered::<W>(widget.model(), self@, event, self@.popups.len());
                        }
                        match self.offer(widget, event) {
                            Some(r) => r,
                            None => {
                                let r = widget.send(self, start_id, event);
                                if r.is_unhandled() {
                                    self.set_key_focus(None);
                                }
                                r
                            },
                        }
                    },
                }
            },
            Input::PointerMove { source, coord } => {
                let cur_id = widget.find_id(coord);
                match self.grab_of(source) {
                    Some(grab) => {
                        let event = Event::PressMove { source, cur_id, coord, delta: delta(grab.coord, coord) };
                        self.move_grab(source, coord);
                        widget.send(self, grab.id, event)
                    },
                    None => {
                        self.set_hover(cur_id);
                        Response::Nothing
                    },
                }
            },
            Input::PointerUp { source, coord } => {
                match self.grab_of(source) {
                    Some(grab) => {
                        let event = Event::PressEnd { source, end_id: widget.find_id(coord), coord };
                        proof {
                            W::lemma_sent(widget.model(), self@, grab.id, event);
                        }
                        let r = widget.send(self, grab.id, event);
                        self.end_grab(source);
                        r
                    },
                    None => Response::Nothing,
                }
            },
            Input::Control(key) => {
                match self.key_focus() {
                    Some(id) => widget.send(self, id, Event::Control(key)),
                    None => Response::Nothing,
                }
            },
            Input::Character(c) => {
                match self.key_focus() {
                    Some(id) => widget.send(self, id, Event::ReceivedCharacter(c)),
                    None => Response::Nothing,
                }
            },
            Input::FocusLost => {
                self.release_grabs();
                self.set_hover(None);
                Response::Nothing
            },
        }
    }

    /// Delivers an update to this window: every widget that registered for
    /// the handle before the update was triggered is sent
    /// [`Event::HandleUpdate`], in the order of registration. Returns what
    /// the widgets answered.
    pub fn update_handle<W: SendEvent>(&mut self, widget: &mut W, update: Update) -> (r: Vec<Response<W::Msg>>)
        requires
            W::valid(old(widget).model()),
            old(self)@.wf(),
        ensures
            (final(widget).model(), final(self)@, r@) == sent_to_all::<W>(
                old(widget).model(),
                old(self)@,
                served(old(self)@.registrations, update),
                Event::HandleUpdate { handle: update.handle, payload: update.payload },
            ),
            r@.len() == served(old(self)@.registrations, update).len(),
            W::valid(final(widget).model()),
            W::nodes(final(widget).model()) == W::nodes(old(widget).model()),
            final(self)@.wf(),
    {
        let ids = self.served(update);
        let event = Event::HandleUpdate { handle: update.handle, payload: update.payload };
        let ghost m0 = widget.model();
        let ghost mgr0 = self@;
        let mut out: Vec<Response<W::Msg>> = Vec::new();
        let mut i: usize = 0;
        proof {
            assert(ids@.take(0) =~= Seq::<WidgetId>::empty());
        }
        while i < ids.len()
            invariant
                0 <= i <= ids.len(),
                W::valid(m0),
                mgr0.wf(),
                (widget.model(), self@, out@) == sent_to_all::<W>(m0, mgr0, ids@.take(i as int), event),
            decreases ids.len() - i,
        {
            proof {
                lemma_sent_to_all::<W>(m0, mgr0, ids@.take(i as int), event);
                assert(ids@.take(i as int + 1).drop_last() =~= ids@.take(i as int));
                assert(ids@.take(i as int + 1).last() == ids@[i as int]);
            }
            let r = widget.send(self, ids[i], event);
            out.push(r);
            i += 1;
        }
        proof {
            assert(ids@.take(i as int) =~= ids@);
            lemma_sent_to_all::<W>(m0, mgr0, ids@, event);
        }
        out
    }
}

} // verus!
