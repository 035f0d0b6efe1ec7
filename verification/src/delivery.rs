//! Carrying out requests one after the other.

use vstd::prelude::*;

use crate::message_laws;
use crate::protocol::{
    EditMessageText, EditMessageTextView, SendMessage, SendMessageView, TelegramClientError,
    PARSE_MODE_HTML,
};
use crate::topic;

verus! {

/// A request to the Bot API.
#[derive(Debug)]
pub enum Outbound {
    /// Send a message.
    Send(SendMessage),
    /// Replace the text of a message.
    Edit(EditMessageText),
}

/// What a request to the Bot API holds.
pub enum OutboundView {
    Send(SendMessageView),
    Edit(EditMessageTextView),
}

impl View for Outbound {
    type V = OutboundView;

    open spec fn view(&self) -> OutboundView {
        match *self {
            Outbound::Send(request) => OutboundView::Send(request@),
            Outbound::Edit(request) => OutboundView::Edit(request@),
        }
    }
}

/// What each of the requests holds.
pub open spec fn views(requests: Seq<Outbound>) -> Seq<OutboundView> {
    requests.map_values(|request: Outbound| request@)
}

/// The text of the message that `request` sends or leaves behind.
pub open spec fn message_text(request: OutboundView) -> Seq<char> {
    match request {
        OutboundView::Send(request) => request.text,
        OutboundView::Edit(request) => request.text,
    }
}

/// `request` has the form that Telegram asks for: its text is a well-formed
/// message, marked as HTML, and it does not name the general topic.
pub open spec fn is_well_formed(request: OutboundView) -> bool {
    &&& message_laws::is_well_formed_message(message_text(request))
    &&& match request {
        OutboundView::Send(request) => request.parse_mode == Some(PARSE_MODE_HTML@)
            && request.message_thread_id != Some(topic::GENERAL_TOPIC_ID),
        OutboundView::Edit(request) => request.parse_mode == Some(PARSE_MODE_HTML@),
    }
}

/// What happened to the request that was handed out last.
pub enum DeliveryEvent {
    /// None was handed out yet.
    Started,
    /// It was carried out.
    Succeeded,
    /// It failed.
    Failed(TelegramClientError),
}

/// Requests on their way, to be carried out in order. A send that fails ends the
/// delivery; an edit that fails does not.
pub struct Delivery {
    pending: Vec<Outbound>,
    editing: bool,
    failure: Option<TelegramClientError>,
}

/// The state of a delivery.
pub struct DeliveryView {
    /// The requests that were not handed out yet.
    pub pending: Seq<OutboundView>,
    /// The request that was handed out last is an edit.
    pub editing: bool,
    /// What ended the delivery.
    pub failure: Option<TelegramClientError>,
}

impl View for Delivery {
    type V = DeliveryView;

    closed spec fn view(&self) -> DeliveryView {
        DeliveryView {
            pending: views(self.pending@),
            editing: self.editing,
            failure: self.failure,
        }
    }
}

/// A delivery of `requests` of which none was handed out yet.
pub open spec fn fresh(requests: Seq<OutboundView>) -> DeliveryView {
    DeliveryView { pending: requests, editing: false, failure: None }
}

/// The state behind `event`, and the request that is to be carried out next.
pub open spec fn delivery_step(state: DeliveryView, event: DeliveryEvent) -> (
    DeliveryView,
    Option<OutboundView>,
) {
    if event is Failed && !state.editing {
        (
            DeliveryView {
                pending: Seq::empty(),
                editing: false,
                failure: Some(event->Failed_0),
            },
            None,
        )
    } else if state.pending.len() == 0 {
        (DeliveryView { editing: false, ..state }, None)
    } else {
        (
            DeliveryView {
                pending: state.pending.skip(1),
                editing: state.pending[0] is Edit,
                ..state
            },
            Some(state.pending[0]),
        )
    }
}

impl Delivery {
    /// A delivery of `requests`.
    pub fn new(requests: Vec<Outbound>) -> (delivery: Self)
        ensures
            delivery@ == fresh(views(requests@)),
    {
        Delivery { pending: requests, editing: false, failure: None }
    }

    /// Takes note of `event` and hands out the request that is to be carried out
    /// next; `None` where there is none.
    pub fn advance(&mut self, event: DeliveryEvent) -> (next: Option<Outbound>)
        ensures
            final(self)@ == delivery_step(old(self)@, event).0,
            match next {
                Some(next) => delivery_step(old(self)@, event).1 == Some(next@),
                None => delivery_step(old(self)@, event).1 is None,
            },
    {
        let ghost before = self.pending@;
        match event {
            DeliveryEvent::Failed(error) => {
                if !self.editing {
                    self.pending = Vec::new();
                    self.failure = Some(error);
                    assert(views(self.pending@) =~= Seq::empty());
                    return None;
                }
            },
            _ => {},
        }
        if self.pending.len() == 0 {
            self.editing = false;
            return None;
        }
        let next = self.pending.remove(0);
        self.editing = match &next {
            Outbound::Send(_) => false,
            Outbound::Edit(_) => true,
        };
        assert(views(self.pending@) =~= views(before).skip(1));
        Some(next)
    }

    /// Whether the delivery was ended by a failure, and by which.
    pub fn outcome(self) -> (outcome: Result<(), TelegramClientError>)
        ensures
            match self@.failure {
                Some(error) => outcome == Err::<(), TelegramClientError>(error),
                None => outcome is Ok,
            },
    {
        match self.failure {
            Some(error) => Err(error),
            None => Ok(()),
        }
    }
}

/// The requests that a delivery hands out in the course of `events`.
pub open spec fn handed_out(state: DeliveryView, events: Seq<DeliveryEvent>) -> Seq<OutboundView>
    decreases events.len(),
{
    if events.len() == 0 {
        Seq::empty()
    } else {
        let (next, request) = delivery_step(state, events[0]);
        (match request {
            Some(request) => seq![request],
            None => Seq::empty(),
        }) + handed_out(next, events.skip(1))
    }
}

/// In the course of `events` no failure is reported but that of an edit.
pub open spec fn only_edits_fail(state: DeliveryView, events: Seq<DeliveryEvent>) -> bool
    decreases events.len(),
{
    events.len() == 0 || ((events[0] is Failed ==> state.editing) && only_edits_fail(
        delivery_step(state, events[0]).0,
        events.skip(1),
    ))
}

/// Requests are handed out in order, each once: what was handed out at any time
/// is what the delivery started with, up to some point.
pub proof fn law_requests_go_out_in_order(state: DeliveryView, events: Seq<DeliveryEvent>)
    ensures
        handed_out(state, events).len() <= state.pending.len(),
        handed_out(state, events) == state.pending.take(handed_out(state, events).len() as int),
    decreases events.len(),
{
    if events.len() > 0 {
        let (next, request) = delivery_step(state, events[0]);
        law_requests_go_out_in_order(next, events.skip(1));
    }
    assert(handed_out(state, events) =~= state.pending.take(
        handed_out(state, events).len() as int,
    ));
}

/// As long as only edits fail, each event brings the next request.
pub proof fn law_all_goes_out_unless_a_send_fails(state: DeliveryView, events: Seq<DeliveryEvent>)
    requires
        only_edits_fail(state, events),
    ensures
        handed_out(state, events) == state.pending.take(
            if events.len() <= state.pending.len() {
                events.len() as int
            } else {
                state.pending.len() as int
            },
        ),
    decreases events.len(),
{
    let n = if events.len() <= state.pending.len() {
        events.len() as int
    } else {
        state.pending.len() as int
    };
    if events.len() > 0 {
        law_all_goes_out_unless_a_send_fails(delivery_step(state, events[0]).0, events.skip(1));
    }
    assert(handed_out(state, events) =~= state.pending.take(n));
}

/// Once a send has failed nothing more goes out.
pub proof fn law_nothing_goes_out_after_a_failed_send(
    state: DeliveryView,
    error: TelegramClientError,
    events: Seq<DeliveryEvent>,
)
    requires
        !state.editing,
    ensures
        delivery_step(state, DeliveryEvent::Failed(error)).0.failure == Some(error),
        handed_out(delivery_step(state, DeliveryEvent::Failed(error)).0, events) == Seq::<
            OutboundView,
        >::empty(),
{
    law_requests_go_out_in_order(delivery_step(state, DeliveryEvent::Failed(error)).0, events);
}

/// The state of a delivery behind `events`.
pub open spec fn state_after(state: DeliveryView, events: Seq<DeliveryEvent>) -> DeliveryView
    decreases events.len(),
{
    if events.len() == 0 {
        state
    } else {
        state_after(delivery_step(state, events[0]).0, events.skip(1))
    }
}

/// A request is under way from the event that hands it out to the next: the event
/// at `k` tells of the request at `k - 1`. Where each failure that is told is that
/// of an edit, each event brings the next request until all have gone out, and
/// the delivery has not failed.
pub proof fn law_failed_edits_are_passed_over(
    requests: Seq<OutboundView>,
    events: Seq<DeliveryEvent>,
)
    requires
        forall|k: int|
            0 <= k < events.len() && (#[trigger] events[k]) is Failed ==> 1 <= k <= requests.len()
                && requests[k - 1] is Edit,
    ensures
        handed_out(fresh(requests), events) == requests.take(
            if events.len() <= requests.len() {
                events.len() as int
            } else {
                requests.len() as int
            },
        ),
        state_after(fresh(requests), events).failure is None,
{
    assert(requests.skip(0) =~= requests);
    lemma_failed_edits_are_passed_over(fresh(requests), requests, 0, events);
}

proof fn lemma_failed_edits_are_passed_over(
    state: DeliveryView,
    requests: Seq<OutboundView>,
    done: int,
    events: Seq<DeliveryEvent>,
)
    requires
        0 <= done,
        state.pending == if done <= requests.len() {
            requests.skip(done)
        } else {
            Seq::empty()
        },
        state.editing == (1 <= done <= requests.len() && requests[done - 1] is Edit),
        state.failure is None,
        forall|k: int|
            0 <= k < events.len() && (#[trigger] events[k]) is Failed ==> 1 <= done + k
                <= requests.len() && requests[done + k - 1] is Edit,
    ensures
        handed_out(state, events) == state.pending.take(
            if events.len() <= state.pending.len() {
                events.len() as int
            } else {
                state.pending.len() as int
            },
        ),
        state_after(state, events).failure is None,
        state_after(state, events).editing == (1 <= done + events.len() <= requests.len()
            && requests[done + events.len() - 1] is Edit),
    decreases events.len(),
{
    let n = if events.len() <= state.pending.len() {
        events.len() as int
    } else {
        state.pending.len() as int
    };
    if events.len() > 0 {
        let next = delivery_step(state, events[0]).0;
        let rest = events.skip(1);
        assert(events[0] is Failed ==> state.editing);
        assert forall|k: int| 0 <= k < rest.len() && (#[trigger] rest[k]) is Failed implies 1
            <= done + 1 + k <= requests.len() && requests[done + 1 + k - 1] is Edit by {
            assert(rest[k] == events[k + 1]);
        }
        if done < requests.len() {
            assert(requests.skip(done).skip(1) =~= requests.skip(done + 1));
        } else {
            assert(state.pending =~= Seq::empty());
        }
        lemma_failed_edits_are_passed_over(next, requests, done + 1, rest);
    }
    assert(handed_out(state, events) =~= state.pending.take(n));
}

/// A failure that is told, and is not that of an edit, ends the delivery: what went
/// out are the requests up to it, nothing goes out later, and the delivery has failed
/// with its error.
pub proof fn law_a_failed_send_ends_the_delivery(
    requests: Seq<OutboundView>,
    before: Seq<DeliveryEvent>,
    error: TelegramClientError,
    later: Seq<DeliveryEvent>,
)
    requires
        1 <= before.len() <= requests.len() ==> requests[before.len() - 1] is Send,
        forall|k: int|
            0 <= k < before.len() && (#[trigger] before[k]) is Failed ==> 1 <= k <= requests.len()
                && requests[k - 1] is Edit,
    ensures
        handed_out(fresh(requests), before.push(DeliveryEvent::Failed(error)) + later)
            == requests.take(
            if before.len() <= requests.len() {
                before.len() as int
            } else {
                requests.len() as int
            },
        ),
        state_after(fresh(requests), before.push(DeliveryEvent::Failed(error))).failure == Some(
            error,
        ),
{
    let failing = seq![DeliveryEvent::Failed(error)];
    let state = state_after(fresh(requests), before);
    let ended = delivery_step(state, DeliveryEvent::Failed(error)).0;
    assert(requests.skip(0) =~= requests);
    lemma_failed_edits_are_passed_over(fresh(requests), requests, 0, before);
    assert(!state.editing);
    lemma_events_join(fresh(requests), before, failing + later);
    lemma_events_join(fresh(requests), before, failing);
    assert(before + (failing + later) =~= before.push(DeliveryEvent::Failed(error)) + later);
    assert(before + failing =~= before.push(DeliveryEvent::Failed(error)));
    assert((failing + later)[0] == DeliveryEvent::Failed(error));
    assert((failing + later).skip(1) =~= later);
    assert(failing.skip(1) =~= Seq::empty());
    reveal_with_fuel(state_after, 2);
    law_requests_go_out_in_order(ended, later);
    assert(handed_out(state, failing + later) =~= Seq::empty());
    let out = handed_out(fresh(requests), before);
    assert(out + Seq::<OutboundView>::empty() =~= out);
}

proof fn lemma_events_join(state: DeliveryView, a: Seq<DeliveryEvent>, b: Seq<DeliveryEvent>)
    ensures
        state_after(state, a + b) == state_after(state_after(state, a), b),
        handed_out(state, a + b) == handed_out(state, a) + handed_out(state_after(state, a), b),
    decreases a.len(),
{
    if a.len() == 0 {
        assert(a + b =~= b);
        assert(handed_out(state, a) + handed_out(state, b) =~= handed_out(state, b));
    } else {
        let next = delivery_step(state, a[0]).0;
        lemma_events_join(next, a.skip(1), b);
        assert((a + b)[0] == a[0]);
        assert((a + b).skip(1) =~= a.skip(1) + b);
        assert(handed_out(state, a + b) =~= handed_out(state, a) + handed_out(
            state_after(state, a),
            b,
        ));
    }
}

/// Requests are seen one for one, each as a send or an edit of what it holds.
pub proof fn law_requests_are_seen_one_for_one(requests: Seq<Outbound>)
    ensures
        views(requests).len() == requests.len(),
        forall|i: int|
            0 <= i < requests.len() ==> match requests[i] {
                Outbound::Send(request) => #[trigger] views(requests)[i] == OutboundView::Send(
                    request@,
                ),
                Outbound::Edit(request) => views(requests)[i] == OutboundView::Edit(request@),
            },
{
}

} // verus!
