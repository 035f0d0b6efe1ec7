//! Showing an answer while it is still being written.
//!
//! The first preview is sent as a message of its own, and later ones replace its
//! text. Telegram throttles edits of one message, so they are kept apart in time,
//! and a preview that would change nothing is left out.

use vstd::prelude::*;

use crate::channel;
use crate::channel::thread_message;
use crate::delivery;
use crate::delivery::{Delivery, Outbound, OutboundView};
use crate::filter;
use crate::filter::{format_for_telegram, format_preview};
use crate::message_laws;
use crate::protocol;
use crate::protocol::{EditMessageText, SendMessageView, TelegramClientError, PARSE_MODE_HTML};
use crate::text;
use crate::text::same_text;
use crate::topic;
use crate::topic::thread_id_for_send;

verus! {

/// The least time between two edits of the preview, in nanoseconds.
pub const MIN_EDIT_INTERVAL: u128 = 1_200_000_000;

/// Decides when a new preview is due. Times are in nanoseconds since some moment
/// that stays the same.
pub struct PreviewCoalescer {
    last_rendered: String,
    last_edit: Option<u128>,
    min_interval: u128,
    ceiling: u32,
}

/// The state of a coalescer.
pub struct CoalescerView {
    /// The preview that was shown last.
    pub last_rendered: Seq<char>,
    /// When a preview was last due.
    pub last_edit: Option<u128>,
    /// The least time between two previews that are due.
    pub min_interval: u128,
    /// How many characters a preview may have.
    pub ceiling: u32,
}

impl View for PreviewCoalescer {
    type V = CoalescerView;

    closed spec fn view(&self) -> CoalescerView {
        CoalescerView {
            last_rendered: self.last_rendered@,
            last_edit: self.last_edit,
            min_interval: self.min_interval,
            ceiling: self.ceiling,
        }
    }
}

/// The time from `since` to `now`: none where `now` is not later.
pub open spec fn elapsed(now: u128, since: u128) -> int {
    if now > since {
        now - since
    } else {
        0
    }
}

/// At `now` the interval since the last preview that was due is over.
pub open spec fn is_ready(state: CoalescerView, now: u128) -> bool {
    match state.last_edit {
        Some(since) => elapsed(now, since) >= state.min_interval,
        None => true,
    }
}

/// The state after `full_text` was offered at `now`, and the preview that is due.
pub open spec fn due_step(state: CoalescerView, full_text: Seq<char>, now: u128) -> (
    CoalescerView,
    Option<Seq<char>>,
) {
    let rendered = filter::preview(full_text, state.ceiling);
    if rendered != state.last_rendered && is_ready(state, now) {
        (
            CoalescerView { last_rendered: rendered, last_edit: Some(now), ..state },
            Some(rendered),
        )
    } else {
        (state, None)
    }
}

/// The state after `full_text` was offered whatever the time, and the preview to show.
pub open spec fn flush_step(state: CoalescerView, full_text: Seq<char>) -> (
    CoalescerView,
    Option<Seq<char>>,
) {
    let rendered = filter::preview(full_text, state.ceiling);
    if rendered != state.last_rendered {
        (CoalescerView { last_rendered: rendered, ..state }, Some(rendered))
    } else {
        (state, None)
    }
}

impl PreviewCoalescer {
    /// A coalescer that has shown nothing yet.
    pub fn new(ceiling: u32) -> (coalescer: Self)
        ensures
            coalescer@ == (CoalescerView {
                last_rendered: Seq::empty(),
                last_edit: None,
                min_interval: MIN_EDIT_INTERVAL,
                ceiling,
            }),
    {
        PreviewCoalescer {
            last_rendered: String::new(),
            last_edit: None,
            min_interval: MIN_EDIT_INTERVAL,
            ceiling,
        }
    }

    /// The same coalescer with `interval` nanoseconds as its interval.
    pub fn with_interval(self, interval: u128) -> (coalescer: Self)
        ensures
            coalescer@ == (CoalescerView { min_interval: interval, ..self@ }),
    {
        PreviewCoalescer { min_interval: interval, ..self }
    }

    /// The preview of `full_text`, where it is not the one that was shown last and
    /// the interval since the last one that was due is over at `now`.
    pub fn due(&mut self, full_text: &str, now: u128) -> (shown: Option<String>)
        ensures
            final(self)@ == due_step(old(self)@, full_text@, now).0,
            text::optional_text(shown) == due_step(old(self)@, full_text@, now).1,
    {
        let rendered = format_preview(full_text, self.ceiling);
        if same_text(rendered.as_str(), self.last_rendered.as_str()) {
            return None;
        }
        let ready = match self.last_edit {
            None => true,
            Some(since) => {
                let passed: u128 = if now > since {
                    now - since
                } else {
                    0
                };
                passed >= self.min_interval
            },
        };
        if !ready {
            return None;
        }
        self.last_edit = Some(now);
        self.last_rendered = rendered.clone();
        Some(rendered)
    }

    /// The preview of `full_text`, where it is not the one that was shown last.
    pub fn flush(&mut self, full_text: &str) -> (shown: Option<String>)
        ensures
            final(self)@ == flush_step(old(self)@, full_text@).0,
            text::optional_text(shown) == flush_step(old(self)@, full_text@).1,
    {
        let rendered = format_preview(full_text, self.ceiling);
        if same_text(rendered.as_str(), self.last_rendered.as_str()) {
            return None;
        }
        self.last_rendered = rendered.clone();
        Some(rendered)
    }
}

/// What takes the growing text of an answer and says what to do about it.
pub trait PreviewSink {
    /// The request that shows `full_text`, all of the answer so far, at `now`;
    /// `None` where nothing is to be done.
    fn update(&mut self, full_text: &str, now: u128) -> (request: Option<Outbound>);
}

/// The preview of one answer in one topic: a message that is edited in place and
/// in the end replaced by the answer.
pub struct TelegramPreview {
    chat_id: i64,
    topic: Option<i64>,
    ceiling: u32,
    coalescer: PreviewCoalescer,
    message_id: Option<i64>,
}

/// The state of a preview.
pub struct PreviewView {
    /// The chat that the answer goes to.
    pub chat_id: i64,
    /// The topic that the answer goes to.
    pub topic: Option<i64>,
    /// How many characters a message may have.
    pub ceiling: u32,
    /// What was shown and when.
    pub coalescer: CoalescerView,
    /// The message that shows the preview, once there is one.
    pub message_id: Option<i64>,
}

impl View for TelegramPreview {
    type V = PreviewView;

    closed spec fn view(&self) -> PreviewView {
        PreviewView {
            chat_id: self.chat_id,
            topic: self.topic,
            ceiling: self.ceiling,
            coalescer: self.coalescer@,
            message_id: self.message_id,
        }
    }
}

/// The request that shows `preview`: an edit where there is a message, else a new message.
pub open spec fn showing(state: PreviewView, preview: Seq<char>) -> OutboundView {
    match state.message_id {
        Some(id) => OutboundView::Edit(protocol::html_edit(state.chat_id, id, preview)),
        None => OutboundView::Send(
            protocol::html_message(state.chat_id, preview, topic::send_thread(state.topic)),
        ),
    }
}

/// The requests that put `final_text` in the place of the preview: its first
/// message replaces the preview's where there is one, and the others are sent.
pub open spec fn finishing(state: PreviewView, final_text: Seq<char>) -> Seq<OutboundView> {
    let messages = filter::messages(final_text, state.ceiling);
    Seq::new(
        messages.len(),
        |i: int|
            if i == 0 {
                showing(state, messages[i])
            } else {
                OutboundView::Send(
                    protocol::html_message(
                        state.chat_id,
                        messages[i],
                        topic::send_thread(state.topic),
                    ),
                )
            },
    )
}

/// The state after `full_text` was offered at `now`, and the request that shows it.
pub open spec fn update_step(state: PreviewView, full_text: Seq<char>, now: u128) -> (
    PreviewView,
    Option<OutboundView>,
) {
    let (coalescer, due) = due_step(state.coalescer, full_text, now);
    (
        PreviewView { coalescer, ..state },
        match due {
            Some(preview) => Some(showing(state, preview)),
            None => None,
        },
    )
}

/// The state after the request to send the preview was answered: a message that
/// was sent is the one to edit from then on.
pub open spec fn answer_step(
    state: PreviewView,
    reply: Result<i64, TelegramClientError>,
) -> PreviewView {
    match reply {
        Ok(id) => PreviewView { message_id: Some(id), ..state },
        Err(_) => state,
    }
}

impl PreviewSink for TelegramPreview {
    fn update(&mut self, full_text: &str, now: u128) -> (request: Option<Outbound>)
        ensures
            final(self)@ == update_step(old(self)@, full_text@, now).0,
            match request {
                Some(request) => update_step(old(self)@, full_text@, now).1 == Some(request@),
                None => update_step(old(self)@, full_text@, now).1 is None,
            },
    {
        match self.coalescer.due(full_text, now) {
            Some(preview) => Some(self.show(preview)),
            None => None,
        }
    }
}

impl TelegramPreview {
    /// The preview of an answer in `topic` of the chat `chat_id`, before anything was shown.
    pub fn new(chat_id: i64, topic: Option<i64>, ceiling: u32) -> (preview: Self)
        ensures
            preview@ == (PreviewView {
                chat_id,
                topic,
                ceiling,
                coalescer: CoalescerView {
                    last_rendered: Seq::empty(),
                    last_edit: None,
                    min_interval: MIN_EDIT_INTERVAL,
                    ceiling,
                },
                message_id: None,
            }),
    {
        TelegramPreview {
            chat_id,
            topic,
            ceiling,
            coalescer: PreviewCoalescer::new(ceiling),
            message_id: None,
        }
    }

    /// The message that shows the preview, once there is one.
    pub fn current_message_id(&self) -> (id: Option<i64>)
        ensures
            id == self@.message_id,
    {
        self.message_id
    }

    /// Takes note of the answer to the request to send the preview: the id of the
    /// message, or why it was not sent.
    pub fn answered(&mut self, reply: Result<i64, TelegramClientError>)
        ensures
            final(self)@ == answer_step(old(self)@, reply),
    {
        match reply {
            Ok(id) => {
                self.message_id = Some(id);
            },
            Err(_) => {},
        }
    }

    /// The request that shows `message`.
    fn show(&self, message: String) -> (request: Outbound)
        ensures
            request@ == showing(self@, message@),
    {
        match self.current_message_id() {
            Some(id) => {
                let mut edit = EditMessageText::new(self.chat_id, id, message);
                edit.parse_mode = Some(PARSE_MODE_HTML.to_owned());
                Outbound::Edit(edit)
            },
            None => Outbound::Send(
                thread_message(self.chat_id, message, thread_id_for_send(self.topic)),
            ),
        }
    }

    /// The delivery that puts `final_text` in the place of the preview. Where there
    /// is no text, what the preview shows is left as it is.
    pub fn finish(&self, final_text: &str) -> (delivery: Delivery)
        ensures
            delivery@ == delivery::fresh(finishing(self@, final_text@)),
    {
        let messages = format_for_telegram(final_text, self.ceiling);
        let thread = thread_id_for_send(self.topic);
        let mut requests: Vec<Outbound> = Vec::new();
        for i in 0..messages.len()
            invariant
                thread == topic::send_thread(self@.topic),
                text::texts(messages@) == filter::messages(final_text@, self@.ceiling),
                requests@.len() == i,
                forall|j: int|
                    0 <= j < i ==> (#[trigger] requests@[j])@ == finishing(self@, final_text@)[j],
        {
            assert(text::texts(messages@)[i as int] == messages@[i as int]@);
            let message = messages[i].clone();
            let request = if i == 0 {
                self.show(message)
            } else {
                Outbound::Send(thread_message(self.chat_id, message, thread))
            };
            requests.push(request);
        }
        assert(delivery::views(requests@) =~= finishing(self@, final_text@));
        Delivery::new(requests)
    }
}

/// A call of a coalescer.
pub enum Call {
    /// Text is offered at a time.
    Due { full_text: Seq<char>, now: u128 },
    /// Text is offered whatever the time.
    Flush { full_text: Seq<char> },
}

/// The state after `call`, and the preview that comes of it.
pub open spec fn call_step(state: CoalescerView, call: Call) -> (CoalescerView, Option<Seq<char>>) {
    match call {
        Call::Due { full_text, now } => due_step(state, full_text, now),
        Call::Flush { full_text } => flush_step(state, full_text),
    }
}

/// The preview that comes of the call at `i`.
pub open spec fn preview_of_call(state: CoalescerView, calls: Seq<Call>, i: int) -> Option<
    Seq<char>,
>
    decreases calls.len(),
{
    if calls.len() == 0 || i < 0 {
        None
    } else if i == 0 {
        call_step(state, calls[0]).1
    } else {
        preview_of_call(call_step(state, calls[0]).0, calls.skip(1), i - 1)
    }
}

/// However often text is offered and whatever the clock does, two previews that
/// are due are at least the interval apart, and the first is that far behind the
/// last one before.
pub proof fn law_due_previews_are_apart(state: CoalescerView, calls: Seq<Call>)
    ensures
        forall|j: int|
            0 <= j < calls.len() && calls[j] is Due && state.last_edit is Some && (
            #[trigger] preview_of_call(state, calls, j)) is Some ==> elapsed(
                calls[j]->now,
                state.last_edit->0,
            ) >= state.min_interval,
        forall|i: int, j: int|
            0 <= i < j < calls.len() && calls[i] is Due && calls[j] is Due && (
            #[trigger] preview_of_call(state, calls, i)) is Some && (#[trigger] preview_of_call(
                state,
                calls,
                j,
            )) is Some ==> elapsed(calls[j]->now, calls[i]->now) >= state.min_interval,
    decreases calls.len(),
{
    if calls.len() > 0 {
        let rest = calls.skip(1);
        let next = call_step(state, calls[0]).0;
        law_due_previews_are_apart(next, rest);
        assert(next.min_interval == state.min_interval);
        assert forall|j: int|
            0 <= j < calls.len() && calls[j] is Due && state.last_edit is Some && (
            #[trigger] preview_of_call(state, calls, j)) is Some implies elapsed(
            calls[j]->now,
            state.last_edit->0,
        ) >= state.min_interval by {
            if j > 0 {
                assert(rest[j - 1] == calls[j]);
                assert(preview_of_call(next, rest, j - 1) is Some);
            }
        }
        assert forall|i: int, j: int|
            0 <= i < j < calls.len() && calls[i] is Due && calls[j] is Due && (
            #[trigger] preview_of_call(state, calls, i)) is Some && (#[trigger] preview_of_call(
                state,
                calls,
                j,
            )) is Some implies elapsed(calls[j]->now, calls[i]->now) >= state.min_interval by {
            assert(rest[j - 1] == calls[j]);
            assert(preview_of_call(next, rest, j - 1) is Some);
            if i > 0 {
                assert(rest[i - 1] == calls[i]);
                assert(preview_of_call(next, rest, i - 1) is Some);
            } else {
                assert(next.last_edit == Some(calls[0]->now));
            }
        }
    }
}

/// The first preview that comes of some calls differs from what was shown before.
pub proof fn law_first_preview_changes(state: CoalescerView, calls: Seq<Call>, j: int)
    requires
        0 <= j < calls.len(),
        preview_of_call(state, calls, j) is Some,
        forall|k: int| 0 <= k < j ==> (#[trigger] preview_of_call(state, calls, k)) is None,
    ensures
        preview_of_call(state, calls, j) != Some(state.last_rendered),
    decreases calls.len(),
{
    if j > 0 {
        let rest = calls.skip(1);
        assert(preview_of_call(state, calls, 0) is None);
        assert(call_step(state, calls[0]).0 == state);
        assert forall|k: int| 0 <= k < j - 1 implies (#[trigger] preview_of_call(
            state,
            rest,
            k,
        )) is None by {
            assert(preview_of_call(state, calls, k + 1) is None);
        }
        law_first_preview_changes(state, rest, j - 1);
    }
}

/// No preview repeats the one before it.
pub proof fn law_previews_change(state: CoalescerView, calls: Seq<Call>, i: int, j: int)
    requires
        0 <= i < j < calls.len(),
        preview_of_call(state, calls, i) is Some,
        preview_of_call(state, calls, j) is Some,
        forall|k: int| i < k < j ==> (#[trigger] preview_of_call(state, calls, k)) is None,
    ensures
        preview_of_call(state, calls, i) != preview_of_call(state, calls, j),
    decreases calls.len(),
{
    let rest = calls.skip(1);
    let next = call_step(state, calls[0]).0;
    assert forall|k: int| 0 <= k && i - 1 < k < j - 1 implies (#[trigger] preview_of_call(
        next,
        rest,
        k,
    )) is None by {
        assert(preview_of_call(state, calls, k + 1) is None);
    }
    if i > 0 {
        law_previews_change(next, rest, i - 1, j - 1);
    } else {
        law_first_preview_changes(next, rest, j - 1);
    }
}

/// Text of which nothing is to be read is never due as a first preview.
pub proof fn law_nothing_is_no_first_preview(
    ceiling: u32,
    interval: u128,
    full_text: Seq<char>,
    now: u128,
)
    requires
        filter::messages(full_text, ceiling).len() == 0,
    ensures
        ({
            let state = CoalescerView {
                last_rendered: Seq::empty(),
                last_edit: None,
                min_interval: interval,
                ceiling,
            };
            &&& due_step(state, full_text, now) == (state, None::<Seq<char>>)
            &&& flush_step(state, full_text) == (state, None::<Seq<char>>)
        }),
{
    message_laws::law_preview_is_empty_without_messages(full_text, ceiling);
    assert(filter::preview(full_text, ceiling) =~= Seq::empty());
}

/// What happens to a preview.
pub enum PreviewEvent {
    /// Text is offered at a time.
    Update { full_text: Seq<char>, now: u128 },
    /// A request to send the preview is answered.
    Answered { reply: Result<i64, TelegramClientError> },
}

/// The state after `event`, and the request that comes of it.
pub open spec fn preview_step(state: PreviewView, event: PreviewEvent) -> (
    PreviewView,
    Option<OutboundView>,
) {
    match event {
        PreviewEvent::Update { full_text, now } => update_step(state, full_text, now),
        PreviewEvent::Answered { reply } => (answer_step(state, reply), None),
    }
}

/// The request that comes of the event at `i`.
pub open spec fn request_of_event(
    state: PreviewView,
    events: Seq<PreviewEvent>,
    i: int,
) -> Option<OutboundView>
    decreases events.len(),
{
    if events.len() == 0 || i < 0 {
        None
    } else if i == 0 {
        preview_step(state, events[0]).1
    } else {
        request_of_event(preview_step(state, events[0]).0, events.skip(1), i - 1)
    }
}

/// `event` reports that the preview was sent as a message, and as which.
pub open spec fn reported_id(event: PreviewEvent) -> Option<i64> {
    match event {
        PreviewEvent::Answered { reply: Ok(id) } => Some(id),
        _ => None,
    }
}

/// `request` edits the message `id` of the chat.
pub open spec fn edits_message(request: OutboundView, chat_id: i64, id: i64) -> bool {
    request matches OutboundView::Edit(edit) && edit == protocol::html_edit(chat_id, id, edit.text)
}

/// `request` sends a new message to the topic of the chat.
pub open spec fn sends_message(request: OutboundView, chat_id: i64, topic: Option<i64>) -> bool {
    request matches OutboundView::Send(message) && message == protocol::html_message(
        chat_id,
        message.text,
        topic::send_thread(topic),
    )
}

/// As long as no message is reported, each request sends a new one to the topic.
pub proof fn law_preview_is_sent_until_it_has_a_message(
    state: PreviewView,
    events: Seq<PreviewEvent>,
    j: int,
)
    requires
        0 <= j < events.len(),
        state.message_id is None,
        forall|k: int| 0 <= k < j ==> reported_id(#[trigger] events[k]) is None,
    ensures
        request_of_event(state, events, j) matches Some(request) ==> sends_message(
            request,
            state.chat_id,
            state.topic,
        ),
    decreases events.len(),
{
    if j > 0 {
        let rest = events.skip(1);
        assert(reported_id(events[0]) is None);
        assert forall|k: int| 0 <= k < j - 1 implies reported_id(#[trigger] rest[k]) is None by {
            assert(rest[k] == events[k + 1]);
        }
        law_preview_is_sent_until_it_has_a_message(
            preview_step(state, events[0]).0,
            rest,
            j - 1,
        );
    }
}

/// Once a preview has a message, each later request edits that message, as long as
/// no other is reported.
pub proof fn law_preview_is_edited_in_place(
    state: PreviewView,
    events: Seq<PreviewEvent>,
    id: i64,
    j: int,
)
    requires
        0 <= j < events.len(),
        state.message_id == Some(id),
        forall|k: int|
            0 <= k < j ==> reported_id(#[trigger] events[k]) is None || reported_id(events[k])
                == Some(id),
    ensures
        request_of_event(state, events, j) matches Some(request) ==> edits_message(
            request,
            state.chat_id,
            id,
        ),
    decreases events.len(),
{
    if j > 0 {
        let rest = events.skip(1);
        assert(reported_id(events[0]) is None || reported_id(events[0]) == Some(id));
        assert forall|k: int| 0 <= k < j - 1 implies reported_id(#[trigger] rest[k]) is None
            || reported_id(rest[k]) == Some(id) by {
            assert(rest[k] == events[k + 1]);
        }
        law_preview_is_edited_in_place(preview_step(state, events[0]).0, rest, id, j - 1);
    }
}

/// Each request to send the preview is answered before the next event, and nothing
/// else is answered; `waiting` tells whether an answer is still to come.
pub open spec fn is_orderly(state: PreviewView, events: Seq<PreviewEvent>, waiting: bool) -> bool
    decreases events.len(),
{
    events.len() == 0 || {
        let (next, request) = preview_step(state, events[0]);
        &&& events[0] is Answered <==> waiting
        &&& is_orderly(
            next,
            events.skip(1),
            request matches Some(request) && request is Send,
        )
    }
}

/// Where requests are answered in turn, a preview that has a message is never sent
/// again: from then on each request edits that message.
pub proof fn law_preview_has_one_message(
    state: PreviewView,
    events: Seq<PreviewEvent>,
    id: i64,
    j: int,
)
    requires
        0 <= j < events.len(),
        state.message_id == Some(id),
        is_orderly(state, events, false),
    ensures
        request_of_event(state, events, j) matches Some(request) ==> edits_message(
            request,
            state.chat_id,
            id,
        ),
    decreases events.len(),
{
    if j > 0 {
        law_preview_has_one_message(preview_step(state, events[0]).0, events.skip(1), id, j - 1);
    }
}

/// To finish is to deliver all messages of the answer, in order.
pub proof fn law_finishing_delivers_the_answer(state: PreviewView, final_text: Seq<char>)
    ensures
        finishing(state, final_text).map_values(
            |request: OutboundView| delivery::message_text(request),
        ) == filter::messages(final_text, state.ceiling),
{
    assert(finishing(state, final_text).map_values(
        |request: OutboundView| delivery::message_text(request),
    ) =~= filter::messages(final_text, state.ceiling));
}

/// Each request that finishes a preview is well formed.
pub proof fn law_finishing_is_well_formed(state: PreviewView, final_text: Seq<char>)
    ensures
        forall|i: int|
            0 <= i < finishing(state, final_text).len() ==> delivery::is_well_formed(
                #[trigger] finishing(state, final_text)[i],
            ),
{
    message_laws::law_each_message_is_well_formed(final_text, state.ceiling);
    let all = finishing(state, final_text);
    assert forall|i: int| 0 <= i < all.len() implies delivery::is_well_formed(
        #[trigger] all[i],
    ) by {
        assert(delivery::message_text(all[i]) == filter::messages(final_text, state.ceiling)[i]);
    }
}

/// Each request that shows a preview is well formed, where there is anything to
/// read in the text so far.
pub proof fn law_previews_are_well_formed(state: PreviewView, full_text: Seq<char>, ceiling: u32)
    requires
        filter::messages(full_text, ceiling).len() > 0,
    ensures
        delivery::is_well_formed(showing(state, filter::preview(full_text, ceiling))),
{
    message_laws::law_preview_is_well_formed(full_text, ceiling);
}

/// The preview's message is the only one that is edited, and it is edited first.
pub proof fn law_finishing_edits_the_preview_only(state: PreviewView, final_text: Seq<char>)
    ensures
        forall|i: int|
            0 <= i < finishing(state, final_text).len() ==> ((#[trigger] finishing(
                state,
                final_text,
            )[i]) is Edit <==> i == 0 && state.message_id is Some),
        finishing(state, final_text).len() > 0 && state.message_id is Some ==> finishing(
            state,
            final_text,
        )[0]->Edit_0.message_id == state.message_id->0,
{
}

/// Where no preview was shown, to finish is to send the answer to its topic.
pub proof fn law_finishing_without_preview_sends(state: PreviewView, final_text: Seq<char>)
    requires
        state.message_id is None,
    ensures
        finishing(state, final_text) == channel::topic_messages(
            state.chat_id,
            state.topic,
            final_text,
            state.ceiling,
        ).map_values(|request: SendMessageView| OutboundView::Send(request)),
{
    assert(finishing(state, final_text) =~= channel::topic_messages(
        state.chat_id,
        state.topic,
        final_text,
        state.ceiling,
    ).map_values(|request: SendMessageView| OutboundView::Send(request)));
}

/// Whether the edit of the preview fails or not, the rest of the answer goes out
/// as long as each send succeeds.
pub proof fn law_a_failed_edit_holds_nothing_back(
    state: PreviewView,
    final_text: Seq<char>,
    events: Seq<delivery::DeliveryEvent>,
)
    requires
        delivery::only_edits_fail(delivery::fresh(finishing(state, final_text)), events),
        events.len() >= finishing(state, final_text).len(),
    ensures
        delivery::handed_out(delivery::fresh(finishing(state, final_text)), events) == finishing(
            state,
            final_text,
        ),
{
    let all = finishing(state, final_text);
    delivery::law_all_goes_out_unless_a_send_fails(delivery::fresh(all), events);
    assert(all.take(all.len() as int) =~= all);
}

/// The text that a call offers.
pub open spec fn offered(call: Call) -> Seq<char> {
    match call {
        Call::Due { full_text, .. } => full_text,
        Call::Flush { full_text } => full_text,
    }
}

/// Text is shown at `now` where its preview differs from the last one and the
/// interval has passed since a preview was last due, or none was due yet; else it
/// is not. An interval of nothing has always passed, even where the clock went back.
pub proof fn law_a_changed_preview_is_due_in_time(
    state: CoalescerView,
    full_text: Seq<char>,
    now: u128,
)
    ensures
        filter::preview(full_text, state.ceiling) == state.last_rendered ==> due_step(
            state,
            full_text,
            now,
        ).1 is None,
        filter::preview(full_text, state.ceiling) != state.last_rendered && state.last_edit is None
            ==> due_step(state, full_text, now).1 == Some(
            filter::preview(full_text, state.ceiling),
        ),
        state.last_edit matches Some(since) ==> (filter::preview(full_text, state.ceiling)
            != state.last_rendered ==> if now >= since + state.min_interval || state.min_interval
            == 0 {
            due_step(state, full_text, now).1 == Some(filter::preview(full_text, state.ceiling))
        } else {
            due_step(state, full_text, now).1 is None
        }),
{
}

/// Whatever the time, text is flushed where its preview differs from the last one,
/// and not where it is the same.
pub proof fn law_a_changed_preview_is_flushed(state: CoalescerView, full_text: Seq<char>)
    ensures
        filter::preview(full_text, state.ceiling) != state.last_rendered ==> flush_step(
            state,
            full_text,
        ).1 == Some(filter::preview(full_text, state.ceiling)),
        filter::preview(full_text, state.ceiling) == state.last_rendered ==> flush_step(
            state,
            full_text,
        ).1 is None,
{
}

/// A coalescer remembers the preview that came last and when one was last due,
/// and keeps its interval and its ceiling. A call that nothing comes of leaves no trace.
pub proof fn law_a_coalescer_remembers_what_it_showed(state: CoalescerView, call: Call)
    ensures
        call_step(state, call).1 is None ==> call_step(state, call).0 == state,
        call_step(state, call).1 matches Some(preview) ==> {
            let next = call_step(state, call).0;
            &&& next.last_rendered == preview
            &&& next.last_edit == if call is Due {
                Some(call->now)
            } else {
                state.last_edit
            }
            &&& next.min_interval == state.min_interval
            &&& next.ceiling == state.ceiling
        },
{
}

/// Whatever was offered before, a preview is that of the text on offer.
pub proof fn law_previews_show_the_text_on_offer(state: CoalescerView, calls: Seq<Call>, j: int)
    requires
        0 <= j < calls.len(),
    ensures
        preview_of_call(state, calls, j) matches Some(preview) ==> preview == filter::preview(
            offered(calls[j]),
            state.ceiling,
        ),
    decreases calls.len(),
{
    if j > 0 {
        law_previews_show_the_text_on_offer(
            call_step(state, calls[0]).0,
            calls.skip(1),
            j - 1,
        );
    }
}

/// Text that differs from what was shown is not held back for ever: offered once the
/// interval since the last preview has passed, or flushed, it is shown.
pub proof fn law_a_change_is_shown_in_the_end(
    state: CoalescerView,
    calls: Seq<Call>,
    i: int,
    j: int,
)
    requires
        0 <= i < j < calls.len(),
        calls[i] is Due,
        preview_of_call(state, calls, i) is Some,
        forall|k: int| i < k < j ==> (#[trigger] preview_of_call(state, calls, k)) is None,
        calls[j] is Due ==> calls[j]->now >= calls[i]->now + state.min_interval,
        filter::preview(offered(calls[j]), state.ceiling) != filter::preview(
            offered(calls[i]),
            state.ceiling,
        ),
    ensures
        preview_of_call(state, calls, j) == Some(
            filter::preview(offered(calls[j]), state.ceiling),
        ),
    decreases calls.len(),
{
    let rest = calls.skip(1);
    let next = call_step(state, calls[0]).0;
    assert forall|k: int| 0 <= k && i - 1 < k < j - 1 implies (#[trigger] preview_of_call(
        next,
        rest,
        k,
    )) is None by {
        assert(preview_of_call(state, calls, k + 1) is None);
    }
    assert(rest[j - 1] == calls[j]);
    if i > 0 {
        assert(rest[i - 1] == calls[i]);
        law_a_change_is_shown_in_the_end(next, rest, i - 1, j - 1);
    } else {
        lemma_quiet_calls_change_nothing(next, rest, j - 1);
    }
}

/// What a call brings, where none before it brought anything, is what it brings alone.
proof fn lemma_quiet_calls_change_nothing(state: CoalescerView, calls: Seq<Call>, j: int)
    requires
        0 <= j < calls.len(),
        forall|k: int| 0 <= k < j ==> (#[trigger] preview_of_call(state, calls, k)) is None,
    ensures
        preview_of_call(state, calls, j) == call_step(state, calls[j]).1,
    decreases calls.len(),
{
    if j > 0 {
        let rest = calls.skip(1);
        assert(preview_of_call(state, calls, 0) is None);
        assert(call_step(state, calls[0]).0 == state);
        assert forall|k: int| 0 <= k < j - 1 implies (#[trigger] preview_of_call(
            state,
            rest,
            k,
        )) is None by {
            assert(preview_of_call(state, calls, k + 1) is None);
        }
        lemma_quiet_calls_change_nothing(state, rest, j - 1);
    }
}

/// What is due is what is requested: there is a request exactly where a preview is
/// due, its text is that preview, and it edits the preview's message where there is
/// one and else sends to the topic. Nothing but what was shown and when changes.
pub proof fn law_an_update_requests_what_is_due(
    state: PreviewView,
    full_text: Seq<char>,
    now: u128,
)
    ensures
        match (due_step(state.coalescer, full_text, now).1, update_step(state, full_text, now).1) {
            (Some(preview), Some(request)) => {
                &&& delivery::message_text(request) == preview
                &&& match state.message_id {
                    Some(id) => edits_message(request, state.chat_id, id),
                    None => sends_message(request, state.chat_id, state.topic),
                }
            },
            (None, None) => true,
            _ => false,
        },
        update_step(state, full_text, now).0.coalescer == due_step(
            state.coalescer,
            full_text,
            now,
        ).0,
        update_step(state, full_text, now).0.chat_id == state.chat_id,
        update_step(state, full_text, now).0.topic == state.topic,
        update_step(state, full_text, now).0.ceiling == state.ceiling,
        update_step(state, full_text, now).0.message_id == state.message_id,
{
}

/// Whatever the state, a message that is reported is the preview's message from
/// then on, and a failure that is reported changes nothing. Neither touches anything
/// else of the preview.
pub proof fn law_a_reported_message_is_taken_over(
    state: PreviewView,
    id: i64,
    error: TelegramClientError,
)
    ensures
        answer_step(state, Ok(id)).message_id == Some(id),
        answer_step(state, Ok(id)).chat_id == state.chat_id,
        answer_step(state, Ok(id)).topic == state.topic,
        answer_step(state, Ok(id)).ceiling == state.ceiling,
        answer_step(state, Ok(id)).coalescer == state.coalescer,
        answer_step(state, Err(error)) == state,
{
}

/// Whatever happened before, each request behind a report of a message edits that
/// message, as long as no other is reported in between.
pub proof fn law_a_reported_message_is_edited(
    state: PreviewView,
    events: Seq<PreviewEvent>,
    id: i64,
    i: int,
    j: int,
)
    requires
        0 <= i < j < events.len(),
        events[i] == (PreviewEvent::Answered { reply: Ok(id) }),
        forall|k: int|
            i < k < j ==> (#[trigger] events[k] is Update || events[k] == (PreviewEvent::Answered {
                reply: Ok(id),
            }) || (events[k] matches PreviewEvent::Answered { reply } && reply is Err)),
    ensures
        request_of_event(state, events, j) matches Some(request) ==> edits_message(
            request,
            state.chat_id,
            id,
        ),
    decreases events.len(),
{
    let rest = events.skip(1);
    let next = preview_step(state, events[0]).0;
    assert(forall|k: int| 0 <= k < rest.len() ==> rest[k] == events[k + 1]);
    if i > 0 {
        law_a_reported_message_is_edited(next, rest, id, i - 1, j - 1);
    } else {
        assert(next.message_id == Some(id));
        assert forall|k: int| 0 <= k < j - 1 implies reported_id(#[trigger] rest[k]) is None
            || reported_id(rest[k]) == Some(id) by {
            assert(events[k + 1] is Update || events[k + 1] == (PreviewEvent::Answered {
                reply: Ok(id),
            }) || (events[k + 1] matches PreviewEvent::Answered { reply } && reply is Err));
        }
        law_preview_is_edited_in_place(next, rest, id, j - 1);
    }
}

/// With and without a preview message, each request that finishes a preview goes to
/// its chat. The first edits the preview's message where there is one; each other
/// is sent to the thread that the topic's id names, and to none where there is no
/// topic or it is the general one.
pub proof fn law_finishing_goes_to_the_topic(state: PreviewView, final_text: Seq<char>)
    ensures
        forall|i: int|
            0 <= i < finishing(state, final_text).len() ==> match #[trigger] finishing(
                state,
                final_text,
            )[i] {
                OutboundView::Edit(edit) => {
                    &&& i == 0
                    &&& edit.chat_id == state.chat_id
                    &&& Some(edit.message_id) == state.message_id
                },
                OutboundView::Send(message) => {
                    &&& i == 0 ==> state.message_id is None
                    &&& message.chat_id == state.chat_id
                    &&& match state.topic {
                        Some(tid) => message.message_thread_id == if tid
                            == topic::GENERAL_TOPIC_ID {
                            None
                        } else {
                            Some(tid)
                        },
                        None => message.message_thread_id is None,
                    }
                },
            },
        forall|i: int|
            0 <= i < finishing(state, final_text).len() && (#[trigger] finishing(
                state,
                final_text,
            )[i]) is Send ==> sends_message(
                finishing(state, final_text)[i],
                state.chat_id,
                state.topic,
            ),
{
}

/// A preview that was sent as the message `id` is finished in that message: where
/// the answer has any text, the first request edits it.
pub proof fn law_finishing_edits_the_reported_message(
    state: PreviewView,
    id: i64,
    final_text: Seq<char>,
)
    requires
        filter::messages(final_text, state.ceiling).len() > 0,
    ensures
        finishing(answer_step(state, Ok(id)), final_text).len() == filter::messages(
            final_text,
            state.ceiling,
        ).len(),
        edits_message(
            finishing(answer_step(state, Ok(id)), final_text)[0],
            state.chat_id,
            id,
        ),
{
}

} // verus!
