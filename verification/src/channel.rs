//! Posting to channels and to topics of groups.

use vstd::prelude::*;

use crate::decimal;
use crate::decimal::push_decimal;
use crate::delivery;
use crate::delivery::{Delivery, Outbound, OutboundView};
use crate::filter;
use crate::filter::format_for_telegram;
use crate::message_laws;
use crate::protocol;
use crate::protocol::{ChatMember, SendMessage, SendMessageView, TelegramClientError};
use crate::text;
use crate::text::same_text;
use crate::topic;
use crate::topic::thread_id_for_send;

verus! {

/// Why the bot cannot post to a channel.
#[derive(Debug)]
pub enum ChannelError {
    /// It is no administrator there.
    NotAdmin { chat_id: i64, status: String },
    /// It is an administrator there but may not post.
    CannotPost { chat_id: i64 },
    /// The Bot API did not say.
    Api(TelegramClientError),
}

impl From<TelegramClientError> for ChannelError {
    fn from(error: TelegramClientError) -> (converted: Self) {
        ChannelError::Api(error)
    }
}

impl vstd::std_specs::convert::FromSpecImpl<TelegramClientError> for ChannelError {
    open spec fn obeys_from_spec() -> bool {
        true
    }

    open spec fn from_spec(error: TelegramClientError) -> Self {
        ChannelError::Api(error)
    }
}

/// The error in words.
pub open spec fn description(error: ChannelError) -> Seq<char> {
    match error {
        ChannelError::NotAdmin { chat_id, status } => "bot is not an admin of chat "@
            + decimal::decimal(chat_id as int) + " (membership: "@ + status@
            + ") — add it as an admin with post rights"@,
        ChannelError::CannotPost { chat_id } => "bot is an admin of chat "@ + decimal::decimal(
            chat_id as int,
        ) + " but lacks the 'post messages' right"@,
        ChannelError::Api(error) => error@,
    }
}

impl ChannelError {
    /// The error in words.
    pub fn describe(&self) -> (words: String)
        ensures
            words@ == description(*self),
    {
        let mut words = String::new();
        match self {
            ChannelError::NotAdmin { chat_id, status } => {
                words.append("bot is not an admin of chat ");
                push_decimal(&mut words, *chat_id);
                words.append(" (membership: ");
                words.append(status.as_str());
                words.append(") — add it as an admin with post rights");
            },
            ChannelError::CannotPost { chat_id } => {
                words.append("bot is an admin of chat ");
                push_decimal(&mut words, *chat_id);
                words.append(" but lacks the 'post messages' right");
            },
            ChannelError::Api(error) => {
                words.append(error.message.as_str());
            },
        }
        assert(words@ =~= description(*self));
        words
    }
}

/// `member` created the chat.
pub open spec fn is_creator(member: ChatMember) -> bool {
    member.status@ == "creator"@
}

/// `member` is an administrator of the chat, but not its creator.
pub open spec fn is_administrator(member: ChatMember) -> bool {
    !is_creator(member) && member.status@ == "administrator"@
}

/// `member` may post to the chat.
pub open spec fn may_post(member: ChatMember) -> bool {
    is_creator(member) || (is_administrator(member) && member.can_post_messages == Some(true))
}

/// `outcome` says whether `member` may post to the chat `chat_id`, and if not, why.
pub open spec fn tells_membership(
    outcome: Result<(), ChannelError>,
    member: ChatMember,
    chat_id: i64,
) -> bool {
    match outcome {
        Ok(()) => may_post(member),
        Err(ChannelError::CannotPost { chat_id: chat }) => chat == chat_id && is_administrator(
            member,
        ) && !may_post(member),
        Err(ChannelError::NotAdmin { chat_id: chat, status }) => chat == chat_id && status@
            == member.status@ && !is_creator(member) && !is_administrator(member),
        Err(ChannelError::Api(_)) => false,
    }
}

/// Whether `member`, the bot itself, may post to the chat `chat_id`.
pub fn classify_membership(member: &ChatMember, chat_id: i64) -> (outcome: Result<
    (),
    ChannelError,
>)
    ensures
        tells_membership(outcome, *member, chat_id),
{
    if same_text(member.status.as_str(), "creator") {
        return Ok(());
    }
    if same_text(member.status.as_str(), "administrator") {
        return if member.can_post_messages.unwrap_or(false) {
            Ok(())
        } else {
            Err(ChannelError::CannotPost { chat_id })
        };
    }
    Err(ChannelError::NotAdmin { chat_id, status: member.status.clone() })
}

/// Whether the bot may post to the channel `channel_id`, from what the Bot API
/// replied when it was asked for the bot's membership.
pub fn probe_admin(
    reply: Result<ChatMember, TelegramClientError>,
    channel_id: i64,
) -> (outcome: Result<(), ChannelError>)
    ensures
        match reply {
            Ok(member) => tells_membership(outcome, member, channel_id),
            Err(error) => outcome == Err::<(), ChannelError>(ChannelError::Api(error)),
        },
{
    match reply {
        Ok(member) => classify_membership(&member, channel_id),
        Err(error) => Err(ChannelError::from(error)),
    }
}

/// The requests that carry `body` to `topic` of the chat `chat_id`.
pub open spec fn topic_messages(
    chat_id: i64,
    topic: Option<i64>,
    body: Seq<char>,
    ceiling: u32,
) -> Seq<SendMessageView> {
    filter::messages(body, ceiling).map_values(
        |message: Seq<char>|
            protocol::html_message(chat_id, message, topic::send_thread(topic)),
    )
}

/// The request to send `message` to the thread `thread` of the chat `chat_id`.
pub fn thread_message(chat_id: i64, message: String, thread: Option<i64>) -> (request: SendMessage)
    ensures
        request@ == protocol::html_message(chat_id, message@, thread),
{
    let mut request = SendMessage::text(chat_id, message);
    request.message_thread_id = thread;
    request
}

/// The requests that carry `body` to `topic` of the chat `chat_id`, one for each message.
pub fn build_topic_messages(
    chat_id: i64,
    topic: Option<i64>,
    body: &str,
    ceiling: u32,
) -> (requests: Vec<SendMessage>)
    ensures
        requests@.map_values(|request: SendMessage| request@) == topic_messages(
            chat_id,
            topic,
            body@,
            ceiling,
        ),
{
    let thread = thread_id_for_send(topic);
    let messages = format_for_telegram(body, ceiling);
    let mut requests: Vec<SendMessage> = Vec::new();
    for i in 0..messages.len()
        invariant
            thread == topic::send_thread(topic),
            text::texts(messages@) == filter::messages(body@, ceiling),
            requests@.len() == i,
            forall|j: int|
                0 <= j < i ==> (#[trigger] requests@[j])@ == protocol::html_message(
                    chat_id,
                    text::texts(messages@)[j],
                    thread,
                ),
    {
        assert(text::texts(messages@)[i as int] == messages@[i as int]@);
        requests.push(thread_message(chat_id, messages[i].clone(), thread));
    }
    assert(requests@.map_values(|request: SendMessage| request@) =~= topic_messages(
        chat_id,
        topic,
        body@,
        ceiling,
    ));
    requests
}

/// The delivery that carries `body` to `topic` of the chat `chat_id`.
pub fn send_to_topic(
    chat_id: i64,
    topic: Option<i64>,
    body: &str,
    ceiling: u32,
) -> (delivery: Delivery)
    ensures
        delivery@ == delivery::fresh(
            topic_messages(chat_id, topic, body@, ceiling).map_values(
                |request: SendMessageView| OutboundView::Send(request),
            ),
        ),
{
    let ghost expected = topic_messages(chat_id, topic, body@, ceiling);
    let mut messages = build_topic_messages(chat_id, topic, body, ceiling);
    let ghost all = messages@;
    let mut requests: Vec<Outbound> = Vec::new();
    while messages.len() > 0
        invariant
            requests@.len() + messages@.len() == all.len(),
            messages@ == all.skip(requests@.len() as int),
            forall|j: int|
                0 <= j < requests@.len() ==> #[trigger] requests@[j] == Outbound::Send(all[j]),
        decreases messages@.len(),
    {
        let message = messages.remove(0);
        requests.push(Outbound::Send(message));
    }
    proof {
        assert forall|j: int| 0 <= j < all.len() implies expected[j] == (#[trigger] all[j])@ by {
            assert(all.map_values(|request: SendMessage| request@)[j] == all[j]@);
        }
        assert(delivery::views(requests@) =~= expected.map_values(
            |request: SendMessageView| OutboundView::Send(request),
        ));
    }
    Delivery::new(requests)
}

/// Each of the requests goes to the chat and is well formed.
pub proof fn law_topic_messages_are_well_formed(
    chat_id: i64,
    topic: Option<i64>,
    body: Seq<char>,
    ceiling: u32,
)
    ensures
        forall|i: int|
            0 <= i < topic_messages(chat_id, topic, body, ceiling).len() ==> {
                let request = #[trigger] topic_messages(chat_id, topic, body, ceiling)[i];
                request.chat_id == chat_id && delivery::is_well_formed(OutboundView::Send(request))
            },
{
    message_laws::law_each_message_is_well_formed(body, ceiling);
    let all = topic_messages(chat_id, topic, body, ceiling);
    assert forall|i: int| 0 <= i < all.len() implies {
        let request = #[trigger] all[i];
        request.chat_id == chat_id && delivery::is_well_formed(OutboundView::Send(request))
    } by {
        assert(all[i].text == filter::messages(body, ceiling)[i]);
    }
}

/// The body is carried whole and in order: there is one request for each of its
/// messages, with that message as its text.
pub proof fn law_topic_messages_carry_the_messages(
    chat_id: i64,
    topic: Option<i64>,
    body: Seq<char>,
    ceiling: u32,
)
    ensures
        topic_messages(chat_id, topic, body, ceiling).len() == filter::messages(
            body,
            ceiling,
        ).len(),
        forall|i: int|
            0 <= i < topic_messages(chat_id, topic, body, ceiling).len() ==> (
            #[trigger] topic_messages(chat_id, topic, body, ceiling)[i]).text == filter::messages(
                body,
                ceiling,
            )[i],
{
}

/// Each of the requests goes to the chat and to the thread of the topic: the
/// thread that the topic's id names, and none where there is no topic or it is the
/// general one.
pub proof fn law_topic_messages_go_to_the_topic(
    chat_id: i64,
    topic: Option<i64>,
    body: Seq<char>,
    ceiling: u32,
)
    ensures
        forall|i: int|
            0 <= i < topic_messages(chat_id, topic, body, ceiling).len() ==> {
                let request = #[trigger] topic_messages(chat_id, topic, body, ceiling)[i];
                &&& request.chat_id == chat_id
                &&& match topic {
                    Some(tid) => request.message_thread_id == if tid == topic::GENERAL_TOPIC_ID {
                        None
                    } else {
                        Some(tid)
                    },
                    None => request.message_thread_id is None,
                }
            },
{
}

/// A creator may post whatever else is said, an administrator exactly with the
/// right to, and anyone else may not; who may not is told why and where.
pub proof fn law_membership_decides(
    outcome: Result<(), ChannelError>,
    member: ChatMember,
    chat_id: i64,
)
    requires
        tells_membership(outcome, member, chat_id),
    ensures
        member.status@ == "creator"@ ==> outcome is Ok,
        member.status@ == "administrator"@ && member.can_post_messages == Some(true)
            ==> outcome is Ok,
        member.status@ == "administrator"@ && member.can_post_messages != Some(true) ==> (
        outcome matches Err(ChannelError::CannotPost { chat_id: chat }) && chat == chat_id),
        member.status@ != "creator"@ && member.status@ != "administrator"@ ==> (
        outcome matches Err(ChannelError::NotAdmin { chat_id: chat, status }) && chat == chat_id
            && status@ == member.status@),
{
    reveal_strlit("creator");
    reveal_strlit("administrator");
    assert("creator"@.len() != "administrator"@.len());
}

/// The words of an error name the chat, and the membership where that is the
/// trouble; what the Bot API said is passed on as it is.
pub proof fn law_descriptions_name_the_trouble(
    chat_id: i64,
    status: String,
    error: TelegramClientError,
)
    ensures
        description(ChannelError::NotAdmin { chat_id, status }) == "bot is not an admin of chat "@
            + decimal::decimal(chat_id as int) + " (membership: "@ + status@
            + ") — add it as an admin with post rights"@,
        description(ChannelError::CannotPost { chat_id }) == "bot is an admin of chat "@
            + decimal::decimal(chat_id as int) + " but lacks the 'post messages' right"@,
        description(ChannelError::Api(error)) == error.message@,
{
}

} // verus!
