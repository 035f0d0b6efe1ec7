//! Forum topics: which one a message belongs to, who answers in it, and how to
//! send to it.

use vstd::prelude::*;

use crate::config;
use crate::config::{TelegramChannelConfig, TelegramConfig};
use crate::decimal;
use crate::decimal::push_decimal;
use crate::text;

verus! {

/// The id of the "General" topic. Messages in it come without a thread id, and
/// Telegram rejects the id where a message is sent.
pub const GENERAL_TOPIC_ID: i64 = 1;

/// The topic of a message that came with this thread id and this flag.
pub open spec fn topic_of(message_thread_id: Option<i64>, is_topic_message: bool) -> Option<i64> {
    if message_thread_id is Some {
        message_thread_id
    } else if is_topic_message {
        Some(GENERAL_TOPIC_ID)
    } else {
        None
    }
}

/// The thread id of a message that is sent to `topic`.
pub open spec fn send_thread(topic: Option<i64>) -> Option<i64> {
    if topic == Some(GENERAL_TOPIC_ID) {
        None
    } else {
        topic
    }
}

/// The name of the conversation in `topic` of the chat `chat_id`.
pub open spec fn key(chat_id: i64, topic: Option<i64>) -> Seq<char> {
    match topic {
        Some(tid) => decimal::decimal(chat_id as int) + seq![':', 't'] + decimal::decimal(
            tid as int,
        ),
        None => decimal::decimal(chat_id as int),
    }
}

/// The channel whose configuration holds in the chat `chat_id`: the channel with
/// that id, or else the channel that is discussed there.
pub open spec fn governing_channel(config: TelegramConfig, chat_id: i64) -> Option<
    TelegramChannelConfig,
> {
    let channels = config.channels.entries();
    let id = decimal::decimal(chat_id as int);
    match config::lookup(channels, id) {
        Some(channel) => Some(channel),
        None => config::linked_channel(channels, id),
    }
}

/// The agent that `channel` names for `topic` itself.
pub open spec fn topic_agent(channel: TelegramChannelConfig, topic: Option<i64>) -> Option<
    Seq<char>,
> {
    match topic {
        Some(tid) => match config::lookup(
            channel.topic_routing.entries(),
            decimal::decimal(tid as int),
        ) {
            Some(route) => text::optional_text(route.agent_id),
            None => None,
        },
        None => None,
    }
}

/// The agent that answers in `topic` of `channel`: the topic's own, or else the channel's.
pub open spec fn channel_agent(channel: TelegramChannelConfig, topic: Option<i64>) -> Option<
    Seq<char>,
> {
    match topic_agent(channel, topic) {
        Some(agent) => Some(agent),
        None => text::optional_text(channel.agent_id),
    }
}

/// The agent that answers in `topic` of the chat `chat_id`.
pub open spec fn agent(config: TelegramConfig, chat_id: i64, topic: Option<i64>) -> Option<
    Seq<char>,
> {
    match governing_channel(config, chat_id) {
        Some(channel) => channel_agent(channel, topic),
        None => None,
    }
}

/// The topic of a message; `None` where it belongs to none. A message that is
/// flagged but has no thread id belongs to the general topic.
pub fn effective_topic_id(message_thread_id: Option<i64>, is_topic_message: bool) -> (topic: Option<
    i64,
>)
    ensures
        topic == topic_of(message_thread_id, is_topic_message),
{
    match message_thread_id {
        Some(tid) => Some(tid),
        None => if is_topic_message {
            Some(GENERAL_TOPIC_ID)
        } else {
            None
        },
    }
}

/// The agent that answers in `topic` of the chat `chat_id`, which may be a
/// channel or the group in which a channel is discussed. `None` where nothing is
/// configured.
pub fn resolve_agent(config: &TelegramConfig, chat_id: i64, topic: Option<i64>) -> (found: Option<
    String,
>)
    ensures
        text::optional_text(found) == agent(*config, chat_id, topic),
{
    let channel = match config.channel(chat_id) {
        Some(channel) => channel,
        None => match config.channel_for_discussion_group(chat_id) {
            Some(channel) => channel,
            None => return None,
        },
    };
    if let Some(tid) = topic {
        if let Some(route) = channel.topic_routing.get(decimal::to_decimal(tid).as_str()) {
            if let Some(agent) = &route.agent_id {
                return Some(agent.clone());
            }
        }
    }
    channel.agent_id.clone()
}

/// The thread id to send with to `topic`: none for the general topic.
pub fn thread_id_for_send(topic: Option<i64>) -> (thread: Option<i64>)
    ensures
        thread == send_thread(topic),
{
    match topic {
        Some(tid) => if tid == GENERAL_TOPIC_ID {
            None
        } else {
            Some(tid)
        },
        None => None,
    }
}

/// The name under which the conversation in `topic` of the chat `chat_id` is kept.
pub fn session_key(chat_id: i64, topic: Option<i64>) -> (name: String)
    ensures
        name@ == key(chat_id, topic),
{
    let mut name = String::new();
    push_decimal(&mut name, chat_id);
    if let Some(tid) = topic {
        name.push(':');
        name.push('t');
        push_decimal(&mut name, tid);
    }
    assert(name@ =~= key(chat_id, topic));
    name
}

/// Two conversations share a name only where chat and topic are the same.
pub proof fn law_session_keys_are_distinct(
    chat_a: i64,
    topic_a: Option<i64>,
    chat_b: i64,
    topic_b: Option<i64>,
)
    requires
        key(chat_a, topic_a) == key(chat_b, topic_b),
    ensures
        chat_a == chat_b,
        topic_a == topic_b,
{
    let name = key(chat_a, topic_a);
    let a = decimal::decimal(chat_a as int);
    let b = decimal::decimal(chat_b as int);
    decimal::lemma_decimal_chars(chat_a as int);
    decimal::lemma_decimal_chars(chat_b as int);
    assert(forall|i: int| 0 <= i < a.len() ==> name[i] == a[i]);
    assert(forall|i: int| 0 <= i < b.len() ==> name[i] == b[i]);
    if topic_a is Some {
        assert(name[a.len() as int] == ':');
        assert(a.len() >= b.len());
    }
    if topic_b is Some {
        assert(name[b.len() as int] == ':');
        assert(b.len() >= a.len());
    }
    assert(a.len() == b.len());
    assert(a =~= b);
    decimal::law_decimal_is_injective(chat_a as int, chat_b as int);
    if let Some(tid_a) = topic_a {
        if let Some(tid_b) = topic_b {
            let from = a.len() + 2;
            assert(name.skip(from as int) =~= decimal::decimal(tid_a as int));
            assert(name.skip(from as int) =~= decimal::decimal(tid_b as int));
            decimal::law_decimal_is_injective(tid_a as int, tid_b as int);
        } else {
            assert(name.len() > b.len());
        }
    } else if topic_b is Some {
        assert(name.len() > a.len());
    }
}

/// The general topic's id is never sent; every other topic is sent to as it is.
pub proof fn law_general_topic_is_never_sent(topic: Option<i64>)
    ensures
        send_thread(topic) != Some(GENERAL_TOPIC_ID),
        topic != Some(GENERAL_TOPIC_ID) ==> send_thread(topic) == topic,
        topic == Some(GENERAL_TOPIC_ID) ==> send_thread(topic) is None,
{
}

/// An answer goes out to the thread that the message came from, with no thread id
/// where the message had none.
pub proof fn law_answers_return_to_their_thread(
    message_thread_id: Option<i64>,
    is_topic_message: bool,
)
    requires
        message_thread_id != Some(GENERAL_TOPIC_ID),
    ensures
        send_thread(topic_of(message_thread_id, is_topic_message)) == message_thread_id,
{
}

/// A comment in a group that is no channel itself is answered as the channel
/// would be that is discussed there.
pub proof fn law_comments_are_answered_like_the_channel(
    config: TelegramConfig,
    channel_id: i64,
    group_id: i64,
    topic: Option<i64>,
)
    requires
        config::lookup(
            config.channels.entries(),
            decimal::decimal(channel_id as int),
        ) is Some,
        config::lookup(config.channels.entries(), decimal::decimal(group_id as int)) is None,
        config::linked_channel(config.channels.entries(), decimal::decimal(group_id as int))
            == config::lookup(config.channels.entries(), decimal::decimal(channel_id as int)),
    ensures
        agent(config, group_id, topic) == agent(config, channel_id, topic),
{
}

/// The agent of a topic comes before that of its channel, and that comes before none.
pub proof fn law_topic_comes_before_channel(
    config: TelegramConfig,
    chat_id: i64,
    topic: Option<i64>,
)
    ensures
        governing_channel(config, chat_id) is None ==> agent(config, chat_id, topic) is None,
        governing_channel(config, chat_id) matches Some(channel) ==> {
            &&& topic_agent(channel, topic) is Some ==> agent(config, chat_id, topic)
                == topic_agent(channel, topic)
            &&& topic_agent(channel, topic) is None ==> agent(config, chat_id, topic)
                == text::optional_text(channel.agent_id)
        },
{
}

/// A thread id is the topic; without one, the flag tells the general topic from none.
pub proof fn law_topics_are_told(thread: i64, flag: bool)
    ensures
        topic_of(Some(thread), flag) == Some(thread),
        topic_of(None, true) == Some(GENERAL_TOPIC_ID),
        topic_of(None, false) is None,
{
}

/// A conversation in a topic is named after its chat and its topic, one outside
/// of topics after its chat, each id in decimal notation.
pub proof fn law_session_keys_are_spelled(chat_id: i64, tid: i64)
    ensures
        key(chat_id, None) == decimal::decimal(chat_id as int),
        key(chat_id, Some(tid)) == key(chat_id, None) + ":t"@ + key(tid, None),
{
    reveal_strlit(":t");
    assert(":t"@ =~= seq![':', 't']);
}

/// Where the topic of a configured channel names an agent, that agent answers in it.
pub proof fn law_topic_agent_answers(
    config: TelegramConfig,
    chat_id: i64,
    tid: i64,
    i: int,
    k: int,
)
    requires
        config::has_unique_names(config.channels.entries()),
        0 <= i < config.channels.entries().len(),
        config.channels.entries()[i].0 == decimal::decimal(chat_id as int),
        ({
            let routes = config.channels.entries()[i].1.topic_routing.entries();
            &&& config::has_unique_names(routes)
            &&& 0 <= k < routes.len()
            &&& routes[k].0 == decimal::decimal(tid as int)
            &&& routes[k].1.agent_id is Some
        }),
    ensures
        agent(config, chat_id, Some(tid)) == Some(
            config.channels.entries()[i].1.topic_routing.entries()[k].1.agent_id->0@,
        ),
{
    config::law_lookup_finds(config.channels.entries(), i);
    config::law_lookup_finds(config.channels.entries()[i].1.topic_routing.entries(), k);
}

/// Where no topic names one, the agent of the configured channel answers, and none
/// where the channel has none.
pub proof fn law_channel_agent_answers(
    config: TelegramConfig,
    chat_id: i64,
    topic: Option<i64>,
    i: int,
)
    requires
        config::has_unique_names(config.channels.entries()),
        0 <= i < config.channels.entries().len(),
        config.channels.entries()[i].0 == decimal::decimal(chat_id as int),
        topic matches Some(tid) ==> forall|k: int|
            0 <= k < config.channels.entries()[i].1.topic_routing.entries().len() && (
            #[trigger] config.channels.entries()[i].1.topic_routing.entries()[k]).0
                == decimal::decimal(tid as int)
                ==> config.channels.entries()[i].1.topic_routing.entries()[k].1.agent_id is None,
    ensures
        match config.channels.entries()[i].1.agent_id {
            Some(name) => agent(config, chat_id, topic) == Some(name@),
            None => agent(config, chat_id, topic) is None,
        },
{
    let channel = config.channels.entries()[i].1;
    let routes = channel.topic_routing.entries();
    config::law_lookup_finds(config.channels.entries(), i);
    if let Some(tid) = topic {
        let name = decimal::decimal(tid as int);
        config::law_lookup_makes_nothing_up(routes, name);
        if let Some(route) = config::lookup(routes, name) {
            let k = choose|k: int| 0 <= k < routes.len() && routes[k] == (name, route);
            assert(routes[k].1.agent_id is None);
        }
    }
}

/// In a group that is no channel itself and is linked to a configured channel, the
/// same agent answers as in the channel, whatever the topic. Where several
/// channels are linked to the group it is the first.
pub proof fn law_linked_group_is_answered_like_its_channel(
    config: TelegramConfig,
    channel_id: i64,
    group_id: i64,
    topic: Option<i64>,
    i: int,
)
    requires
        config::has_unique_names(config.channels.entries()),
        0 <= i < config.channels.entries().len(),
        config.channels.entries()[i].0 == decimal::decimal(channel_id as int),
        config::is_linked_to(
            config.channels.entries()[i].1,
            decimal::decimal(group_id as int),
        ),
        forall|j: int|
            0 <= j < i ==> !config::is_linked_to(
                (#[trigger] config.channels.entries()[j]).1,
                decimal::decimal(group_id as int),
            ),
        forall|j: int|
            0 <= j < config.channels.entries().len() ==> (
            #[trigger] config.channels.entries()[j]).0 != decimal::decimal(group_id as int),
    ensures
        agent(config, group_id, topic) == agent(config, channel_id, topic),
{
    let channels = config.channels.entries();
    config::law_lookup_finds(channels, i);
    config::law_lookup_makes_nothing_up(channels, decimal::decimal(group_id as int));
    config::law_a_linked_channel_is_found(channels, decimal::decimal(group_id as int));
}

/// In a chat that is neither a configured channel nor linked to one, no agent answers.
pub proof fn law_nobody_answers_elsewhere(
    config: TelegramConfig,
    chat_id: i64,
    topic: Option<i64>,
)
    requires
        forall|j: int|
            0 <= j < config.channels.entries().len() ==> (
            #[trigger] config.channels.entries()[j]).0 != decimal::decimal(chat_id as int)
                && !config::is_linked_to(
                config.channels.entries()[j].1,
                decimal::decimal(chat_id as int),
            ),
    ensures
        agent(config, chat_id, topic) is None,
{
    let channels = config.channels.entries();
    config::law_lookup_makes_nothing_up(channels, decimal::decimal(chat_id as int));
    config::law_a_linked_channel_is_found(channels, decimal::decimal(chat_id as int));
}

} // verus!
