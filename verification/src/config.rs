//! Which agent answers in which channel and topic.

use vstd::prelude::*;

use crate::decimal;
use crate::decimal::to_decimal;
use crate::text;
use crate::text::same_text;

verus! {

/// Values by name. No name stands in it twice; a value that is set anew keeps its
/// place.
pub struct Table<V> {
    entries: Vec<(String, V)>,
}

impl<V> Table<V> {
    /// The names and values, in the order in which the names were first set.
    pub closed spec fn entries(&self) -> Seq<(Seq<char>, V)> {
        self.entries@.map_values(|entry: (String, V)| (entry.0@, entry.1))
    }

    #[verifier::type_invariant]
    spec fn well_formed(self) -> bool {
        has_unique_names(self.entries())
    }
}

/// No name stands twice among the entries.
pub open spec fn has_unique_names<V>(entries: Seq<(Seq<char>, V)>) -> bool {
    forall|i: int, j: int|
        0 <= i < j < entries.len() ==> (#[trigger] entries[i]).0 != (#[trigger] entries[j]).0
}

/// The value that stands under `name`.
pub open spec fn lookup<V>(entries: Seq<(Seq<char>, V)>, name: Seq<char>) -> Option<V>
    decreases entries.len(),
{
    if entries.len() == 0 {
        None
    } else if entries[0].0 == name {
        Some(entries[0].1)
    } else {
        lookup(entries.skip(1), name)
    }
}

/// The entries with `value` set under `name`.
pub open spec fn updated<V>(
    entries: Seq<(Seq<char>, V)>,
    name: Seq<char>,
    value: V,
) -> Seq<(Seq<char>, V)>
    decreases entries.len(),
{
    if entries.len() == 0 {
        seq![(name, value)]
    } else if entries[0].0 == name {
        seq![(name, value)] + entries.skip(1)
    } else {
        seq![entries[0]] + updated(entries.skip(1), name, value)
    }
}

impl<V> Table<V> {
    /// A table without entries.
    pub fn new() -> (table: Self)
        ensures
            table.entries() == Seq::<(Seq<char>, V)>::empty(),
    {
        let table = Table { entries: Vec::new() };
        assert(table.entries() =~= Seq::<(Seq<char>, V)>::empty());
        table
    }

    /// The value that stands under `name`.
    pub fn get(&self, name: &str) -> (value: Option<&V>)
        ensures
            has_unique_names(self.entries()),
            match value {
                Some(value) => lookup(self.entries(), name@) == Some(*value),
                None => lookup(self.entries(), name@) is None,
            },
    {
        proof {
            use_type_invariant(self);
            assert(self.entries().skip(0) =~= self.entries());
        }
        for i in 0..self.entries.len()
            invariant
                lookup(self.entries(), name@) == lookup(self.entries().skip(i as int), name@),
                has_unique_names(self.entries()),
        {
            let ghost left = self.entries().skip(i as int);
            assert(left[0] == (self.entries@[i as int].0@, self.entries@[i as int].1));
            if same_text(self.entries[i].0.as_str(), name) {
                return Some(&self.entries[i].1);
            }
            assert(left.skip(1) =~= self.entries().skip(i + 1));
        }
        None
    }

    /// How many entries there are.
    fn len(&self) -> (len: usize)
        ensures
            len == self.entries().len(),
    {
        self.entries.len()
    }

    /// The value of the entry at `i`.
    fn value_at(&self, i: usize) -> (value: &V)
        requires
            i < self.entries().len(),
        ensures
            *value == self.entries()[i as int].1,
    {
        &self.entries[i].1
    }

    /// Sets `value` under `name`.
    pub fn insert(&mut self, name: String, value: V)
        ensures
            final(self).entries() == updated(old(self).entries(), name@, value),
            has_unique_names(final(self).entries()),
    {
        proof {
            use_type_invariant(&*self);
            law_updated_names_are_unique(self.entries(), name@, value);
        }
        let ghost before = self.entries();
        let mut entries: Vec<(String, V)> = Vec::new();
        std::mem::swap(&mut entries, &mut self.entries);
        let len: usize = entries.len();
        let mut at: usize = 0;
        while at < len && !same_text(entries[at].0.as_str(), name.as_str())
            invariant
                at <= len == entries@.len(),
                before == entries@.map_values(|entry: (String, V)| (entry.0@, entry.1)),
                forall|j: int| 0 <= j < at ==> (#[trigger] before[j]).0 != name@,
            decreases len - at,
        {
            assert(before[at as int].0 == entries@[at as int].0@);
            at = at + 1;
        }
        proof {
            if at < len {
                assert(before[at as int].0 == entries@[at as int].0@);
            }
            lemma_updated_at(before, name@, value, at as int);
        }
        let ghost shown = (name@, value);
        if at < len {
            entries.set(at, (name, value));
            assert(entries@.map_values(|entry: (String, V)| (entry.0@, entry.1)) =~= before.update(
                at as int,
                shown,
            ));
        } else {
            entries.push((name, value));
            assert(entries@.map_values(|entry: (String, V)| (entry.0@, entry.1)) =~= before.push(
                shown,
            ));
        }
        *self = Table { entries };
    }
}

/// The entries with a value set: in its place where the name stands first at
/// `at`, at the end where it stands nowhere.
proof fn lemma_updated_at<V>(entries: Seq<(Seq<char>, V)>, name: Seq<char>, value: V, at: int)
    requires
        0 <= at <= entries.len(),
        forall|j: int| 0 <= j < at ==> (#[trigger] entries[j]).0 != name,
        at < entries.len() ==> entries[at].0 == name,
    ensures
        updated(entries, name, value) == if at < entries.len() {
            entries.update(at, (name, value))
        } else {
            entries.push((name, value))
        },
    decreases entries.len(),
{
    if entries.len() == 0 {
        assert(seq![(name, value)] =~= entries.push((name, value)));
    } else if at == 0 {
        assert(seq![(name, value)] + entries.skip(1) =~= entries.update(0, (name, value)));
    } else {
        let rest = entries.skip(1);
        assert(entries[0].0 != name);
        assert forall|j: int| 0 <= j < at - 1 implies (#[trigger] rest[j]).0 != name by {
            assert(rest[j] == entries[j + 1]);
        }
        lemma_updated_at(rest, name, value, at - 1);
        if at < entries.len() {
            assert(seq![entries[0]] + rest.update(at - 1, (name, value)) =~= entries.update(
                at,
                (name, value),
            ));
        } else {
            assert(seq![entries[0]] + rest.push((name, value)) =~= entries.push((name, value)));
        }
    }
}

/// What was set last under a name is what stands under it; other names keep what
/// they have.
pub proof fn law_lookup_of_updated<V>(
    entries: Seq<(Seq<char>, V)>,
    name: Seq<char>,
    value: V,
    other: Seq<char>,
)
    ensures
        lookup(updated(entries, name, value), other) == if other == name {
            Some(value)
        } else {
            lookup(entries, other)
        },
    decreases entries.len(),
{
    let after = updated(entries, name, value);
    if entries.len() == 0 {
        assert(after.skip(1) =~= entries);
    } else if entries[0].0 == name {
        assert(after.skip(1) =~= entries.skip(1));
    } else {
        assert(after.skip(1) =~= updated(entries.skip(1), name, value));
        law_lookup_of_updated(entries.skip(1), name, value, other);
    }
}

/// Setting a value lets no name stand twice.
pub proof fn law_updated_names_are_unique<V>(
    entries: Seq<(Seq<char>, V)>,
    name: Seq<char>,
    value: V,
)
    requires
        has_unique_names(entries),
    ensures
        has_unique_names(updated(entries, name, value)),
{
    if exists|at: int| 0 <= at < entries.len() && (#[trigger] entries[at]).0 == name {
        let at = choose|at: int| 0 <= at < entries.len() && (#[trigger] entries[at]).0 == name;
        lemma_updated_at(entries, name, value, at);
    } else {
        lemma_updated_at(entries, name, value, entries.len() as int);
    }
}

/// What is configured for a topic.
pub struct TopicRoute {
    /// The agent that answers in the topic.
    pub agent_id: Option<String>,
}

/// What is configured for a channel.
pub struct TelegramChannelConfig {
    /// The chat id of the group in which the channel's posts are discussed.
    pub linked_discussion_group: Option<String>,
    /// The agent that answers where no topic names one.
    pub agent_id: Option<String>,
    /// What is configured for the channel's topics, by topic id.
    pub topic_routing: Table<TopicRoute>,
}

/// What is configured for the bot.
pub struct TelegramConfig {
    /// What is configured for the channels, by chat id.
    pub channels: Table<TelegramChannelConfig>,
}

impl Default for TelegramConfig {
    fn default() -> (config: Self)
        ensures
            config.channels.entries() == Seq::<(Seq<char>, TelegramChannelConfig)>::empty(),
    {
        TelegramConfig { channels: Table::new() }
    }
}

/// The first of the channels that is linked to the group with the id `group`.
pub open spec fn linked_channel(
    channels: Seq<(Seq<char>, TelegramChannelConfig)>,
    group: Seq<char>,
) -> Option<TelegramChannelConfig>
    decreases channels.len(),
{
    if channels.len() == 0 {
        None
    } else if text::optional_text(channels[0].1.linked_discussion_group) == Some(group) {
        Some(channels[0].1)
    } else {
        linked_channel(channels.skip(1), group)
    }
}

impl TelegramConfig {
    /// The channel with the id `chat_id`.
    pub fn channel(&self, chat_id: i64) -> (channel: Option<&TelegramChannelConfig>)
        ensures
            match channel {
                Some(channel) => lookup(self.channels.entries(), decimal::decimal(chat_id as int))
                    == Some(*channel),
                None => lookup(self.channels.entries(), decimal::decimal(chat_id as int)) is None,
            },
    {
        self.channels.get(to_decimal(chat_id).as_str())
    }

    /// The channel that is linked to the discussion group with the id `chat_id`.
    pub fn channel_for_discussion_group(&self, chat_id: i64) -> (channel: Option<
        &TelegramChannelConfig,
    >)
        ensures
            match channel {
                Some(channel) => linked_channel(
                    self.channels.entries(),
                    decimal::decimal(chat_id as int),
                ) == Some(*channel),
                None => linked_channel(
                    self.channels.entries(),
                    decimal::decimal(chat_id as int),
                ) is None,
            },
    {
        let group = to_decimal(chat_id);
        let ghost all = self.channels.entries();
        assert(all.skip(0) =~= all);
        let len: usize = self.channels.len();
        for i in 0..len
            invariant
                len == all.len(),
                all == self.channels.entries(),
                group@ == decimal::decimal(chat_id as int),
                linked_channel(all, group@) == linked_channel(all.skip(i as int), group@),
        {
            let channel = self.channels.value_at(i);
            assert(all.skip(i as int)[0] == all[i as int]);
            match &channel.linked_discussion_group {
                Some(linked) => {
                    if same_text(linked.as_str(), group.as_str()) {
                        return Some(channel);
                    }
                },
                None => {},
            }
            assert(all.skip(i as int).skip(1) =~= all.skip(i + 1));
        }
        None
    }
}

/// `channel` is linked to the group with the id `group`.
pub open spec fn is_linked_to(channel: TelegramChannelConfig, group: Seq<char>) -> bool {
    channel.linked_discussion_group matches Some(id) && id@ == group
}

/// What stands under a name is found under it.
pub proof fn law_lookup_finds<V>(entries: Seq<(Seq<char>, V)>, i: int)
    requires
        has_unique_names(entries),
        0 <= i < entries.len(),
    ensures
        lookup(entries, entries[i].0) == Some(entries[i].1),
    decreases entries.len(),
{
    if i > 0 {
        let rest = entries.skip(1);
        assert(rest[i - 1] == entries[i]);
        assert(entries[0].0 != entries[i].0);
        assert forall|j: int, k: int| 0 <= j < k < rest.len() implies (#[trigger] rest[j]).0 != (
        #[trigger] rest[k]).0 by {
            assert(rest[j] == entries[j + 1] && rest[k] == entries[k + 1]);
        }
        law_lookup_finds(rest, i - 1);
    }
}

/// Nothing is found under a name that does not stand among the entries, and
/// what is found is an entry under that name.
pub proof fn law_lookup_makes_nothing_up<V>(entries: Seq<(Seq<char>, V)>, name: Seq<char>)
    ensures
        (forall|i: int| 0 <= i < entries.len() ==> (#[trigger] entries[i]).0 != name) <==> lookup(
            entries,
            name,
        ) is None,
        lookup(entries, name) matches Some(value) ==> entries.contains((name, value)),
    decreases entries.len(),
{
    if entries.len() > 0 {
        let rest = entries.skip(1);
        law_lookup_makes_nothing_up(rest, name);
        assert(forall|i: int| 0 <= i < rest.len() ==> rest[i] == entries[i + 1]);
        if entries[0].0 == name {
            assert(entries[0] == (name, entries[0].1));
        } else if lookup(rest, name) is Some {
            let value = lookup(rest, name)->0;
            let j = choose|j: int| 0 <= j < rest.len() && rest[j] == (name, value);
            assert(entries[j + 1] == (name, value));
        } else {
            assert forall|i: int| 0 <= i < entries.len() implies (#[trigger] entries[i]).0
                != name by {
                if i > 0 {
                    assert(rest[i - 1].0 != name);
                }
            }
        }
    }
}

/// Setting a value leaves each other name in its place, with what it has, and
/// adds the name at the end where it was not there.
pub proof fn law_updated_keeps_the_other_entries<V>(
    entries: Seq<(Seq<char>, V)>,
    name: Seq<char>,
    value: V,
)
    requires
        has_unique_names(entries),
    ensures
        forall|i: int|
            0 <= i < entries.len() && entries[i].0 != name ==> #[trigger] updated(
                entries,
                name,
                value,
            )[i] == entries[i],
        forall|i: int|
            0 <= i < entries.len() && entries[i].0 == name ==> #[trigger] updated(
                entries,
                name,
                value,
            )[i] == (name, value) && updated(entries, name, value).len() == entries.len(),
        (forall|i: int| 0 <= i < entries.len() ==> (#[trigger] entries[i]).0 != name)
            ==> updated(entries, name, value) == entries.push((name, value)),
{
    if exists|at: int| 0 <= at < entries.len() && (#[trigger] entries[at]).0 == name {
        let at = choose|at: int| 0 <= at < entries.len() && (#[trigger] entries[at]).0 == name;
        lemma_updated_at(entries, name, value, at);
    } else {
        lemma_updated_at(entries, name, value, entries.len() as int);
    }
}

/// Where a configured channel is linked to a group, a channel that is linked to
/// it is found, the first there is; none is found only where none is linked.
pub proof fn law_a_linked_channel_is_found(
    channels: Seq<(Seq<char>, TelegramChannelConfig)>,
    group: Seq<char>,
)
    ensures
        linked_channel(channels, group) is None <==> (forall|i: int|
            0 <= i < channels.len() ==> !is_linked_to((#[trigger] channels[i]).1, group)),
        forall|i: int|
            0 <= i < channels.len() && is_linked_to(channels[i].1, group) && (forall|j: int|
                0 <= j < i ==> !is_linked_to((#[trigger] channels[j]).1, group))
                ==> linked_channel(channels, group) == Some((#[trigger] channels[i]).1),
        linked_channel(channels, group) matches Some(channel) ==> is_linked_to(channel, group) && (
        exists|i: int| 0 <= i < channels.len() && (#[trigger] channels[i]).1 == channel),
    decreases channels.len(),
{
    if channels.len() > 0 {
        let rest = channels.skip(1);
        let found = linked_channel(channels, group);
        law_a_linked_channel_is_found(rest, group);
        assert(forall|i: int| 0 <= i < rest.len() ==> rest[i] == channels[i + 1]);
        if is_linked_to(channels[0].1, group) {
            assert(found == Some(channels[0].1));
        } else {
            assert(found == linked_channel(rest, group));
            if found is None {
                assert forall|i: int| 0 <= i < channels.len() implies !is_linked_to(
                    (#[trigger] channels[i]).1,
                    group,
                ) by {
                    if i > 0 {
                        assert(!is_linked_to(rest[i - 1].1, group));
                    }
                }
            } else {
                let j = choose|j: int| 0 <= j < rest.len() && (#[trigger] rest[j]).1 == found->0;
                assert(channels[j + 1].1 == found->0);
                assert(is_linked_to(channels[j + 1].1, group));
            }
            assert forall|i: int|
                0 <= i < channels.len() && is_linked_to(channels[i].1, group) && (forall|j: int|
                    0 <= j < i ==> !is_linked_to(
                        (#[trigger] channels[j]).1,
                        group,
                    )) implies found == Some((#[trigger] channels[i]).1) by {
                assert(rest[i - 1] == channels[i]);
                assert forall|j: int| 0 <= j < i - 1 implies !is_linked_to(
                    (#[trigger] rest[j]).1,
                    group,
                ) by {
                    assert(!is_linked_to(channels[j + 1].1, group));
                }
            }
        }
    }
}

} // verus!
