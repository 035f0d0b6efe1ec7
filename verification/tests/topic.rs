use telegram::config::{Table, TelegramChannelConfig, TelegramConfig, TopicRoute};
use telegram::topic::{
    effective_topic_id, resolve_agent, session_key, thread_id_for_send, GENERAL_TOPIC_ID,
};

fn cfg_with_channel() -> TelegramConfig {
    // Channel -100123 with linked discussion group -100987, default
    // agent "research", topic 1 to research, topic 42 to coder.
    let mut topic_routing = Table::new();
    topic_routing.insert(
        "1".to_string(),
        TopicRoute {
            agent_id: Some("research".into()),
        },
    );
    topic_routing.insert(
        "42".to_string(),
        TopicRoute {
            agent_id: Some("coder".into()),
        },
    );
    let mut channels = Table::new();
    channels.insert(
        "-100123".to_string(),
        TelegramChannelConfig {
            linked_discussion_group: Some("-100987".into()),
            agent_id: Some("research".into()),
            topic_routing,
        },
    );
    TelegramConfig { channels }
}

fn channel(group: Option<&str>, agent: Option<&str>) -> TelegramChannelConfig {
    TelegramChannelConfig {
        linked_discussion_group: group.map(|g| g.to_string()),
        agent_id: agent.map(|a| a.to_string()),
        topic_routing: Table::new(),
    }
}

#[test]
fn effective_topic_id_rules() {
    assert_eq!(effective_topic_id(Some(42), false), Some(42));
    assert_eq!(effective_topic_id(Some(42), true), Some(42));
    // General topic: no thread id but flagged as topic message.
    assert_eq!(effective_topic_id(None, true), Some(GENERAL_TOPIC_ID));
    // Plain group message: neither.
    assert_eq!(effective_topic_id(None, false), None);
}

#[test]
fn resolve_agent_topic_overrides_then_default() {
    let c = cfg_with_channel();
    assert_eq!(
        resolve_agent(&c, -100123, Some(1)).as_deref(),
        Some("research")
    );
    assert_eq!(
        resolve_agent(&c, -100123, Some(42)).as_deref(),
        Some("coder")
    );
    // Unconfigured topic falls back to the channel default agent.
    assert_eq!(
        resolve_agent(&c, -100123, Some(99)).as_deref(),
        Some("research")
    );
    // No topic: channel default.
    assert_eq!(
        resolve_agent(&c, -100123, None).as_deref(),
        Some("research")
    );
}

#[test]
fn resolve_agent_via_linked_discussion_group() {
    let c = cfg_with_channel();
    // A comment in the linked discussion group routes by the channel's
    // config just like the channel itself.
    assert_eq!(
        resolve_agent(&c, -100987, Some(42)).as_deref(),
        Some("coder")
    );
    assert_eq!(
        resolve_agent(&c, -100987, Some(1)).as_deref(),
        Some("research")
    );
}

#[test]
fn resolve_agent_unknown_chat_is_none() {
    let c = cfg_with_channel();
    assert_eq!(resolve_agent(&c, -999, Some(42)), None);
}

#[test]
fn thread_id_for_send_omits_general() {
    assert_eq!(thread_id_for_send(Some(GENERAL_TOPIC_ID)), None);
    assert_eq!(thread_id_for_send(Some(42)), Some(42));
    assert_eq!(thread_id_for_send(None), None);
}

#[test]
fn session_keys_are_per_topic() {
    assert_eq!(session_key(-100987, Some(42)), "-100987:t42");
    assert_eq!(session_key(-100987, Some(1)), "-100987:t1");
    assert_eq!(session_key(-100987, None), "-100987");
    assert_ne!(
        session_key(-100987, Some(42)),
        session_key(-100987, Some(1))
    );
}

#[test]
fn session_keys_spell_extreme_ids() {
    assert_eq!(session_key(0, Some(-10)), "0:t-10");
    assert_eq!(
        session_key(i64::MIN, Some(i64::MAX)),
        "-9223372036854775808:t9223372036854775807"
    );
}

#[test]
fn route_without_agent_falls_back() {
    let mut c = TelegramConfig::default();
    let mut configured = channel(None, Some("main"));
    configured.topic_routing.insert("5".to_string(), TopicRoute { agent_id: None });
    c.channels.insert("10".to_string(), configured);
    assert_eq!(resolve_agent(&c, 10, Some(5)).as_deref(), Some("main"));
    c.channels.insert("11".to_string(), channel(None, None));
    assert_eq!(resolve_agent(&c, 11, Some(5)), None);
}

#[test]
fn channel_comes_before_linked_group() {
    let mut c = TelegramConfig::default();
    c.channels.insert("10".to_string(), channel(Some("20"), Some("linked")));
    c.channels.insert("20".to_string(), channel(None, Some("own")));
    assert_eq!(resolve_agent(&c, 20, None).as_deref(), Some("own"));
    assert_eq!(resolve_agent(&c, 10, None).as_deref(), Some("linked"));
}

#[test]
fn setting_a_name_anew_replaces_its_value() {
    let mut table = Table::new();
    table.insert("a".to_string(), 1u32);
    table.insert("b".to_string(), 2u32);
    table.insert("a".to_string(), 3u32);
    assert_eq!(table.get("a"), Some(&3));
    assert_eq!(table.get("b"), Some(&2));
    assert_eq!(table.get("c"), None);
}

#[test]
fn answers_return_to_their_thread() {
    for thread in [None, Some(2), Some(-5), Some(i64::MAX)] {
        assert_eq!(thread_id_for_send(effective_topic_id(thread, true)), thread);
        assert_eq!(thread_id_for_send(effective_topic_id(thread, false)), thread);
    }
}
