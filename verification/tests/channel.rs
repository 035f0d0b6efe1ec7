use telegram::channel::{build_topic_messages, classify_membership, probe_admin, send_to_topic, ChannelError};
use telegram::delivery::{DeliveryEvent, Outbound};
use telegram::protocol::{ChatMember, TelegramClientError, PARSE_MODE_HTML};
use telegram::topic::GENERAL_TOPIC_ID;

fn member(status: &str, can_post: Option<bool>) -> ChatMember {
    ChatMember {
        status: status.into(),
        can_post_messages: can_post,
        can_delete_messages: None,
    }
}

fn failure(words: &str) -> TelegramClientError {
    TelegramClientError { message: words.to_string() }
}

#[test]
fn creator_can_always_post() {
    assert!(classify_membership(&member("creator", None), -100).is_ok());
}

#[test]
fn admin_needs_post_right() {
    assert!(classify_membership(&member("administrator", Some(true)), -100).is_ok());
    assert!(matches!(
        classify_membership(&member("administrator", Some(false)), -100),
        Err(ChannelError::CannotPost { .. })
    ));
    // can_post_messages absent: treated as no.
    assert!(matches!(
        classify_membership(&member("administrator", None), -100),
        Err(ChannelError::CannotPost { .. })
    ));
}

#[test]
fn non_admin_is_clear_error() {
    match classify_membership(&member("member", None), -100123) {
        Err(ChannelError::NotAdmin { chat_id, status }) => {
            assert_eq!(chat_id, -100123);
            assert_eq!(status, "member");
        }
        other => panic!("expected NotAdmin, got {other:?}"),
    }
    // left / kicked also map to NotAdmin.
    assert!(matches!(
        classify_membership(&member("left", None), -1),
        Err(ChannelError::NotAdmin { .. })
    ));
}

#[test]
fn build_topic_messages_sets_thread_except_general() {
    // Regular topic: message_thread_id set.
    let msgs = build_topic_messages(-100987, Some(42), "hello", 4000);
    assert_eq!(msgs.len(), 1);
    assert_eq!(msgs[0].message_thread_id, Some(42));
    assert_eq!(msgs[0].chat_id, -100987);

    // General topic: message_thread_id omitted.
    let general = build_topic_messages(-100987, Some(GENERAL_TOPIC_ID), "hi", 4000);
    assert_eq!(general[0].message_thread_id, None);

    // No topic: none.
    let plain = build_topic_messages(-100987, None, "hi", 4000);
    assert_eq!(plain[0].message_thread_id, None);
}

#[test]
fn build_topic_messages_chunks_long_body() {
    let body = "x".repeat(1200);
    let msgs = build_topic_messages(-100987, Some(7), &body, 500);
    assert!(msgs.len() > 1);
    // Every chunk keeps the same thread target.
    assert!(msgs.iter().all(|m| m.message_thread_id == Some(7)));
}

#[test]
fn topic_messages_are_html() {
    let msgs = build_topic_messages(5, Some(7), "a < b", 4000);
    assert_eq!(msgs.len(), 1);
    assert_eq!(msgs[0].text, "a &lt; b");
    assert_eq!(msgs[0].parse_mode.as_deref(), Some(PARSE_MODE_HTML));
    assert!(build_topic_messages(5, Some(7), "  ", 4000).is_empty());
}

#[test]
fn status_is_compared_exactly() {
    assert!(matches!(
        classify_membership(&member("Creator", Some(true)), 3),
        Err(ChannelError::NotAdmin { chat_id: 3, .. })
    ));
    assert!(matches!(
        classify_membership(&member("", Some(true)), 3),
        Err(ChannelError::NotAdmin { .. })
    ));
    assert!(classify_membership(&member("creator", Some(false)), 3).is_ok());
}

#[test]
fn probe_passes_api_failures_on() {
    match probe_admin(Err(failure("chat not found")), -100) {
        Err(ChannelError::Api(error)) => assert_eq!(error.message, "chat not found"),
        other => panic!("expected Api, got {other:?}"),
    }
    assert!(probe_admin(Ok(member("creator", None)), -100).is_ok());
    assert!(matches!(
        probe_admin(Ok(member("kicked", None)), -100),
        Err(ChannelError::NotAdmin { chat_id: -100, .. })
    ));
}

#[test]
fn errors_are_described() {
    let not_admin = ChannelError::NotAdmin { chat_id: -100123, status: "left".to_string() };
    assert_eq!(
        not_admin.describe(),
        "bot is not an admin of chat -100123 (membership: left) — add it as an admin with post rights"
    );
    let cannot_post = ChannelError::CannotPost { chat_id: -7 };
    assert_eq!(
        cannot_post.describe(),
        "bot is an admin of chat -7 but lacks the 'post messages' right"
    );
    assert_eq!(ChannelError::from(failure("timeout")).describe(), "timeout");
}

fn sent_text(request: Option<Outbound>) -> Option<String> {
    match request {
        Some(Outbound::Send(message)) => Some(message.text),
        Some(Outbound::Edit(edit)) => panic!("unexpected edit: {edit:?}"),
        None => None,
    }
}

#[test]
fn topic_delivery_sends_each_chunk_once() {
    let body = "x".repeat(1200);
    let mut delivery = send_to_topic(-100987, Some(7), &body, 500);
    assert_eq!(sent_text(delivery.advance(DeliveryEvent::Started)), Some("x".repeat(500)));
    assert_eq!(sent_text(delivery.advance(DeliveryEvent::Succeeded)), Some("x".repeat(500)));
    assert_eq!(sent_text(delivery.advance(DeliveryEvent::Succeeded)), Some("x".repeat(200)));
    assert_eq!(sent_text(delivery.advance(DeliveryEvent::Succeeded)), None);
    assert!(delivery.outcome().is_ok());
}

#[test]
fn failed_send_ends_topic_delivery() {
    let body = "x".repeat(1200);
    let mut delivery = send_to_topic(-100987, Some(7), &body, 500);
    assert!(delivery.advance(DeliveryEvent::Started).is_some());
    assert!(delivery.advance(DeliveryEvent::Failed(failure("forbidden"))).is_none());
    assert!(delivery.advance(DeliveryEvent::Succeeded).is_none());
    match delivery.outcome() {
        Err(error) => assert_eq!(error.message, "forbidden"),
        Ok(()) => panic!("expected the failure"),
    }
}
