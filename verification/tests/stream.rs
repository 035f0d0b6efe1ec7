use telegram::delivery::{DeliveryEvent, Outbound};
use telegram::protocol::{TelegramClientError, PARSE_MODE_HTML};
use telegram::stream::{PreviewCoalescer, PreviewSink, TelegramPreview, MIN_EDIT_INTERVAL};

const MILLISECOND: u128 = 1_000_000;
const START: u128 = 5_000_000_000;

#[test]
fn first_call_is_due_then_rate_limited() {
    let mut c = PreviewCoalescer::new(4000);
    let t0 = START;
    // First delta with content: due immediately.
    assert_eq!(c.due("hello", t0).as_deref(), Some("hello"));
    // More text but within the interval: suppressed.
    assert_eq!(c.due("hello world", t0 + 100 * MILLISECOND), None);
    // After the interval: due again with the new text.
    let later = t0 + MIN_EDIT_INTERVAL + MILLISECOND;
    assert_eq!(c.due("hello world", later).as_deref(), Some("hello world"));
}

#[test]
fn unchanged_text_is_never_due() {
    let mut c = PreviewCoalescer::new(4000);
    let t0 = START;
    assert_eq!(c.due("same", t0).as_deref(), Some("same"));
    // Even past the interval, identical text produces no edit.
    let later = t0 + MIN_EDIT_INTERVAL * 3;
    assert_eq!(c.due("same", later), None);
}

#[test]
fn empty_text_is_not_due() {
    let mut c = PreviewCoalescer::new(4000);
    assert_eq!(c.due("", START), None);
    assert_eq!(c.due("   ", START), None);
}

#[test]
fn flush_ignores_interval_but_not_no_op() {
    let mut c = PreviewCoalescer::new(4000);
    let t0 = START;
    c.due("partial", t0);
    // flush right away (within interval) still emits the newer text.
    assert_eq!(
        c.flush("partial and more").as_deref(),
        Some("partial and more")
    );
    // A second flush with no change emits nothing.
    assert_eq!(c.flush("partial and more"), None);
}

#[test]
fn due_renders_through_preview_formatter() {
    let mut c = PreviewCoalescer::new(4000);
    // HTML-escaped + tool-narration stripped via format_preview.
    let out = c.due("⏺ Read(/x)\na < b", START);
    assert_eq!(out.as_deref(), Some("a &lt; b"));
}

#[test]
fn interval_is_over_when_it_has_passed_in_full() {
    assert_eq!(MIN_EDIT_INTERVAL, 1200 * MILLISECOND);
    let mut c = PreviewCoalescer::new(4000);
    assert!(c.due("a", START).is_some());
    assert_eq!(c.due("b", START + MIN_EDIT_INTERVAL - 1), None);
    assert_eq!(c.due("b", START + MIN_EDIT_INTERVAL).as_deref(), Some("b"));
    // A clock that runs backwards counts as no time passed.
    assert_eq!(c.due("c", 0), None);
}

#[test]
fn interval_can_be_chosen() {
    let mut c = PreviewCoalescer::new(4000).with_interval(10);
    assert!(c.due("a", 100).is_some());
    assert_eq!(c.due("b", 109), None);
    assert!(c.due("b", 110).is_some());
    let mut always = PreviewCoalescer::new(4000).with_interval(0);
    assert!(always.due("a", 100).is_some());
    assert!(always.due("b", 99).is_some());
}

#[test]
fn flush_does_not_restart_the_interval() {
    let mut c = PreviewCoalescer::new(4000).with_interval(10);
    assert!(c.due("a", 100).is_some());
    assert!(c.flush("b").is_some());
    assert_eq!(c.due("c", 109), None);
    assert_eq!(c.due("c", 110).as_deref(), Some("c"));
}

#[test]
fn due_previews_stay_apart() {
    let mut c = PreviewCoalescer::new(4000).with_interval(10);
    let mut times: Vec<u128> = Vec::new();
    let mut text = String::new();
    for now in 0..100u128 {
        text.push('x');
        if c.due(&text, now).is_some() {
            times.push(now);
        }
    }
    assert_eq!(times, vec![0, 10, 20, 30, 40, 50, 60, 70, 80, 90]);
}

#[test]
fn preview_is_sent_then_edited() {
    let mut p = TelegramPreview::new(-100987, Some(42), 4000);
    assert_eq!(p.current_message_id(), None);
    match p.update("a < b", START) {
        Some(Outbound::Send(m)) => {
            assert_eq!(m.chat_id, -100987);
            assert_eq!(m.text, "a &lt; b");
            assert_eq!(m.parse_mode.as_deref(), Some(PARSE_MODE_HTML));
            assert_eq!(m.message_thread_id, Some(42));
        }
        other => panic!("expected a message, got {other:?}"),
    }
    assert!(p.update("a < b, more", START + 1).is_none());
    p.answered(Ok(77));
    assert_eq!(p.current_message_id(), Some(77));
    match p.update("a < b, more", START + MIN_EDIT_INTERVAL) {
        Some(Outbound::Edit(e)) => {
            assert_eq!(e.chat_id, -100987);
            assert_eq!(e.message_id, 77);
            assert_eq!(e.text, "a &lt; b, more");
            assert_eq!(e.parse_mode.as_deref(), Some(PARSE_MODE_HTML));
        }
        other => panic!("expected an edit, got {other:?}"),
    }
}

#[test]
fn preview_whose_send_failed_is_sent_anew() {
    let mut p = TelegramPreview::new(5, Some(1), 4000);
    match p.update("one", START) {
        Some(Outbound::Send(m)) => assert_eq!(m.message_thread_id, None),
        other => panic!("expected a message, got {other:?}"),
    }
    p.answered(Err(TelegramClientError { message: "forbidden".to_string() }));
    assert_eq!(p.current_message_id(), None);
    assert!(matches!(
        p.update("one two", START + MIN_EDIT_INTERVAL),
        Some(Outbound::Send(_))
    ));
}

#[test]
fn finish_edits_first_chunk_and_sends_the_rest() {
    let mut p = TelegramPreview::new(5, Some(7), 500);
    p.answered(Ok(77));
    let mut delivery = p.finish(&"x".repeat(1200));
    match delivery.advance(DeliveryEvent::Started) {
        Some(Outbound::Edit(e)) => {
            assert_eq!(e.chat_id, 5);
            assert_eq!(e.message_id, 77);
            assert_eq!(e.text, "x".repeat(500));
            assert_eq!(e.parse_mode.as_deref(), Some(PARSE_MODE_HTML));
        }
        other => panic!("expected an edit, got {other:?}"),
    }
    // The rest goes out though the edit failed.
    let failed = TelegramClientError { message: "not modified".to_string() };
    match delivery.advance(DeliveryEvent::Failed(failed)) {
        Some(Outbound::Send(m)) => {
            assert_eq!(m.chat_id, 5);
            assert_eq!(m.text, "x".repeat(500));
            assert_eq!(m.message_thread_id, Some(7));
        }
        other => panic!("expected a message, got {other:?}"),
    }
    // A failed send holds back what is behind it.
    let failed = TelegramClientError { message: "forbidden".to_string() };
    assert!(delivery.advance(DeliveryEvent::Failed(failed)).is_none());
    assert!(delivery.advance(DeliveryEvent::Succeeded).is_none());
    assert_eq!(delivery.outcome().map_err(|e| e.message), Err("forbidden".to_string()));
}

#[test]
fn finish_without_preview_sends_all() {
    let p = TelegramPreview::new(5, Some(7), 500);
    let mut delivery = p.finish(&"x".repeat(600));
    let mut sizes: Vec<usize> = Vec::new();
    let mut event = DeliveryEvent::Started;
    while let Some(request) = delivery.advance(event) {
        match request {
            Outbound::Send(m) => {
                assert_eq!(m.message_thread_id, Some(7));
                sizes.push(m.text.len());
            }
            Outbound::Edit(e) => panic!("unexpected edit: {e:?}"),
        }
        event = DeliveryEvent::Succeeded;
    }
    assert_eq!(sizes, vec![500, 100]);
    assert!(delivery.outcome().is_ok());
}

#[test]
fn finish_without_text_does_nothing() {
    let mut p = TelegramPreview::new(5, None, 4000);
    p.answered(Ok(77));
    let mut delivery = p.finish("⏺ Read(/x)\n✓");
    assert!(delivery.advance(DeliveryEvent::Started).is_none());
    assert!(delivery.outcome().is_ok());
}

#[test]
fn due_previews_stay_apart_when_the_clock_jumps() {
    let mut c = PreviewCoalescer::new(4000).with_interval(10);
    assert!(c.due("a", 100).is_some());
    assert_eq!(c.due("b", 50), None);
    assert_eq!(c.due("b", 109), None);
    assert_eq!(c.due("b", 0), None);
    assert_eq!(c.due("b", 110).as_deref(), Some("b"));
}

#[test]
fn preview_stays_in_its_message() {
    let mut p = TelegramPreview::new(5, Some(7), 4000);
    let mut text = String::new();
    let mut sends = 0;
    let mut edits = 0;
    for step in 0..20u128 {
        text.push('x');
        match p.update(&text, START + step * MIN_EDIT_INTERVAL) {
            Some(Outbound::Send(m)) => {
                assert_eq!(m.message_thread_id, Some(7));
                sends += 1;
                // The first three attempts fail.
                if sends <= 3 {
                    p.answered(Err(TelegramClientError { message: "timeout".to_string() }));
                } else {
                    p.answered(Ok(77));
                }
            }
            Some(Outbound::Edit(e)) => {
                assert_eq!((e.chat_id, e.message_id), (5, 77));
                edits += 1;
            }
            None => panic!("expected a request"),
        }
    }
    assert_eq!((sends, edits), (4, 16));
}
