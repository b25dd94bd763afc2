use live_captions::caption::{CaptionEvent, Position, Style};
use live_captions::hub::{Hub, ReceiveOutcome};

fn event(text: &str) -> CaptionEvent {
    CaptionEvent {
        text: text.to_string(),
        speaker: Some("narrator".to_string()),
        style: Style {
            color: "#FFFFFF".to_string(),
            font_size: "24px".to_string(),
            font_family: "Helvetica".to_string(),
            position: Position {
                x: "50%".to_string(),
                y: "80%".to_string(),
            },
        },
        media: None,
    }
}

#[test]
fn slow_subscriber_sees_one_lag_then_newest_events() {
    // Capacity 2, five events published, no receive in between:
    // exactly one Lagged(3), then the 2 most recent events in order.
    let mut hub = Hub::new(2);
    let sub = hub.subscribe();
    for i in 0..5 {
        hub.publish(&event(&format!("event{}", i)));
    }
    match hub.receive(sub) {
        ReceiveOutcome::Lagged(n) => assert_eq!(n, 3),
        other => panic!("expected Lagged(3), got {:?}", other),
    }
    match hub.receive(sub) {
        ReceiveOutcome::Event(e) => assert_eq!(e.text, "event3"),
        other => panic!("expected event3, got {:?}", other),
    }
    match hub.receive(sub) {
        ReceiveOutcome::Event(e) => assert_eq!(e.text, "event4"),
        other => panic!("expected event4, got {:?}", other),
    }
    // The lag was reported exactly once; nothing else is pending.
    assert!(matches!(hub.receive(sub), ReceiveOutcome::Pending));
}

#[test]
fn keeping_up_subscriber_sees_every_event_in_order() {
    let mut hub = Hub::new(4);
    let sub = hub.subscribe();
    hub.publish(&event("a"));
    hub.publish(&event("b"));
    match hub.receive(sub) {
        ReceiveOutcome::Event(e) => assert_eq!(e.text, "a"),
        other => panic!("expected a, got {:?}", other),
    }
    match hub.receive(sub) {
        ReceiveOutcome::Event(e) => assert_eq!(e.text, "b"),
        other => panic!("expected b, got {:?}", other),
    }
    assert!(matches!(hub.receive(sub), ReceiveOutcome::Pending));
}

#[test]
fn unsubscribe_then_publish_delivers_nothing_to_removed_handle() {
    let mut hub = Hub::new(4);
    let keep = hub.subscribe();
    let gone = hub.subscribe();
    hub.unsubscribe(gone);
    // Unsubscribing twice is fine, and publishing afterwards must not
    // error.
    hub.unsubscribe(gone);
    hub.publish(&event("after removal"));
    // The removed handle gets nothing: its subscription no longer exists.
    assert!(matches!(hub.receive(gone), ReceiveOutcome::Closed));
    // The other subscriber still receives normally.
    match hub.receive(keep) {
        ReceiveOutcome::Event(e) => assert_eq!(e.text, "after removal"),
        other => panic!("expected delivery, got {:?}", other),
    }
}

#[test]
fn one_event_reaches_every_subscriber_as_its_own_copy() {
    let mut hub = Hub::new(4);
    let s1 = hub.subscribe();
    let s2 = hub.subscribe();
    let s3 = hub.subscribe();
    hub.publish(&event("shared"));
    let mut copies = Vec::new();
    for s in [s1, s2, s3] {
        match hub.receive(s) {
            ReceiveOutcome::Event(e) => copies.push(e),
            other => panic!("expected delivery, got {:?}", other),
        }
    }
    for c in &copies {
        assert_eq!(c.text, "shared");
        assert_eq!(c.speaker.as_deref(), Some("narrator"));
    }
    // The copies are independently owned: mutating one leaves the others
    // untouched.
    copies[0].text.push_str(" (defaced)");
    assert_eq!(copies[1].text, "shared");
    assert_eq!(copies[2].text, "shared");
}

#[test]
fn closing_the_hub_unblocks_receivers_with_closed() {
    let mut hub = Hub::new(4);
    let sub = hub.subscribe();
    // The session is "blocked": nothing pending, it would poll again.
    assert!(matches!(hub.receive(sub), ReceiveOutcome::Pending));
    hub.close();
    // The very next poll reports Closed; no further waiting.
    assert!(matches!(hub.receive(sub), ReceiveOutcome::Closed));
    // Publishing on a closed hub is a no-op and receive stays Closed.
    hub.publish(&event("ignored"));
    assert!(matches!(hub.receive(sub), ReceiveOutcome::Closed));
}

#[test]
fn subscription_starts_without_backlog() {
    let mut hub = Hub::new(4);
    hub.publish(&event("before attach"));
    let late = hub.subscribe();
    assert!(matches!(hub.receive(late), ReceiveOutcome::Pending));
}
