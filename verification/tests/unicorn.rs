use unicorn_logs::event::Event;
use unicorn_logs::store::LogItem;
use unicorn_logs::timestamp::Timestamp;
use unicorn_logs::unicorn::{Delivery, Unicorn, SUBSCRIBER_BUFFER};
use unicorn_logs::wire::DecodeError;

fn event(text: &str) -> Event {
    Event::log("app".to_string(), text.to_string(), Timestamp::new(1_700_000_000, 0).unwrap())
}

fn item(text: &str) -> LogItem {
    LogItem::new("10.0.0.1:4000".to_string(), event(text))
}

fn items(texts: &[&str]) -> Vec<LogItem> {
    texts.iter().map(|t| item(t)).collect()
}

/// Everything that waits for the subscriber at this moment.
fn drain(unicorn: &mut Unicorn, id: u64) -> Vec<Delivery> {
    let mut seen = Vec::new();
    loop {
        match unicorn.next_delivery(id) {
            Delivery::Idle => return seen,
            Delivery::Closed => {
                seen.push(Delivery::Closed);
                return seen;
            }
            other => seen.push(other),
        }
    }
}

fn delivered(texts: &[&str]) -> Vec<Delivery> {
    texts.iter().map(|t| Delivery::Item(item(t))).collect()
}

#[test]
fn subscriber_gets_the_history_as_snapshot() {
    let mut unicorn = Unicorn::new(10);
    unicorn.ingest(item("A"));
    unicorn.ingest(item("B"));
    let (id, snapshot) = unicorn.subscribe();
    assert_eq!(snapshot, items(&["A", "B"]));
    assert_eq!(unicorn.next_delivery(id), Delivery::Idle);
}

#[test]
fn push_before_subscribe_is_in_the_snapshot_only() {
    let mut unicorn = Unicorn::new(10);
    unicorn.ingest(item("A"));
    unicorn.ingest(item("B"));
    unicorn.ingest(item("C"));
    let (id, snapshot) = unicorn.subscribe();
    assert_eq!(snapshot, items(&["A", "B", "C"]));
    assert_eq!(drain(&mut unicorn, id), Vec::<Delivery>::new());
}

#[test]
fn push_after_subscribe_is_in_the_tail_only() {
    let mut unicorn = Unicorn::new(10);
    unicorn.ingest(item("A"));
    unicorn.ingest(item("B"));
    let (id, snapshot) = unicorn.subscribe();
    unicorn.ingest(item("C"));
    assert_eq!(snapshot, items(&["A", "B"]));
    assert_eq!(drain(&mut unicorn, id), delivered(&["C"]));
    assert_eq!(drain(&mut unicorn, id), Vec::<Delivery>::new());
}

#[test]
fn tail_is_delivered_in_push_order() {
    let mut unicorn = Unicorn::new(2);
    let (id, snapshot) = unicorn.subscribe();
    assert!(snapshot.is_empty());
    for text in ["A", "B", "C", "D"] {
        unicorn.ingest(item(text));
    }
    assert_eq!(drain(&mut unicorn, id), delivered(&["A", "B", "C", "D"]));
    assert_eq!(unicorn.snapshot(), items(&["C", "D"]));
}

#[test]
fn every_subscriber_gets_every_item() {
    let mut unicorn = Unicorn::new(10);
    let (first, _) = unicorn.subscribe();
    unicorn.ingest(item("A"));
    let (second, snapshot) = unicorn.subscribe();
    unicorn.ingest(item("B"));
    assert_ne!(first, second);
    assert_eq!(snapshot, items(&["A"]));
    assert_eq!(drain(&mut unicorn, first), delivered(&["A", "B"]));
    assert_eq!(drain(&mut unicorn, second), delivered(&["B"]));
}

#[test]
fn deliveries_of_one_do_not_touch_another() {
    let mut unicorn = Unicorn::new(10);
    let (first, _) = unicorn.subscribe();
    let (second, _) = unicorn.subscribe();
    unicorn.ingest(item("A"));
    assert_eq!(unicorn.next_delivery(first), Delivery::Item(item("A")));
    assert_eq!(unicorn.next_delivery(first), Delivery::Idle);
    assert_eq!(unicorn.next_delivery(second), Delivery::Item(item("A")));
}

#[test]
fn slow_subscriber_sees_a_gap_and_goes_on() {
    let mut unicorn = Unicorn::with_buffer(10, 2);
    let (slow, _) = unicorn.subscribe();
    let (fast, _) = unicorn.subscribe();
    let mut fast_seen = Vec::new();
    for text in ["A", "B", "C", "D", "E"] {
        unicorn.ingest(item(text));
        fast_seen.extend(drain(&mut unicorn, fast));
    }
    assert_eq!(fast_seen, delivered(&["A", "B", "C", "D", "E"]));
    assert_eq!(
        drain(&mut unicorn, slow),
        vec![Delivery::Gap(3), Delivery::Item(item("D")), Delivery::Item(item("E"))]
    );
    unicorn.ingest(item("F"));
    assert_eq!(drain(&mut unicorn, slow), delivered(&["F"]));
}

#[test]
fn gap_counts_every_lost_item() {
    let mut unicorn = Unicorn::with_buffer(0, 1);
    let (id, _) = unicorn.subscribe();
    unicorn.ingest(item("A"));
    unicorn.ingest(item("B"));
    assert_eq!(unicorn.next_delivery(id), Delivery::Gap(1));
    unicorn.ingest(item("C"));
    assert_eq!(unicorn.next_delivery(id), Delivery::Gap(1));
    assert_eq!(unicorn.next_delivery(id), Delivery::Item(item("C")));
    assert_eq!(unicorn.next_delivery(id), Delivery::Idle);
}

#[test]
fn buffer_of_zero_loses_everything() {
    let mut unicorn = Unicorn::with_buffer(5, 0);
    let (id, _) = unicorn.subscribe();
    unicorn.ingest(item("A"));
    unicorn.ingest(item("B"));
    assert_eq!(drain(&mut unicorn, id), vec![Delivery::Gap(2)]);
    assert_eq!(unicorn.snapshot(), items(&["A", "B"]));
}

#[test]
fn default_buffer_holds_a_thousand() {
    assert_eq!(SUBSCRIBER_BUFFER, 1000);
    let mut unicorn = Unicorn::new(1);
    let (id, _) = unicorn.subscribe();
    for n in 0..1001 {
        unicorn.ingest(item(&format!("{n}")));
    }
    assert_eq!(unicorn.next_delivery(id), Delivery::Gap(1));
    assert_eq!(unicorn.next_delivery(id), Delivery::Item(item("1")));
    assert_eq!(drain(&mut unicorn, id).len(), 999);
}

#[test]
fn unknown_subscription_is_closed() {
    let mut unicorn = Unicorn::new(10);
    assert_eq!(unicorn.next_delivery(0), Delivery::Closed);
    let (id, _) = unicorn.subscribe();
    assert_eq!(unicorn.next_delivery(id + 1), Delivery::Closed);
}

#[test]
fn dropped_subscription_gets_nothing_more() {
    let mut unicorn = Unicorn::new(10);
    let (gone, _) = unicorn.subscribe();
    let (stays, _) = unicorn.subscribe();
    unicorn.ingest(item("A"));
    unicorn.unsubscribe(gone);
    unicorn.ingest(item("B"));
    assert_eq!(unicorn.next_delivery(gone), Delivery::Closed);
    assert_eq!(drain(&mut unicorn, stays), delivered(&["A", "B"]));
    unicorn.unsubscribe(gone);
    unicorn.ingest(item("C"));
    assert_eq!(unicorn.next_delivery(gone), Delivery::Closed);
    assert_eq!(drain(&mut unicorn, stays), delivered(&["C"]));
}

#[test]
fn subscription_numbers_are_not_reused() {
    let mut unicorn = Unicorn::new(10);
    let (first, _) = unicorn.subscribe();
    unicorn.unsubscribe(first);
    let (second, _) = unicorn.subscribe();
    assert_ne!(first, second);
    assert_eq!(unicorn.next_delivery(first), Delivery::Closed);
    assert_eq!(unicorn.next_delivery(second), Delivery::Idle);
}

#[test]
fn push_stores_without_publishing() {
    let mut unicorn = Unicorn::new(10);
    let (id, _) = unicorn.subscribe();
    unicorn.push(item("A"));
    assert_eq!(unicorn.snapshot(), items(&["A"]));
    assert_eq!(unicorn.next_delivery(id), Delivery::Idle);
}

#[test]
fn publish_delivers_without_storing() {
    let mut unicorn = Unicorn::new(10);
    let (id, _) = unicorn.subscribe();
    unicorn.publish(&item("A"));
    assert!(unicorn.snapshot().is_empty());
    assert_eq!(unicorn.next_delivery(id), Delivery::Item(item("A")));
}

#[test]
fn publish_without_subscribers_is_a_no_op() {
    let mut unicorn = Unicorn::new(10);
    unicorn.publish(&item("A"));
    let (id, snapshot) = unicorn.subscribe();
    assert!(snapshot.is_empty());
    assert_eq!(unicorn.next_delivery(id), Delivery::Idle);
}

#[test]
fn send_log_stores_and_publishes_the_decoded_event() {
    let mut unicorn = Unicorn::new(10);
    let (id, _) = unicorn.subscribe();
    let sent = event("hello");
    assert_eq!(unicorn.send_log(&sent.to_bytes(), "192.168.1.7:51000".to_string()), Ok(()));
    let expected = LogItem::new("192.168.1.7:51000".to_string(), sent);
    assert_eq!(unicorn.snapshot(), vec![expected.clone()]);
    assert_eq!(unicorn.next_delivery(id), Delivery::Item(expected));
}

#[test]
fn send_log_rejects_malformed_bytes() {
    let mut unicorn = Unicorn::new(10);
    let (id, _) = unicorn.subscribe();
    unicorn.ingest(item("A"));
    assert_eq!(drain(&mut unicorn, id), delivered(&["A"]));
    assert_eq!(unicorn.send_log(&[1, 2, 3], "h:1".to_string()), Err(DecodeError::Malformed));
    let mut unknown = event("x").to_bytes();
    unknown[0] = 7;
    assert_eq!(unicorn.send_log(&unknown, "h:1".to_string()), Err(DecodeError::UnknownVariant));
    assert_eq!(unicorn.snapshot(), items(&["A"]));
    assert_eq!(unicorn.next_delivery(id), Delivery::Idle);
}

#[test]
fn send_log_keeps_the_order_of_arrival() {
    let mut unicorn = Unicorn::new(10);
    let later = Event::log("a".to_string(), "sent first".to_string(), Timestamp::new(900, 0).unwrap());
    let earlier = Event::log("b".to_string(), "sent second".to_string(), Timestamp::new(100, 0).unwrap());
    unicorn.send_log(&later.to_bytes(), "one:1".to_string()).unwrap();
    unicorn.send_log(&earlier.to_bytes(), "two:2".to_string()).unwrap();
    assert_eq!(
        unicorn.snapshot(),
        vec![LogItem::new("one:1".to_string(), later), LogItem::new("two:2".to_string(), earlier)]
    );
}
