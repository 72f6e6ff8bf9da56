use unicorn_logs::event::Event;
use unicorn_logs::forwarder::{Forwarder, Intake, INTAKE_LIMIT};
use unicorn_logs::timestamp::Timestamp;

fn event(text: &str) -> Event {
    Event::log("app".to_string(), text.to_string(), Timestamp::new(1_700_000_000, 0).unwrap())
}

#[test]
fn new_forwarder_has_nothing_to_send() {
    let mut forwarder = Forwarder::new(4);
    assert_eq!(forwarder.next_submission(), None);
    assert_eq!(forwarder.waiting(), 0);
    assert!(!forwarder.has_failed());
    assert_eq!(forwarder.in_flight(), None);
}

#[test]
fn intake_limit_of_the_collecting_side() {
    assert_eq!(INTAKE_LIMIT, 10_000);
}

#[test]
fn submission_is_the_encoding_of_the_event() {
    let mut forwarder = Forwarder::new(4);
    assert_eq!(forwarder.log(1, event("A")), Intake::Queued);
    assert_eq!(forwarder.next_submission(), Some(event("A").to_bytes()));
    assert_eq!(forwarder.in_flight(), Some(&event("A")));
}

#[test]
fn events_leave_in_arrival_order() {
    let mut forwarder = Forwarder::new(8);
    let texts = ["A", "B", "C", "D"];
    for text in texts {
        assert_eq!(forwarder.log(1, event(text)), Intake::Queued);
    }
    let mut sent = Vec::new();
    while let Some(bytes) = forwarder.next_submission() {
        sent.push(Event::from_bytes(&bytes).unwrap());
        forwarder.settle(true);
    }
    assert_eq!(sent, texts.iter().map(|t| event(t)).collect::<Vec<_>>());
    assert_eq!(forwarder.waiting(), 0);
}

#[test]
fn one_submission_at_a_time() {
    let mut forwarder = Forwarder::new(8);
    forwarder.log(1, event("A"));
    forwarder.log(1, event("B"));
    assert_eq!(forwarder.next_submission(), Some(event("A").to_bytes()));
    assert_eq!(forwarder.next_submission(), None);
    assert_eq!(forwarder.waiting(), 1);
    forwarder.settle(true);
    assert_eq!(forwarder.in_flight(), None);
    assert_eq!(forwarder.next_submission(), Some(event("B").to_bytes()));
}

#[test]
fn events_that_arrive_during_a_submission_wait() {
    let mut forwarder = Forwarder::new(8);
    forwarder.log(1, event("A"));
    assert!(forwarder.next_submission().is_some());
    assert_eq!(forwarder.log(1, event("B")), Intake::Queued);
    assert_eq!(forwarder.next_submission(), None);
    forwarder.settle(true);
    assert_eq!(forwarder.next_submission(), Some(event("B").to_bytes()));
}

#[test]
fn full_intake_hands_the_event_back() {
    let mut forwarder = Forwarder::new(2);
    assert_eq!(forwarder.log(1, event("A")), Intake::Queued);
    assert_eq!(forwarder.log(1, event("B")), Intake::Queued);
    assert_eq!(forwarder.log(1, event("C")), Intake::Full(event("C")));
    assert_eq!(forwarder.waiting(), 2);
    assert!(forwarder.next_submission().is_some());
    assert_eq!(forwarder.log(1, event("C")), Intake::Queued);
}

#[test]
fn limit_is_each_producers_own() {
    let mut forwarder = Forwarder::new(2);
    assert_eq!(forwarder.log(7, event("A")), Intake::Queued);
    assert_eq!(forwarder.log(7, event("B")), Intake::Queued);
    assert_eq!(forwarder.log(7, event("C")), Intake::Full(event("C")));
    assert_eq!(forwarder.log(8, event("D")), Intake::Queued);
    assert_eq!(forwarder.log(8, event("E")), Intake::Queued);
    assert_eq!(forwarder.log(8, event("F")), Intake::Full(event("F")));
    assert_eq!(forwarder.log(u64::MAX, event("G")), Intake::Queued);
    assert_eq!(forwarder.waiting(), 5);
    assert_eq!(forwarder.waiting_of(7), 2);
    assert_eq!(forwarder.waiting_of(8), 2);
    assert_eq!(forwarder.waiting_of(u64::MAX), 1);
    assert_eq!(forwarder.waiting_of(9), 0);
}

#[test]
fn producers_are_served_in_arrival_order() {
    let mut forwarder = Forwarder::new(4);
    forwarder.log(2, event("A"));
    forwarder.log(1, event("B"));
    forwarder.log(2, event("C"));
    forwarder.log(1, event("D"));
    let mut sent = Vec::new();
    while let Some(bytes) = forwarder.next_submission() {
        sent.push(Event::from_bytes(&bytes).unwrap());
        forwarder.settle(true);
    }
    assert_eq!(sent, vec![event("A"), event("B"), event("C"), event("D")]);
}

#[test]
fn a_submission_frees_a_place_for_its_producer() {
    let mut forwarder = Forwarder::new(1);
    assert_eq!(forwarder.log(1, event("A")), Intake::Queued);
    assert_eq!(forwarder.log(2, event("B")), Intake::Queued);
    assert_eq!(forwarder.log(2, event("C")), Intake::Full(event("C")));
    assert!(forwarder.next_submission().is_some());
    assert_eq!(forwarder.waiting_of(1), 0);
    assert_eq!(forwarder.waiting_of(2), 1);
    assert_eq!(forwarder.log(1, event("D")), Intake::Queued);
    assert_eq!(forwarder.log(2, event("C")), Intake::Full(event("C")));
}

#[test]
fn intake_of_zero_takes_nothing() {
    let mut forwarder = Forwarder::new(0);
    assert_eq!(forwarder.log(1, event("A")), Intake::Full(event("A")));
    assert_eq!(forwarder.next_submission(), None);
}

#[test]
fn failed_submission_stops_the_forwarder() {
    let mut forwarder = Forwarder::new(8);
    forwarder.log(1, event("A"));
    forwarder.log(1, event("B"));
    assert!(forwarder.next_submission().is_some());
    forwarder.settle(false);
    assert!(forwarder.has_failed());
    assert_eq!(forwarder.in_flight(), Some(&event("A")));
    assert_eq!(forwarder.next_submission(), None);
    assert_eq!(forwarder.waiting(), 1);
}

#[test]
fn failure_is_not_undone_by_a_later_report() {
    let mut forwarder = Forwarder::new(8);
    forwarder.log(1, event("A"));
    assert!(forwarder.next_submission().is_some());
    forwarder.settle(false);
    forwarder.settle(true);
    assert!(forwarder.has_failed());
    assert_eq!(forwarder.in_flight(), Some(&event("A")));
    assert_eq!(forwarder.next_submission(), None);
}

#[test]
fn failed_forwarder_hands_events_back() {
    let mut forwarder = Forwarder::new(8);
    forwarder.log(1, event("A"));
    assert!(forwarder.next_submission().is_some());
    forwarder.settle(false);
    assert_eq!(forwarder.log(1, event("B")), Intake::Failed(event("B")));
    assert_eq!(forwarder.waiting(), 0);
}

#[test]
fn report_without_a_submission_changes_nothing() {
    let mut forwarder = Forwarder::new(8);
    forwarder.settle(false);
    assert!(!forwarder.has_failed());
    forwarder.log(1, event("A"));
    forwarder.settle(false);
    assert!(!forwarder.has_failed());
    assert_eq!(forwarder.next_submission(), Some(event("A").to_bytes()));
}
