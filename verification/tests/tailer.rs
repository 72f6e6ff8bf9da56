use unicorn_logs::event::Event;
use unicorn_logs::tailer::{Source, Tailer, TailerInput, TailerOutput, TailerState};
use unicorn_logs::timestamp::Timestamp;

fn at(secs: i64) -> Timestamp {
    Timestamp::new(secs, 0).unwrap()
}

fn chunk(source: Source, data: &[u8]) -> TailerInput {
    TailerInput::Chunk { source, data: data.to_vec() }
}

fn streaming(name: &str) -> Tailer {
    let mut tailer = Tailer::new(name.to_string(), at(0));
    assert_eq!(tailer.step(TailerInput::Attached, at(0)), TailerOutput::Idle);
    tailer
}

#[test]
fn new_tailer_is_starting() {
    let tailer = Tailer::new("app".to_string(), at(0));
    assert_eq!(tailer.state(), TailerState::Starting);
    assert_eq!(tailer.name(), "app");
}

#[test]
fn tailer_follows_from_the_moment_it_was_made() {
    let mut tailer = Tailer::new("app".to_string(), at(1_000));
    assert_eq!(tailer.since(), at(1_000));
    tailer.step(TailerInput::Attached, at(1_001));
    tailer.step(chunk(Source::StdOut, b"x"), at(1_002));
    tailer.step(TailerInput::Cancelled, at(1_003));
    assert_eq!(tailer.since(), at(1_000));
}

#[test]
fn attaching_starts_the_streaming() {
    let tailer = streaming("app");
    assert_eq!(tailer.state(), TailerState::Streaming);
}

#[test]
fn output_chunk_becomes_a_log_entry() {
    let mut tailer = streaming("app");
    assert_eq!(
        tailer.step(chunk(Source::StdOut, b"ready\n"), at(100)),
        TailerOutput::Deliver(Event::log("app".to_string(), "ready\n".to_string(), at(100)))
    );
    assert_eq!(tailer.state(), TailerState::Streaming);
}

#[test]
fn error_stream_is_tailed_too() {
    let mut tailer = streaming("app");
    assert_eq!(
        tailer.step(chunk(Source::StdErr, b"oops"), at(7)),
        TailerOutput::Deliver(Event::log("app".to_string(), "oops".to_string(), at(7)))
    );
}

#[test]
fn input_stream_is_passed_over() {
    let mut tailer = streaming("app");
    assert_eq!(tailer.step(chunk(Source::StdIn, b"typed"), at(7)), TailerOutput::Idle);
    assert_eq!(tailer.state(), TailerState::Streaming);
}

#[test]
fn ill_formed_bytes_are_replaced() {
    let mut tailer = streaming("app");
    assert_eq!(
        tailer.step(chunk(Source::StdOut, &[b'a', 0xff, b'b', 0xc3]), at(1)),
        TailerOutput::Deliver(Event::log("app".to_string(), "a\u{fffd}b\u{fffd}".to_string(), at(1)))
    );
}

#[test]
fn multibyte_text_is_decoded() {
    let mut tailer = streaming("app");
    assert_eq!(
        tailer.step(chunk(Source::StdOut, "gr\u{fc}\u{df}e \u{1F980}".as_bytes()), at(1)),
        TailerOutput::Deliver(Event::log("app".to_string(), "gr\u{fc}\u{df}e \u{1F980}".to_string(), at(1)))
    );
}

#[test]
fn empty_chunk_is_an_empty_entry() {
    let mut tailer = streaming("app");
    assert_eq!(
        tailer.step(chunk(Source::StdOut, b""), at(1)),
        TailerOutput::Deliver(Event::log("app".to_string(), String::new(), at(1)))
    );
}

#[test]
fn events_come_in_the_order_of_the_chunks() {
    let mut tailer = streaming("app");
    let mut seen = Vec::new();
    for (n, text) in ["one", "two", "three"].iter().enumerate() {
        if let TailerOutput::Deliver(event) = tailer.step(chunk(Source::StdOut, text.as_bytes()), at(n as i64)) {
            seen.push(event);
        }
    }
    assert_eq!(
        seen,
        vec![
            Event::log("app".to_string(), "one".to_string(), at(0)),
            Event::log("app".to_string(), "two".to_string(), at(1)),
            Event::log("app".to_string(), "three".to_string(), at(2)),
        ]
    );
}

#[test]
fn cancellation_ends_a_streaming_tailer() {
    let mut tailer = streaming("app");
    assert_eq!(tailer.step(TailerInput::Cancelled, at(5)), TailerOutput::Release);
    assert_eq!(tailer.state(), TailerState::Terminated);
}

#[test]
fn cancellation_ends_a_starting_tailer() {
    let mut tailer = Tailer::new("app".to_string(), at(0));
    assert_eq!(tailer.step(TailerInput::Cancelled, at(5)), TailerOutput::Release);
    assert_eq!(tailer.state(), TailerState::Terminated);
}

#[test]
fn nothing_is_delivered_after_cancellation() {
    let mut tailer = streaming("app");
    tailer.step(TailerInput::Cancelled, at(5));
    let later = [
        chunk(Source::StdOut, b"late"),
        chunk(Source::StdErr, b"late"),
        TailerInput::Attached,
        TailerInput::StreamEnded,
        TailerInput::StreamFailed,
        TailerInput::Cancelled,
        TailerInput::Abandoned,
    ];
    for input in later {
        assert_eq!(tailer.step(input, at(6)), TailerOutput::Idle);
        assert_eq!(tailer.state(), TailerState::Terminated);
    }
}

#[test]
fn abandoned_channel_ends_the_tailer() {
    let mut tailer = streaming("db");
    assert_eq!(tailer.step(TailerInput::Abandoned, at(5)), TailerOutput::Release);
    assert_eq!(tailer.state(), TailerState::Terminated);
    assert_eq!(tailer.step(chunk(Source::StdOut, b"late"), at(6)), TailerOutput::Idle);
}

#[test]
fn end_of_stream_ends_the_tailer() {
    let mut tailer = streaming("app");
    assert_eq!(tailer.step(TailerInput::StreamEnded, at(5)), TailerOutput::Release);
    assert_eq!(tailer.state(), TailerState::Terminated);
}

#[test]
fn stream_error_ends_the_tailer() {
    let mut tailer = streaming("app");
    assert_eq!(tailer.step(TailerInput::StreamFailed, at(5)), TailerOutput::Release);
    assert_eq!(tailer.state(), TailerState::Terminated);
}

#[test]
fn failure_to_attach_ends_the_tailer() {
    let mut tailer = Tailer::new("app".to_string(), at(0));
    assert_eq!(tailer.step(TailerInput::StreamFailed, at(5)), TailerOutput::Release);
    assert_eq!(tailer.state(), TailerState::Terminated);
}

#[test]
fn first_chunk_starts_the_streaming() {
    let mut tailer = Tailer::new("app".to_string(), at(0));
    assert_eq!(
        tailer.step(chunk(Source::StdOut, b"early"), at(5)),
        TailerOutput::Deliver(Event::log("app".to_string(), "early".to_string(), at(5)))
    );
    assert_eq!(tailer.state(), TailerState::Streaming);
}

#[test]
fn attaching_twice_changes_nothing() {
    let mut tailer = streaming("app");
    assert_eq!(tailer.step(TailerInput::Attached, at(5)), TailerOutput::Idle);
    assert_eq!(tailer.state(), TailerState::Streaming);
}

#[test]
fn text_of_a_chunk_is_delivered_as_given() {
    let tailer = streaming("app");
    assert_eq!(
        tailer.on_text(Source::StdErr, "warn: disk".to_string(), at(9)),
        TailerOutput::Deliver(Event::log("app".to_string(), "warn: disk".to_string(), at(9)))
    );
    assert_eq!(tailer.on_text(Source::StdIn, "typed".to_string(), at(9)), TailerOutput::Idle);
    let mut ended = streaming("app");
    ended.step(TailerInput::Cancelled, at(9));
    assert_eq!(ended.on_text(Source::StdOut, "late".to_string(), at(9)), TailerOutput::Idle);
}
