use rust_course::stream::consumed_len;
use rust_course::{consume_stream, StreamEvent};

#[test]
fn stream_text_is_collected_until_done() {
    let events = vec![
        StreamEvent::Start,
        StreamEvent::TextDelta("streaming ".into()),
        StreamEvent::TextDelta("works".into()),
        StreamEvent::Done,
        StreamEvent::TextDelta("ignored".into()),
    ];
    assert_eq!(consumed_len(&events), 4);
    assert_eq!(consume_stream(events), "streaming works");
}

#[test]
fn partial_text_is_kept_on_error() {
    let events = vec![
        StreamEvent::Start,
        StreamEvent::TextDelta("partial answer before failure".into()),
        StreamEvent::Error("simulated network drop encoded as data".into()),
        StreamEvent::TextDelta("after".into()),
    ];
    assert_eq!(consumed_len(&events), 3);
    assert_eq!(consume_stream(events), "partial answer before failure");
}

#[test]
fn stream_without_terminal_event_is_read_whole() {
    let events = vec![StreamEvent::TextDelta("a".into()), StreamEvent::TextDelta("b".into())];
    assert_eq!(consumed_len(&events), 2);
    assert_eq!(consume_stream(events.clone()), "ab");
    assert_eq!(consume_stream(vec![]), "");
    assert_eq!(consumed_len(&[]), 0);
}
