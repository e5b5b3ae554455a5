use vstd::prelude::*;

verus! {

/// One event of a model's answer stream; failures travel in the stream as
/// `Error` events.
#[derive(Debug, PartialEq, Eq)]
pub enum StreamEvent {
    Start,
    TextDelta(String),
    Done,
    Error(String),
}

/// A stream event as a mathematical value.
pub enum StreamEventView {
    Start,
    TextDelta(Seq<char>),
    Done,
    Error(Seq<char>),
}

impl View for StreamEvent {
    type V = StreamEventView;

    open spec fn view(&self) -> StreamEventView {
        match self {
            StreamEvent::Start => StreamEventView::Start,
            StreamEvent::TextDelta(d) => StreamEventView::TextDelta(d@),
            StreamEvent::Done => StreamEventView::Done,
            StreamEvent::Error(m) => StreamEventView::Error(m@),
        }
    }
}

impl Clone for StreamEvent {
    fn clone(&self) -> (r: Self)
        ensures
            r@ == self@,
    {
        match self {
            StreamEvent::Start => StreamEvent::Start,
            StreamEvent::TextDelta(d) => StreamEvent::TextDelta(d.clone()),
            StreamEvent::Done => StreamEvent::Done,
            StreamEvent::Error(m) => StreamEvent::Error(m.clone()),
        }
    }
}

/// The views of a sequence of stream events.
pub open spec fn event_views(events: Seq<StreamEvent>) -> Seq<StreamEventView> {
    events.map_values(|e: StreamEvent| e@)
}

/// Whether an event ends the stream (`Done` or `Error`).
pub open spec fn is_terminal(e: StreamEventView) -> bool {
    e is Done || e is Error
}

/// The text a stream carries: its deltas, concatenated in order, up to the
/// first event that ends the stream.
pub open spec fn stream_text(events: Seq<StreamEventView>) -> Seq<char>
    decreases events.len(),
{
    if events.len() == 0 {
        Seq::empty()
    } else {
        match events[0] {
            StreamEventView::Start => stream_text(events.drop_first()),
            StreamEventView::TextDelta(d) => d + stream_text(events.drop_first()),
            StreamEventView::Done => Seq::empty(),
            StreamEventView::Error(_) => Seq::empty(),
        }
    }
}

/// How many events a consumer reads: all of them up to and including the first
/// that ends the stream, or all of them when none does.
pub open spec fn consumed_count(events: Seq<StreamEventView>) -> nat
    decreases events.len(),
{
    if events.len() == 0 {
        0
    } else if is_terminal(events[0]) {
        1
    } else {
        1 + consumed_count(events.drop_first())
    }
}

/// Collects the text of a stream: the deltas up to the first `Done` or `Error`
/// event; what arrived before an error is kept.
pub fn consume_stream(events: Vec<StreamEvent>) -> (text: String)
    ensures
        text@ == stream_text(event_views(events@)),
{
    let ghost all = event_views(events@);
    let mut text = String::new();
    let mut i: usize = 0;
    assert(all.skip(0) =~= all);
    while i < events.len()
        invariant_except_break
            text@ + stream_text(all.skip(i as int)) == stream_text(all),
        invariant
            i <= events@.len(),
            all == event_views(events@),
        ensures
            text@ == stream_text(all),
        decreases events@.len() - i,
    {
        let ghost rest = all.skip(i as int);
        assert(rest[0] == events@[i as int]@);
        assert(rest.drop_first() =~= all.skip(i + 1));
        match &events[i] {
            StreamEvent::Start => {},
            StreamEvent::TextDelta(delta) => {
                text.append(delta.as_str());
            },
            StreamEvent::Done => {
                break ;
            },
            StreamEvent::Error(_) => {
                break ;
            },
        }
        i = i + 1;
    }
    proof {
        if i == events@.len() {
            assert(all.skip(i as int) =~= Seq::<StreamEventView>::empty());
        }
    }
    text
}

/// How many events of the stream a consumer reads before it stops.
pub fn consumed_len(events: &[StreamEvent]) -> (n: usize)
    ensures
        n == consumed_count(event_views(events@)),
{
    let ghost all = event_views(events@);
    let mut i: usize = 0;
    assert(all.skip(0) =~= all);
    while i < events.len()
        invariant
            i <= events@.len(),
            all == event_views(events@),
            i + consumed_count(all.skip(i as int)) == consumed_count(all),
        decreases events@.len() - i,
    {
        let ghost rest = all.skip(i as int);
        assert(rest[0] == events@[i as int]@);
        assert(rest.drop_first() =~= all.skip(i + 1));
        match &events[i] {
            StreamEvent::Done => {
                return i + 1;
            },
            StreamEvent::Error(_) => {
                return i + 1;
            },
            _ => {},
        }
        i = i + 1;
    }
    assert(all.skip(i as int) =~= Seq::<StreamEventView>::empty());
    i
}

/// The text of a stream is decided by what comes before its first terminal
/// event: events after a `Done` or an `Error` add nothing, and what arrived
/// before an `Error` is kept.
pub proof fn lemma_stream_stops_at_terminal(
    before: Seq<StreamEventView>,
    last: StreamEventView,
    after: Seq<StreamEventView>,
)
    requires
        forall|i: int| 0 <= i < before.len() ==> !is_terminal(#[trigger] before[i]),
        is_terminal(last),
    ensures
        stream_text(before + seq![last] + after) == stream_text(before),
        consumed_count(before + seq![last] + after) == before.len() + 1,
    decreases before.len(),
{
    let all = before + seq![last] + after;
    if before.len() == 0 {
        assert(all[0] == last);
    } else {
        assert(all[0] == before[0]);
        assert(all.drop_first() =~= before.drop_first() + seq![last] + after);
        lemma_stream_stops_at_terminal(before.drop_first(), last, after);
    }
}

/// How each kind of event contributes to the text of a stream: a delta adds
/// its text, whatever it holds, in front of the text of the rest; `Start` adds
/// nothing; `Done` and `Error` end the stream; an empty stream has no text.
pub proof fn lemma_stream_text_by_event(d: Seq<char>, m: Seq<char>, rest: Seq<StreamEventView>)
    ensures
        stream_text(Seq::empty()) == Seq::<char>::empty(),
        stream_text(seq![StreamEventView::TextDelta(d)] + rest) == d + stream_text(rest),
        stream_text(seq![StreamEventView::Start] + rest) == stream_text(rest),
        stream_text(seq![StreamEventView::Done] + rest) == Seq::<char>::empty(),
        stream_text(seq![StreamEventView::Error(m)] + rest) == Seq::<char>::empty(),
{
    assert((seq![StreamEventView::TextDelta(d)] + rest).drop_first() =~= rest);
    assert((seq![StreamEventView::Start] + rest).drop_first() =~= rest);
    assert((seq![StreamEventView::TextDelta(d)] + rest)[0] == StreamEventView::TextDelta(d));
    assert((seq![StreamEventView::Start] + rest)[0] == StreamEventView::Start);
    assert((seq![StreamEventView::Done] + rest)[0] == StreamEventView::Done);
    assert((seq![StreamEventView::Error(m)] + rest)[0] == StreamEventView::Error(m));
}

/// Before its first terminal event a stream's text is additive: the text of
/// `a` followed by `b`, when `a` holds no terminal event, is the text of `a`
/// followed by the text of `b`.
pub proof fn lemma_stream_text_concat(a: Seq<StreamEventView>, b: Seq<StreamEventView>)
    requires
        forall|i: int| 0 <= i < a.len() ==> !is_terminal(#[trigger] a[i]),
    ensures
        stream_text(a + b) == stream_text(a) + stream_text(b),
    decreases a.len(),
{
    if a.len() == 0 {
        assert(a + b =~= b);
    } else {
        let a1 = a.drop_first();
        assert(forall|i: int| 0 <= i < a1.len() ==> a1[i] == a[i + 1]);
        lemma_stream_text_concat(a1, b);
        assert((a + b)[0] == a[0]);
        assert((a + b).drop_first() =~= a1 + b);
        match a[0] {
            StreamEventView::TextDelta(d) => {
                assert(d + (stream_text(a1) + stream_text(b)) =~= (d + stream_text(a1)) + stream_text(b));
            },
            _ => {},
        }
    }
}

} // verus!
