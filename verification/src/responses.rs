use vstd::prelude::*;

use crate::bash::{plan_calls, plan_views, plans_of, CallPlan};

verus! {

/// One part of a message's content.
#[derive(Debug, PartialEq, Eq)]
pub enum ContentPart {
    InputText { text: String },
    OutputText { text: String },
    Other,
}

/// A content part as a mathematical value.
pub enum ContentPartView {
    InputText { text: Seq<char> },
    OutputText { text: Seq<char> },
    Other,
}

impl View for ContentPart {
    type V = ContentPartView;

    open spec fn view(&self) -> ContentPartView {
        match self {
            ContentPart::InputText { text } => ContentPartView::InputText { text: text@ },
            ContentPart::OutputText { text } => ContentPartView::OutputText { text: text@ },
            ContentPart::Other => ContentPartView::Other,
        }
    }
}

impl Clone for ContentPart {
    fn clone(&self) -> (r: Self)
        ensures
            r@ == self@,
    {
        match self {
            ContentPart::InputText { text } => ContentPart::InputText { text: text.clone() },
            ContentPart::OutputText { text } => ContentPart::OutputText { text: text.clone() },
            ContentPart::Other => ContentPart::Other,
        }
    }
}

/// The views of a sequence of content parts.
pub open spec fn part_views(parts: Seq<ContentPart>) -> Seq<ContentPartView> {
    parts.map_values(|p: ContentPart| p@)
}

/// One item of the conversation that is sent to the model, in the order it
/// happened.
#[derive(Debug, PartialEq, Eq)]
pub enum InputItem {
    Message { role: String, content: Vec<ContentPart> },
    FunctionCall { name: String, arguments: String, call_id: String },
    FunctionCallOutput { call_id: String, output: String },
    Other,
}

/// An input item as a mathematical value.
pub enum InputItemView {
    Message { role: Seq<char>, content: Seq<ContentPartView> },
    FunctionCall { name: Seq<char>, arguments: Seq<char>, call_id: Seq<char> },
    FunctionCallOutput { call_id: Seq<char>, output: Seq<char> },
    Other,
}

impl View for InputItem {
    type V = InputItemView;

    open spec fn view(&self) -> InputItemView {
        match self {
            InputItem::Message { role, content } => InputItemView::Message {
                role: role@,
                content: part_views(content@),
            },
            InputItem::FunctionCall { name, arguments, call_id } => InputItemView::FunctionCall {
                name: name@,
                arguments: arguments@,
                call_id: call_id@,
            },
            InputItem::FunctionCallOutput { call_id, output } => InputItemView::FunctionCallOutput {
                call_id: call_id@,
                output: output@,
            },
            InputItem::Other => InputItemView::Other,
        }
    }
}

/// Copies of the content parts, in order.
fn clone_parts(parts: &Vec<ContentPart>) -> (r: Vec<ContentPart>)
    ensures
        part_views(r@) == part_views(parts@),
{
    let mut r: Vec<ContentPart> = Vec::new();
    let mut i: usize = 0;
    while i < parts.len()
        invariant
            i <= parts@.len(),
            r@.len() == i,
            forall|k: int| 0 <= k < i ==> #[trigger] r@[k]@ == parts@[k]@,
        decreases parts@.len() - i,
    {
        r.push(parts[i].clone());
        i = i + 1;
    }
    assert(part_views(r@) =~= part_views(parts@));
    r
}

impl Clone for InputItem {
    fn clone(&self) -> (r: Self)
        ensures
            r@ == self@,
    {
        match self {
            InputItem::Message { role, content } => InputItem::Message {
                role: role.clone(),
                content: clone_parts(content),
            },
            InputItem::FunctionCall { name, arguments, call_id } => InputItem::FunctionCall {
                name: name.clone(),
                arguments: arguments.clone(),
                call_id: call_id.clone(),
            },
            InputItem::FunctionCallOutput { call_id, output } => InputItem::FunctionCallOutput {
                call_id: call_id.clone(),
                output: output.clone(),
            },
            InputItem::Other => InputItem::Other,
        }
    }
}

/// The views of a sequence of input items.
pub open spec fn item_views(items: Seq<InputItem>) -> Seq<InputItemView> {
    items.map_values(|i: InputItem| i@)
}

/// One event of the model's answer stream.
#[derive(Debug, PartialEq, Eq)]
pub enum SseEvent {
    OutputItemDone { item: InputItem },
    Completed,
    Failed,
    Incomplete,
    Other,
}

/// A stream event as a mathematical value.
pub enum SseEventView {
    OutputItemDone { item: InputItemView },
    Completed,
    Failed,
    Incomplete,
    Other,
}

impl View for SseEvent {
    type V = SseEventView;

    open spec fn view(&self) -> SseEventView {
        match self {
            SseEvent::OutputItemDone { item } => SseEventView::OutputItemDone { item: item@ },
            SseEvent::Completed => SseEventView::Completed,
            SseEvent::Failed => SseEventView::Failed,
            SseEvent::Incomplete => SseEventView::Incomplete,
            SseEvent::Other => SseEventView::Other,
        }
    }
}

/// The views of a sequence of stream events.
pub open spec fn sse_views(events: Seq<SseEvent>) -> Seq<SseEventView> {
    events.map_values(|e: SseEvent| e@)
}

/// Why a turn of the agent cannot go on.
#[derive(Debug, PartialEq, Eq)]
pub enum AgentError {
    /// The backend answered 401: the login has to be renewed.
    Unauthorized,
    /// The backend answered with another status that is not a success.
    Api { status: u16, body: String },
    /// The answer stream reported that the response failed or is incomplete.
    Incomplete,
}

/// Whether an HTTP status is a success (200 to 299).
pub open spec fn is_success(status: u16) -> bool {
    200 <= status <= 299
}

/// Decides from the backend's status whether its answer can be used: 401 means
/// the login has expired, any other status outside 200..=299 is an API error
/// that carries the answer's body.
pub fn check_response(status: u16, body: &str) -> (r: Result<(), AgentError>)
    ensures
        match r {
            Ok(()) => is_success(status),
            Err(AgentError::Unauthorized) => status == 401,
            Err(AgentError::Api { status: s, body: b }) => status != 401 && !is_success(status)
                && s == status && b@ == body@,
            Err(AgentError::Incomplete) => false,
        },
{
    if status == 401 {
        return Err(AgentError::Unauthorized);
    }
    if !(200 <= status && status <= 299) {
        return Err(AgentError::Api { status, body: String::from_str(body) });
    }
    Ok(())
}

/// A function call the model asked for in a turn.
#[derive(Debug, PartialEq, Eq)]
pub struct PendingCall {
    pub name: String,
    pub arguments: String,
    pub call_id: String,
}

/// A pending call as a mathematical value.
pub struct PendingCallView {
    pub name: Seq<char>,
    pub arguments: Seq<char>,
    pub call_id: Seq<char>,
}

impl View for PendingCall {
    type V = PendingCallView;

    open spec fn view(&self) -> PendingCallView {
        PendingCallView { name: self.name@, arguments: self.arguments@, call_id: self.call_id@ }
    }
}

/// The views of a sequence of pending calls.
pub open spec fn pending_views(calls: Seq<PendingCall>) -> Seq<PendingCallView> {
    calls.map_values(|c: PendingCall| c@)
}

/// What a turn leaves to do: the function calls to run, in order, and the text
/// the model wrote.
pub struct TurnPlan {
    pub calls: Vec<PendingCall>,
    pub final_text: String,
}

/// The state of reading a turn's events: the items added to the
/// conversation, the calls found, the text found, and whether the turn failed.
pub struct TurnState {
    pub appended: Seq<InputItemView>,
    pub calls: Seq<PendingCallView>,
    pub text: Seq<char>,
    pub failed: bool,
}

/// The state before any event of the turn is read.
pub open spec fn turn_start() -> TurnState {
    TurnState { appended: Seq::empty(), calls: Seq::empty(), text: Seq::empty(), failed: false }
}

/// The output text of a message's content: its output-text parts, concatenated
/// in order.
pub open spec fn output_text(parts: Seq<ContentPartView>) -> Seq<char>
    decreases parts.len(),
{
    if parts.len() == 0 {
        Seq::empty()
    } else {
        let rest = output_text(parts.drop_last());
        match parts.last() {
            ContentPartView::OutputText { text } => rest + text,
            _ => rest,
        }
    }
}

/// The state after reading one more event (that is not a failure): a function
/// call is recorded as a call to run and added to the conversation; a message
/// adds its output text and is added to the conversation; anything else is
/// passed over.
pub open spec fn read_event(st: TurnState, e: SseEventView) -> TurnState {
    match e {
        SseEventView::OutputItemDone { item } => match item {
            InputItemView::FunctionCall { name, arguments, call_id } => TurnState {
                appended: st.appended.push(item),
                calls: st.calls.push(PendingCallView { name, arguments, call_id }),
                ..st
            },
            InputItemView::Message { role, content } => TurnState {
                appended: st.appended.push(item),
                text: st.text + output_text(content),
                ..st
            },
            _ => st,
        },
        _ => st,
    }
}

/// Whether an event reports that the response failed or is incomplete.
pub open spec fn is_failure(e: SseEventView) -> bool {
    e is Failed || e is Incomplete
}

/// The state after reading `events` from `st` on: events are read in order
/// until one reports a failure, which stops the reading.
pub open spec fn read_events(st: TurnState, events: Seq<SseEventView>) -> TurnState
    decreases events.len(),
{
    if events.len() == 0 {
        st
    } else if is_failure(events[0]) {
        TurnState { failed: true, ..st }
    } else {
        read_events(read_event(st, events[0]), events.drop_first())
    }
}

/// The concatenated output text of the parts, as a string.
fn output_text_of(parts: &Vec<ContentPart>, text: &mut String)
    ensures
        final(text)@ == old(text)@ + output_text(part_views(parts@)),
{
    let ghost start = text@;
    let mut i: usize = 0;
    assert(part_views(parts@).take(0) =~= Seq::<ContentPartView>::empty());
    while i < parts.len()
        invariant
            i <= parts@.len(),
            text@ == start + output_text(part_views(parts@).take(i as int)),
        decreases parts@.len() - i,
    {
        let ghost upto = part_views(parts@).take(i + 1);
        assert(upto.drop_last() =~= part_views(parts@).take(i as int));
        assert(upto.last() == parts@[i as int]@);
        match &parts[i] {
            ContentPart::OutputText { text: t } => {
                text.append(t.as_str());
            },
            _ => {},
        }
        i = i + 1;
    }
    assert(part_views(parts@).take(i as int) =~= part_views(parts@));
}

/// Reads one turn's answer stream: every function call and every message is
/// appended to `input` in the order it arrived; the calls are collected to be
/// run, and the messages' output text is collected. An event that reports a
/// failed or incomplete response ends the turn with an error, after the items
/// read before it were appended.
pub fn absorb_turn(input: &mut Vec<InputItem>, events: &[SseEvent]) -> (r: Result<
    TurnPlan,
    AgentError,
>)
    ensures
        ({
            let t = read_events(turn_start(), sse_views(events@));
            &&& item_views(final(input)@) == item_views(old(input)@) + t.appended
            &&& match r {
                Ok(plan) => !t.failed && pending_views(plan.calls@) == t.calls && plan.final_text@
                    == t.text,
                Err(e) => t.failed && e is Incomplete,
            }
        }),
{
    let ghost all = sse_views(events@);
    let ghost start = item_views(input@);
    let mut calls: Vec<PendingCall> = Vec::new();
    let mut text = String::new();
    let ghost mut st = turn_start();
    let mut i: usize = 0;
    assert(all.skip(0) =~= all);
    while i < events.len()
        invariant
            i <= events@.len(),
            all == sse_views(events@),
            !st.failed,
            read_events(st, all.skip(i as int)) == read_events(turn_start(), all),
            item_views(input@) == start + st.appended,
            start == item_views(old(input)@),
            pending_views(calls@) == st.calls,
            text@ == st.text,
        decreases events@.len() - i,
    {
        let ghost rest = all.skip(i as int);
        assert(rest[0] == events@[i as int]@);
        assert(rest.drop_first() =~= all.skip(i + 1));
        match &events[i] {
            SseEvent::OutputItemDone { item } => {
                match item {
                    InputItem::FunctionCall { name, arguments, call_id } => {
                        calls.push(
                            PendingCall {
                                name: name.clone(),
                                arguments: arguments.clone(),
                                call_id: call_id.clone(),
                            },
                        );
                        let ghost before = item_views(input@);
                        input.push(item.clone());
                        proof {
                            let next = read_event(st, rest[0]);
                            assert(item_views(input@) =~= before.push(item@));
                            assert(pending_views(calls@) =~= next.calls);
                            st = next;
                        }
                    },
                    InputItem::Message { content, .. } => {
                        output_text_of(content, &mut text);
                        let ghost before = item_views(input@);
                        input.push(item.clone());
                        proof {
                            let next = read_event(st, rest[0]);
                            assert(item_views(input@) =~= before.push(item@));
                            st = next;
                        }
                    },
                    _ => {},
                }
            },
            SseEvent::Failed => {
                assert(is_failure(rest[0]));
                assert(read_events(st, rest) == TurnState { failed: true, ..st });
                return Err(AgentError::Incomplete);
            },
            SseEvent::Incomplete => {
                assert(is_failure(rest[0]));
                assert(read_events(st, rest) == TurnState { failed: true, ..st });
                return Err(AgentError::Incomplete);
            },
            _ => {},
        }
        i = i + 1;
    }
    assert(all.skip(i as int) =~= Seq::<SseEventView>::empty());
    Ok(TurnPlan { calls, final_text: text })
}

impl TurnPlan {
    /// Whether the turn ends the agent's loop: it does when the model asked for
    /// no function call.
    pub fn is_final(&self) -> (r: bool)
        ensures
            r == (self.calls@.len() == 0),
    {
        self.calls.len() == 0
    }
}

/// Whether the conversation `new` is `old` with items appended: nothing of
/// `old` removed, changed or moved.
pub open spec fn grows(old: Seq<InputItemView>, new: Seq<InputItemView>) -> bool {
    old.len() <= new.len() && new.take(old.len() as int) == old
}

/// Growth composes: a conversation that grows twice has grown from where it
/// started, so the loop, which only ever reads a turn and records outputs,
/// only ever appends to its input.
pub proof fn lemma_growth_composes(
    a: Seq<InputItemView>,
    b: Seq<InputItemView>,
    c: Seq<InputItemView>,
)
    requires
        grows(a, b),
        grows(b, c),
    ensures
        grows(a, c),
        forall|i: int| 0 <= i < a.len() ==> #[trigger] c[i] == a[i],
{
    assert forall|i: int| 0 <= i < a.len() implies #[trigger] c[i] == a[i] by {
        assert(c.take(b.len() as int)[i] == b[i]);
        assert(b.take(a.len() as int)[i] == a[i]);
    }
    assert(c.take(a.len() as int) =~= a);
}

/// Appending items makes the conversation grow.
pub proof fn lemma_append_grows(a: Seq<InputItemView>, more: Seq<InputItemView>)
    ensures
        grows(a, a + more),
{
    assert((a + more).take(a.len() as int) =~= a);
}

/// Appends the output of the call `call_id` to the conversation.
pub fn record_tool_output(input: &mut Vec<InputItem>, call_id: String, output: String)
    ensures
        grows(item_views(old(input)@), item_views(final(input)@)),
        item_views(final(input)@) == item_views(old(input)@).push(
            InputItemView::FunctionCallOutput { call_id: call_id@, output: output@ },
        ),
{
    let ghost before = item_views(input@);
    let ghost c = call_id@;
    let ghost o = output@;
    input.push(InputItem::FunctionCallOutput { call_id, output });
    assert(item_views(input@) =~= before.push(
        InputItemView::FunctionCallOutput { call_id: c, output: o },
    ));
    proof {
        lemma_append_grows(before, seq![InputItemView::FunctionCallOutput { call_id: c, output: o }]);
        assert(before + seq![InputItemView::FunctionCallOutput { call_id: c, output: o }]
            =~= item_views(input@));
    }
}

/// What the agent does after a turn of the backend's answer.
pub enum NextAction {
    /// The model asked for no function call: the loop ends with its text.
    Finish { text: String },
    /// The model asked for function calls: each is answered by its plan, in
    /// order, its output recorded, and the conversation is sent again.
    RunCalls { plans: Vec<CallPlan> },
}

/// One step of the agent's loop, from the backend's answer to what comes next:
/// an answer whose status is not a success is refused and leaves the
/// conversation as it was; otherwise the turn's items are appended in the
/// order they arrived, a failed or incomplete turn is an error, a turn without
/// function calls finishes with its text, and a turn with function calls gives
/// one plan per call, in order.
pub fn agent_step(input: &mut Vec<InputItem>, status: u16, body: &str, events: &[SseEvent]) -> (r:
    Result<NextAction, AgentError>)
    ensures
        grows(item_views(old(input)@), item_views(final(input)@)),
        !is_success(status) ==> {
            &&& item_views(final(input)@) == item_views(old(input)@)
            &&& match r {
                Err(AgentError::Unauthorized) => status == 401,
                Err(AgentError::Api { status: s, body: b }) => status != 401 && s == status && b@
                    == body@,
                _ => false,
            }
        },
        is_success(status) ==> {
            let t = read_events(turn_start(), sse_views(events@));
            &&& item_views(final(input)@) == item_views(old(input)@) + t.appended
            &&& match r {
                Err(e) => t.failed && e is Incomplete,
                Ok(NextAction::Finish { text }) => !t.failed && t.calls.len() == 0 && text@
                    == t.text,
                Ok(NextAction::RunCalls { plans }) => !t.failed && t.calls.len() > 0
                    && plan_views(plans@) == plans_of(t.calls),
            }
        },
{
    let ghost before = item_views(input@);
    proof {
        lemma_append_grows(before, Seq::empty());
        assert(before + Seq::<InputItemView>::empty() =~= before);
    }
    match check_response(status, body) {
        Err(e) => {
            return Err(e);
        },
        Ok(()) => {},
    }
    let turn = absorb_turn(input, events);
    proof {
        lemma_append_grows(before, read_events(turn_start(), sse_views(events@)).appended);
    }
    match turn {
        Err(e) => Err(e),
        Ok(plan) => {
            if plan.is_final() {
                Ok(NextAction::Finish { text: plan.final_text })
            } else {
                Ok(NextAction::RunCalls { plans: plan_calls(&plan.calls) })
            }
        },
    }
}

/// The output text of a message's content, part by part: an output-text part
/// gives its text, whatever it holds; other parts give nothing; and the text of
/// parts put together is the texts put together.
pub proof fn lemma_output_text_parts(
    a: Seq<ContentPartView>,
    b: Seq<ContentPartView>,
    t: Seq<char>,
)
    ensures
        output_text(Seq::empty()) == Seq::<char>::empty(),
        output_text(seq![ContentPartView::OutputText { text: t }]) == t,
        output_text(seq![ContentPartView::InputText { text: t }]) == Seq::<char>::empty(),
        output_text(seq![ContentPartView::Other]) == Seq::<char>::empty(),
        output_text(a + b) == output_text(a) + output_text(b),
    decreases b.len(),
{
    let one = seq![ContentPartView::OutputText { text: t }];
    assert(one.drop_last() =~= Seq::<ContentPartView>::empty());
    assert(seq![ContentPartView::InputText { text: t }].drop_last() =~= Seq::<ContentPartView>::empty());
    assert(seq![ContentPartView::Other].drop_last() =~= Seq::<ContentPartView>::empty());
    assert(Seq::<char>::empty() + t =~= t);
    if b.len() == 0 {
        assert(a + b =~= a);
        assert(output_text(a) + Seq::<char>::empty() =~= output_text(a));
    } else {
        let b0 = b.drop_last();
        lemma_output_text_parts(a, b0, t);
        assert((a + b).drop_last() =~= a + b0);
        assert((a + b).last() == b.last());
        match b.last() {
            ContentPartView::OutputText { text } => {
                assert(output_text(a) + output_text(b0) + text =~= output_text(a) + (output_text(
                    b0,
                ) + text));
            },
            _ => {},
        }
    }
}

/// Reading one event never loses what was read before: the text read so far
/// stays at the front of the text, the items appended so far stay at the front
/// of the items, and the calls found so far stay at the front of the calls. A
/// message adds its output text after the text so far and is appended; a
/// function call is appended and added to the calls; no other event changes
/// anything.
pub proof fn lemma_read_event_extends(st: TurnState, e: SseEventView)
    ensures
        st.text.len() <= read_event(st, e).text.len(),
        read_event(st, e).text.take(st.text.len() as int) == st.text,
        read_event(st, e).appended.take(st.appended.len() as int) == st.appended,
        read_event(st, e).calls.take(st.calls.len() as int) == st.calls,
        read_event(st, e).failed == st.failed,
        e matches SseEventView::OutputItemDone { item: InputItemView::Message { content, .. } }
            ==> read_event(st, e).text == st.text + output_text(content)
            && read_event(st, e).appended == st.appended.push(e->item)
            && read_event(st, e).calls == st.calls,
        e matches SseEventView::OutputItemDone {
            item: InputItemView::FunctionCall { name, arguments, call_id },
        } ==> read_event(st, e).text == st.text && read_event(st, e).appended
            == st.appended.push(e->item) && read_event(st, e).calls == st.calls.push(
            PendingCallView { name, arguments, call_id },
        ),
        !(e matches SseEventView::OutputItemDone { item: InputItemView::Message { .. } })
            && !(e matches SseEventView::OutputItemDone {
            item: InputItemView::FunctionCall { .. },
        }) ==> read_event(st, e) == st,
{
    let r = read_event(st, e);
    assert(r.text.take(st.text.len() as int) =~= st.text);
    assert(r.appended.take(st.appended.len() as int) =~= st.appended);
    assert(r.calls.take(st.calls.len() as int) =~= st.calls);
}

/// Reading a run of events that reports no failure, then more events, is
/// reading the first run, then the rest from where it left off.
pub proof fn lemma_read_events_concat(st: TurnState, a: Seq<SseEventView>, b: Seq<SseEventView>)
    requires
        forall|i: int| 0 <= i < a.len() ==> !is_failure(#[trigger] a[i]),
    ensures
        read_events(st, a + b) == read_events(read_events(st, a), b),
    decreases a.len(),
{
    if a.len() == 0 {
        assert(a + b =~= b);
    } else {
        let a1 = a.drop_first();
        assert(forall|i: int| 0 <= i < a1.len() ==> a1[i] == a[i + 1]);
        assert((a + b)[0] == a[0]);
        assert((a + b).drop_first() =~= a1 + b);
        lemma_read_events_concat(read_event(st, a[0]), a1, b);
    }
}

} // verus!
