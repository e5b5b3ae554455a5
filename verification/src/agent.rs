use vstd::prelude::*;

use crate::message::{
    message_of, message_views, Message, MessageView, ModelStep, ModelStepView, Role, ToolCall,
    ToolCallView,
};
use crate::model::{exhausted_step, ScriptedModel};
use crate::tools::Tool;

verus! {

/// The views of a sequence of strings.
pub open spec fn name_views(names: Seq<String>) -> Seq<Seq<char>> {
    names.map_values(|n: String| n@)
}

/// The result recorded for a call of a tool that nobody provides.
pub open spec fn unknown_tool_text(name: Seq<char>) -> Seq<char> {
    "unknown tool: "@ + name
}

/// The content of the message that reports `outcome` as the result of `call`.
pub open spec fn tool_line(call: ToolCallView, outcome: Seq<char>) -> Seq<char> {
    "tool_call_id="@ + call.id + " name="@ + call.name + " result="@ + outcome
}

/// The result recorded for `call`: what the tool gave back (`output`) when a
/// tool of that name exists, and otherwise the unknown-tool text.
pub open spec fn call_outcome(
    names: Seq<Seq<char>>,
    call: ToolCallView,
    output: Seq<char>,
) -> Seq<char> {
    if names.contains(call.name) {
        output
    } else {
        unknown_tool_text(call.name)
    }
}

/// The tool messages for `calls`, one per call, in order; `outputs[j]` is what
/// the tool called by `calls[j]` gave back.
pub open spec fn call_messages(
    names: Seq<Seq<char>>,
    calls: Seq<ToolCallView>,
    outputs: Seq<Seq<char>>,
) -> Seq<MessageView> {
    Seq::new(
        calls.len(),
        |j: int| message_of(Role::Tool, tool_line(calls[j], call_outcome(names, calls[j], outputs[j]))),
    )
}

/// The messages one step adds to the history: the assistant's text, then one
/// tool message per requested call.
pub open spec fn turn_messages(
    names: Seq<Seq<char>>,
    step: ModelStepView,
    outputs: Seq<Seq<char>>,
) -> Seq<MessageView> {
    seq![message_of(Role::Assistant, step.text)] + call_messages(names, step.tool_calls, outputs)
}

/// The messages that the steps `turns` add, turn after turn; `outputs[t]`
/// holds the tool outputs of turn `t`.
pub open spec fn transcript(
    names: Seq<Seq<char>>,
    turns: Seq<ModelStepView>,
    outputs: Seq<Seq<Seq<char>>>,
) -> Seq<MessageView>
    decreases turns.len(),
{
    if turns.len() == 0 {
        Seq::empty()
    } else {
        transcript(names, turns.drop_last(), outputs.drop_last()) + turn_messages(
            names,
            turns.last(),
            outputs.last(),
        )
    }
}

/// The steps the loop goes through for the script `steps`: every step up to
/// and including the first that asks for no tool, or, when every step asks for
/// tools, all of them followed by the step the exhausted model answers with.
pub open spec fn agent_turns(steps: Seq<ModelStepView>) -> Seq<ModelStepView>
    decreases steps.len(),
{
    if steps.len() == 0 {
        seq![exhausted_step()]
    } else if steps[0].tool_calls.len() == 0 {
        seq![steps[0]]
    } else {
        seq![steps[0]] + agent_turns(steps.drop_first())
    }
}

/// The history of a run on the script `steps`: the user's input, then the
/// messages of each turn, with `outputs` as the tools' outputs.
pub open spec fn agent_history(
    names: Seq<Seq<char>>,
    steps: Seq<ModelStepView>,
    user_input: Seq<char>,
    outputs: Seq<Seq<Seq<char>>>,
) -> Seq<MessageView> {
    seq![message_of(Role::User, user_input)] + transcript(names, agent_turns(steps), outputs)
}

/// The index of the last of `names` equal to `name`, or -1 when none is.
pub open spec fn last_index(names: Seq<Seq<char>>, name: Seq<char>) -> int
    decreases names.len(),
{
    if names.len() == 0 {
        -1
    } else if names.last() == name {
        names.len() - 1
    } else {
        last_index(names.drop_last(), name)
    }
}

/// `last_index` is the last index holding `name`, and -1 exactly when no index
/// holds it.
pub proof fn lemma_last_index(names: Seq<Seq<char>>, name: Seq<char>)
    ensures
        -1 <= last_index(names, name) < names.len(),
        last_index(names, name) == -1 <==> !names.contains(name),
        last_index(names, name) >= 0 ==> names[last_index(names, name)] == name,
        forall|k: int| last_index(names, name) < k < names.len() ==> names[k] != name,
    decreases names.len(),
{
    if names.len() > 0 {
        let prev = names.drop_last();
        lemma_last_index(prev, name);
        if names.last() != name {
            if names.contains(name) {
                let k = choose|k: int| 0 <= k < names.len() && names[k] == name;
                assert(prev[k] == name);
            }
            if prev.contains(name) {
                let k = choose|k: int| 0 <= k < prev.len() && prev[k] == name;
                assert(names[k] == name);
            }
            assert forall|k: int| last_index(names, name) < k < names.len() implies names[k]
                != name by {
                if k < names.len() - 1 {
                    assert(names[k] == prev[k]);
                }
            }
        } else {
            assert(names[names.len() - 1] == name);
        }
    }
}

/// Whether `outputs[j]` is an output the tool that runs for `calls[j]` may
/// produce on that call's input, for every call that some tool answers.
pub open spec fn call_outputs_fit(
    tools: Seq<Box<dyn Tool>>,
    names: Seq<Seq<char>>,
    calls: Seq<ToolCallView>,
    outputs: Seq<Seq<char>>,
) -> bool {
    forall|j: int|
        #![trigger calls[j]]
        0 <= j < calls.len() && names.contains(calls[j].name) ==> tools[last_index(
            names,
            calls[j].name,
        )].gives(calls[j].input, outputs[j])
}

/// Whether the outputs of every turn fit its calls: each is an output the
/// last tool with the call's name may produce on the call's input.
pub open spec fn turns_fit(
    tools: Seq<Box<dyn Tool>>,
    names: Seq<Seq<char>>,
    turns: Seq<ModelStepView>,
    outputs: Seq<Seq<Seq<char>>>,
) -> bool {
    &&& outputs.len() == turns.len()
    &&& forall|t: int|
        0 <= t < turns.len() ==> #[trigger] call_outputs_fit(
            tools,
            names,
            turns[t].tool_calls,
            outputs[t],
        )
}

/// The names the tools give, in the order of the tools.
pub fn names_of(tools: &Vec<Box<dyn Tool>>) -> (names: Vec<String>)
    ensures
        names@.len() == tools@.len(),
        forall|k: int| 0 <= k < tools@.len() ==> #[trigger] tools@[k].answers_to(names@[k]@),
{
    let mut names: Vec<String> = Vec::new();
    let mut i: usize = 0;
    while i < tools.len()
        invariant
            i <= tools@.len(),
            names@.len() == i,
            forall|k: int| 0 <= k < i ==> #[trigger] tools@[k].answers_to(names@[k]@),
        decreases tools@.len() - i,
    {
        names.push(String::from_str(tools[i].name()));
        i = i + 1;
    }
    names
}

/// Whether `history` is laid out as a run on the script `steps` is: the
/// user's input first, then for each turn the assistant's text followed by one
/// tool message per call, and nothing else.
pub open spec fn laid_out_as_run(
    history: Seq<MessageView>,
    steps: Seq<ModelStepView>,
    user_input: Seq<char>,
) -> bool {
    let turns = agent_turns(steps);
    &&& history.len() == 1 + messages_before(turns, turns.len() as int)
    &&& history[0] == message_of(Role::User, user_input)
    &&& forall|t: int|
        0 <= t < turns.len() ==> #[trigger] history[(1 + messages_before(turns, t)) as int] == message_of(
            Role::Assistant,
            turns[t].text,
        )
    &&& forall|t: int, j: int|
        0 <= t < turns.len() && 0 <= j < turns[t].tool_calls.len() ==> (#[trigger] call_slot(
            history,
            turns,
            t,
            j,
        )).role == Role::Tool
}

/// The message that answers call `j` of turn `t` in a run's history.
pub open spec fn call_slot(
    history: Seq<MessageView>,
    turns: Seq<ModelStepView>,
    t: int,
    j: int,
) -> MessageView {
    history[1 + messages_before(turns, t) + 1 + j]
}

/// A run's history is laid out turn by turn, whatever the tools gave back.
pub proof fn lemma_history_laid_out(
    names: Seq<Seq<char>>,
    steps: Seq<ModelStepView>,
    user_input: Seq<char>,
    outputs: Seq<Seq<Seq<char>>>,
)
    requires
        outputs.len() == agent_turns(steps).len(),
    ensures
        laid_out_as_run(agent_history(names, steps, user_input, outputs), steps, user_input),
{
    let turns = agent_turns(steps);
    lemma_transcript_layout(names, turns, outputs);
    let tr = transcript(names, turns, outputs);
    let h = agent_history(names, steps, user_input, outputs);
    assert(h.len() == 1 + tr.len());
    assert(h[0] == message_of(Role::User, user_input));
    assert forall|t: int| 0 <= t < turns.len() implies #[trigger] h[(1 + messages_before(turns, t)) as int]
        == message_of(Role::Assistant, turns[t].text) by {
        lemma_messages_before_monotone(turns, t + 1, turns.len() as int);
        assert(h[(1 + messages_before(turns, t)) as int] == tr[messages_before(turns, t) as int]);
    }
    assert(h.len() == 1 + messages_before(turns, turns.len() as int));
    assert forall|t: int, j: int|
        0 <= t < turns.len() && 0 <= j < turns[t].tool_calls.len() implies (#[trigger] call_slot(
            h,
            turns,
            t,
            j,
        )).role == Role::Tool by {
        lemma_messages_before_monotone(turns, t + 1, turns.len() as int);
        assert(h[1 + messages_before(turns, t) + 1 + j] == tr[messages_before(turns, t) + 1 + j]);
        assert(tr[messages_before(turns, t) + 1 + j] == message_of(
            Role::Tool,
            tool_line(turns[t].tool_calls[j], call_outcome(names, turns[t].tool_calls[j], outputs[t][j])),
        ));
    }
}

/// The index of the tool named `name`; when several tools share the name, the
/// last of them.
pub fn find_tool(names: &Vec<String>, name: &str) -> (r: Option<usize>)
    ensures
        match r {
            Some(i) => {
                &&& i == last_index(name_views(names@), name@)
                &&& i < names@.len()
                &&& names@[i as int]@ == name@
                &&& forall|k: int| i < k < names@.len() ==> names@[k]@ != name@
            },
            None => !name_views(names@).contains(name@),
        },
{
    proof {
        lemma_last_index(name_views(names@), name@);
    }
    let wanted = String::from_str(name);
    let mut i = names.len();
    while i > 0
        invariant
            i <= names@.len(),
            wanted@ == name@,
            forall|k: int| i <= k < names@.len() ==> names@[k]@ != name@,
        decreases i,
    {
        i = i - 1;
        if names[i] == wanted {
            proof {
                let nv = name_views(names@);
                lemma_last_index(nv, name@);
                let li = last_index(nv, name@);
                assert(nv[i as int] == names@[i as int]@);
                assert(nv.contains(name@));
                if li > i {
                    assert(nv[li] == names@[li]@);
                }
                if li < i {
                    assert(i > li);
                }
            }
            return Some(i);
        }
    }
    proof {
        if name_views(names@).contains(name@) {
            let k = choose|k: int| 0 <= k < name_views(names@).len() && name_views(names@)[k] == name@;
            assert(names@[k]@ == name@);
        }
    }
    None
}

/// The result recorded for a call of `name` when no tool has that name.
pub fn unknown_tool(name: &str) -> (r: String)
    ensures
        r@ == unknown_tool_text(name@),
{
    let mut r = String::from_str("unknown tool: ");
    r.append(name);
    r
}

/// The tool message that reports `outcome` as the result of `call`.
pub fn tool_result_message(call: &ToolCall, outcome: &str) -> (m: Message)
    ensures
        m@ == message_of(Role::Tool, tool_line(call@, outcome@)),
{
    let mut s = String::from_str("tool_call_id=");
    s.append(call.id.as_str());
    s.append(" name=");
    s.append(call.name.as_str());
    s.append(" result=");
    s.append(outcome);
    Message { role: Role::Tool, content: s }
}

/// The agent loop for tools known by `names` (`names[i]` is the name of
/// `tools[i]`): starting from the user's input, asks the model for a step,
/// records its text, and, while the step asks for tools, runs each requested
/// tool on the call's input (the last tool with the call's name) and records
/// its result; stops after the first step that asks for no tool. Returns the
/// whole history, which is fixed by the script, the names and the user's
/// input, up to the texts the tools give back.
pub fn run_agent_loop_with_names(
    model: ScriptedModel,
    tools: &Vec<Box<dyn Tool>>,
    tool_names: &Vec<String>,
    user_input: &str,
) -> (history: Vec<Message>)
    requires
        tool_names@.len() == tools@.len(),
    ensures
        laid_out_as_run(message_views(history@), model@, user_input@),
        exists|outputs: Seq<Seq<Seq<char>>>|
            turns_fit(tools@, name_views(tool_names@), agent_turns(model@), outputs)
                && message_views(history@) == agent_history(
                name_views(tool_names@),
                model@,
                user_input@,
                outputs,
            ),
{
    let mut model = model;
    let ghost names = name_views(tool_names@);
    let ghost script = model@;
    let mut history: Vec<Message> = Vec::new();
    history.push(Message::user(user_input));
    let ghost mut done: Seq<ModelStepView> = Seq::empty();
    let ghost mut outs: Seq<Seq<Seq<char>>> = Seq::empty();
    assert(message_views(history@) =~= seq![message_of(Role::User, user_input@)] + transcript(
        names,
        done,
        outs,
    ));
    loop
        invariant_except_break
            done + agent_turns(model@) == agent_turns(script),
        invariant
            names == name_views(tool_names@),
            tool_names@.len() == tools@.len(),
            outs.len() == done.len(),
            turns_fit(tools@, names, done, outs),
            message_views(history@) == seq![message_of(Role::User, user_input@)] + transcript(
                names,
                done,
                outs,
            ),
        ensures
            turns_fit(tools@, names, done, outs),
            done == agent_turns(script),
            outs.len() == done.len(),
            message_views(history@) == seq![message_of(Role::User, user_input@)] + transcript(
                names,
                done,
                outs,
            ),
        decreases model@.len(),
    {
        let ghost before = model@;
        let ghost prior = message_views(history@);
        let step = model.sample(&history);
        let ghost s = step@;
        let ModelStep { text, tool_calls } = step;
        history.push(Message { role: Role::Assistant, content: text });
        assert(message_views(history@) =~= prior + seq![message_of(Role::Assistant, s.text)]);
        let mut j: usize = 0;
        let ghost mut cur: Seq<Seq<char>> = Seq::empty();
        assert(call_messages(names, s.tool_calls.take(0), cur) =~= Seq::<MessageView>::empty());
        while j < tool_calls.len()
            invariant
                names == name_views(tool_names@),
                tool_names@.len() == tools@.len(),
                s.tool_calls == crate::message::call_views(tool_calls@),
                j <= tool_calls@.len(),
                cur.len() == j,
                call_outputs_fit(tools@, names, s.tool_calls.take(j as int), cur),
                message_views(history@) == prior + seq![message_of(Role::Assistant, s.text)]
                    + call_messages(names, s.tool_calls.take(j as int), cur),
            decreases tool_calls@.len() - j,
        {
            let call = &tool_calls[j];
            let found = find_tool(tool_names, call.name.as_str());
            let result = match found {
                Some(i) => tools[i].execute(call.input.as_str()),
                None => unknown_tool(call.name.as_str()),
            };
            proof {
                lemma_last_index(names, call@.name);
                if let Some(i) = found {
                    assert(names[i as int] == call@.name);
                }
            }
            let ghost before_push = message_views(history@);
            history.push(tool_result_message(call, result.as_str()));
            proof {
                assert(call_outcome(names, call@, result@) == result@);
                let next = cur.push(result@);
                let upto = s.tool_calls.take(j + 1);
                assert(upto[j as int] == call@);
                assert forall|k: int|
                    #![trigger upto[k]]
                    0 <= k < upto.len() && names.contains(upto[k].name) implies tools@[last_index(
                        names,
                        upto[k].name,
                    )].gives(upto[k].input, next[k]) by {
                    if k < j {
                        assert(upto[k] == s.tool_calls.take(j as int)[k]);
                    }
                }
                assert(call_messages(names, s.tool_calls.take(j + 1), next) =~= call_messages(
                    names,
                    s.tool_calls.take(j as int),
                    cur,
                ).push(message_of(Role::Tool, tool_line(call@, result@))));
                assert(message_views(history@) =~= before_push.push(
                    message_of(Role::Tool, tool_line(call@, result@)),
                ));
                cur = next;
            }
            j = j + 1;
        }
        proof {
            assert(s.tool_calls.take(j as int) =~= s.tool_calls);
            let turns = done.push(s);
            let outputs = outs.push(cur);
            assert(turns.drop_last() =~= done);
            assert(outputs.drop_last() =~= outs);
            assert forall|t: int| 0 <= t < turns.len() implies #[trigger] call_outputs_fit(
                tools@,
                names,
                turns[t].tool_calls,
                outputs[t],
            ) by {
                if t < done.len() {
                    assert(turns[t] == done[t]);
                    assert(outputs[t] == outs[t]);
                }
            }
            assert(transcript(names, turns, outputs) == transcript(names, done, outs)
                + turn_messages(names, s, cur));
            assert(message_views(history@) =~= seq![message_of(Role::User, user_input@)]
                + transcript(names, turns, outputs));
            done = turns;
            outs = outputs;
        }
        if tool_calls.len() == 0 {
            proof {
                assert(agent_turns(before) =~= seq![s]);
                assert(done =~= agent_turns(script));
            }
            break;
        }
        proof {
            assert(agent_turns(before) == seq![s] + agent_turns(model@));
            assert(done + agent_turns(model@) =~= agent_turns(script));
        }
    }
    assert(turns_fit(tools@, names, agent_turns(script), outs));
    assert(message_views(history@) == agent_history(names, script, user_input@, outs));
    proof {
        lemma_history_laid_out(names, script, user_input@, outs);
    }
    history
}

/// Runs the agent loop with `tools`, each known by the name it gives: the
/// names are asked once, before the first step, and the loop then runs as
/// `run_agent_loop_with_names` says.
pub fn run_agent_loop(model: ScriptedModel, tools: Vec<Box<dyn Tool>>, user_input: &str) -> (history: Vec<Message>)
    ensures
        laid_out_as_run(message_views(history@), model@, user_input@),
        exists|names: Seq<Seq<char>>, outputs: Seq<Seq<Seq<char>>>|
            {
                &&& names.len() == tools@.len()
                &&& forall|k: int| 0 <= k < names.len() ==> #[trigger] tools@[k].answers_to(names[k])
                &&& turns_fit(tools@, names, agent_turns(model@), outputs)
                &&& message_views(history@) == agent_history(names, model@, user_input@, outputs)
            },
{
    let names = names_of(&tools);
    let history = run_agent_loop_with_names(model, &tools, &names, user_input);
    assert(name_views(names@).len() == tools@.len());
    assert forall|k: int| 0 <= k < name_views(names@).len() implies #[trigger] tools@[k].answers_to(
        name_views(names@)[k],
    ) by {
        assert(tools@[k].answers_to(names@[k]@));
    }
    history
}

/// The loop goes through the script in order and stops at the first step
/// that asks for no tool: every turn but the last asks for tools, the last
/// asks for none, each turn is the script's step at the same place, and only
/// when every step of the script asks for tools does the exhausted model's
/// step come last.
pub proof fn lemma_turns_follow_script(steps: Seq<ModelStepView>)
    ensures
        agent_turns(steps).len() >= 1,
        agent_turns(steps).len() <= steps.len() + 1,
        agent_turns(steps).last().tool_calls.len() == 0,
        forall|t: int| 0 <= t < agent_turns(steps).len() - 1 ==> #[trigger] agent_turns(steps)[t].tool_calls.len() > 0,
        forall|t: int| 0 <= t < agent_turns(steps).len() && t < steps.len() ==> #[trigger] agent_turns(steps)[t] == steps[t],
        agent_turns(steps).len() == steps.len() + 1 ==> agent_turns(steps).last() == exhausted_step(),
    decreases steps.len(),
{
    if steps.len() > 0 && steps[0].tool_calls.len() > 0 {
        let rest = steps.drop_first();
        lemma_turns_follow_script(rest);
        let turns = agent_turns(steps);
        assert(turns == seq![steps[0]] + agent_turns(rest));
        assert forall|t: int| 0 <= t < turns.len() - 1 implies #[trigger] turns[t].tool_calls.len() > 0 by {
            if t > 0 {
                assert(turns[t] == agent_turns(rest)[t - 1]);
            }
        }
        assert forall|t: int| 0 <= t < turns.len() && t < steps.len() implies #[trigger] turns[t] == steps[t] by {
            if t > 0 {
                assert(turns[t] == agent_turns(rest)[t - 1]);
                assert(rest[t - 1] == steps[t]);
            }
        }
    }
}

/// The messages of one turn: the assistant's text first, then, for each
/// requested call in order, one tool message that names the call's identifier
/// and tool and reports its outcome.
pub proof fn lemma_turn_layout(
    names: Seq<Seq<char>>,
    step: ModelStepView,
    outputs: Seq<Seq<char>>,
)
    ensures
        turn_messages(names, step, outputs).len() == step.tool_calls.len() + 1,
        turn_messages(names, step, outputs)[0] == message_of(Role::Assistant, step.text),
        forall|j: int|
            0 <= j < step.tool_calls.len() ==> #[trigger] turn_messages(names, step, outputs)[j
                + 1] == message_of(
                Role::Tool,
                tool_line(step.tool_calls[j], call_outcome(names, step.tool_calls[j], outputs[j])),
            ),
{
}

/// A call of a tool that nobody provides is answered with the unknown-tool
/// text, whatever the outputs.
pub proof fn lemma_unknown_tool_reported(
    names: Seq<Seq<char>>,
    call: ToolCallView,
    output: Seq<char>,
)
    requires
        !names.contains(call.name),
    ensures
        call_outcome(names, call, output) == unknown_tool_text(call.name),
{
}

/// The messages a run adds end with the turn that closes it.
proof fn lemma_transcript_last(
    names: Seq<Seq<char>>,
    turns: Seq<ModelStepView>,
    outputs: Seq<Seq<Seq<char>>>,
)
    requires
        turns.len() > 0,
        turns.last().tool_calls.len() == 0,
    ensures
        transcript(names, turns, outputs).len() > 0,
        transcript(names, turns, outputs).last() == message_of(Role::Assistant, turns.last().text),
{
    let last = turn_messages(names, turns.last(), outputs.last());
    assert(last =~= seq![message_of(Role::Assistant, turns.last().text)]);
}

/// A run stops when the model answers with plain text: the history's last
/// message is the assistant's text of the first step that asks for no tool
/// (or of the exhausted model's step).
pub proof fn lemma_history_ends_with_plain_answer(
    names: Seq<Seq<char>>,
    steps: Seq<ModelStepView>,
    user_input: Seq<char>,
    outputs: Seq<Seq<Seq<char>>>,
)
    ensures
        agent_history(names, steps, user_input, outputs)[0] == message_of(Role::User, user_input),
        agent_history(names, steps, user_input, outputs).last() == message_of(
            Role::Assistant,
            agent_turns(steps).last().text,
        ),
        agent_turns(steps).last().tool_calls.len() == 0,
{
    lemma_turns_follow_script(steps);
    lemma_transcript_last(names, agent_turns(steps), outputs);
}

/// What a run records for a call: when some tool has the call's name, an
/// output that the last tool with that name may produce on the call's input;
/// otherwise the unknown-tool text.
pub proof fn lemma_recorded_outcome(
    tools: Seq<Box<dyn Tool>>,
    names: Seq<Seq<char>>,
    turns: Seq<ModelStepView>,
    outputs: Seq<Seq<Seq<char>>>,
    t: int,
    j: int,
)
    requires
        turns_fit(tools, names, turns, outputs),
        0 <= t < turns.len(),
        0 <= j < turns[t].tool_calls.len(),
    ensures
        ({
            let c = turns[t].tool_calls[j];
            let outcome = call_outcome(names, c, outputs[t][j]);
            &&& names.contains(c.name) ==> tools[last_index(names, c.name)].gives(c.input, outcome)
            &&& !names.contains(c.name) ==> outcome == unknown_tool_text(c.name)
        }),
{
    assert(call_outputs_fit(tools, names, turns[t].tool_calls, outputs[t]));
    let c = turns[t].tool_calls[j];
    if names.contains(c.name) {
        assert(tools[last_index(names, c.name)].gives(c.input, outputs[t][j]));
    }
}

/// How many messages the first `t` turns add: each turn adds its assistant
/// message and one message per call.
pub open spec fn messages_before(turns: Seq<ModelStepView>, t: int) -> nat
    decreases t,
{
    if t <= 0 {
        0
    } else {
        messages_before(turns, t - 1) + turns[t - 1].tool_calls.len() + 1
    }
}

/// The count of messages before turn `t` depends only on the turns before it.
proof fn lemma_messages_before_prefix(turns: Seq<ModelStepView>, more: Seq<ModelStepView>, t: int)
    requires
        0 <= t <= turns.len(),
    ensures
        messages_before(turns + more, t) == messages_before(turns, t),
    decreases t,
{
    if t > 0 {
        lemma_messages_before_prefix(turns, more, t - 1);
        assert((turns + more)[t - 1] == turns[t - 1]);
    }
}

/// Adding a turn adds its messages at the end: the assistant's text, then one
/// tool message per call, after everything the earlier turns added.
pub proof fn lemma_transcript_push(
    names: Seq<Seq<char>>,
    turns: Seq<ModelStepView>,
    outputs: Seq<Seq<Seq<char>>>,
    step: ModelStepView,
    step_outputs: Seq<Seq<char>>,
)
    ensures
        transcript(names, turns.push(step), outputs.push(step_outputs)) == transcript(
            names,
            turns,
            outputs,
        ) + seq![message_of(Role::Assistant, step.text)] + call_messages(
            names,
            step.tool_calls,
            step_outputs,
        ),
{
    assert(turns.push(step).drop_last() =~= turns);
    assert(outputs.push(step_outputs).drop_last() =~= outputs);
    let a = transcript(names, turns, outputs);
    let c = call_messages(names, step.tool_calls, step_outputs);
    assert(a + (seq![message_of(Role::Assistant, step.text)] + c) =~= a + seq![
        message_of(Role::Assistant, step.text),
    ] + c);
}

/// Where every message of a run's turns stands: the turns' messages number
/// one per turn plus one per call; turn `t` starts, after the messages of the
/// turns before it, with the assistant's text, and its `j`-th call is answered
/// right after, by a tool message naming the call and its outcome.
pub proof fn lemma_transcript_layout(
    names: Seq<Seq<char>>,
    turns: Seq<ModelStepView>,
    outputs: Seq<Seq<Seq<char>>>,
)
    requires
        outputs.len() == turns.len(),
    ensures
        transcript(names, turns, outputs).len() == messages_before(turns, turns.len() as int),
        forall|t: int|
            0 <= t < turns.len() ==> #[trigger] transcript(names, turns, outputs)[messages_before(
                turns,
                t,
            ) as int] == message_of(Role::Assistant, turns[t].text),
        forall|t: int, j: int|
            0 <= t < turns.len() && 0 <= j < turns[t].tool_calls.len() ==> #[trigger] transcript(
                names,
                turns,
                outputs,
            )[messages_before(turns, t) + 1 + j] == message_of(
                Role::Tool,
                #[trigger] tool_line(
                    turns[t].tool_calls[j],
                    call_outcome(names, turns[t].tool_calls[j], outputs[t][j]),
                ),
            ),
    decreases turns.len(),
{
    if turns.len() > 0 {
        let n = turns.len() - 1;
        let prev = turns.drop_last();
        let prev_out = outputs.drop_last();
        lemma_transcript_layout(names, prev, prev_out);
        let step = turns.last();
        assert(turns == prev.push(step));
        assert(outputs == prev_out.push(outputs.last()));
        lemma_transcript_push(names, prev, prev_out, step, outputs.last());
        let whole = transcript(names, turns, outputs);
        let before = transcript(names, prev, prev_out);
        assert forall|t: int| 0 <= t <= n implies messages_before(turns, t) == messages_before(
            prev,
            t,
        ) by {
            assert(turns =~= prev + seq![step]);
            lemma_messages_before_prefix(prev, seq![step], t);
        }
        assert(messages_before(turns, turns.len() as int) == messages_before(turns, n) + step.tool_calls.len() + 1);
        assert forall|t: int| 0 <= t < turns.len() implies #[trigger] whole[messages_before(
            turns,
            t,
        ) as int] == message_of(Role::Assistant, turns[t].text) by {
            if t < n {
                assert(turns[t] == prev[t]);
                assert(messages_before(prev, t + 1) <= messages_before(prev, n)) by {
                    lemma_messages_before_monotone(prev, t + 1, n);
                }
                assert(whole[messages_before(turns, t) as int] == before[messages_before(prev, t) as int]);
            }
        }
        assert forall|t: int, j: int|
            0 <= t < turns.len() && 0 <= j < turns[t].tool_calls.len() implies #[trigger] whole[messages_before(
                turns,
                t,
            ) + 1 + j] == message_of(
                Role::Tool,
                #[trigger] tool_line(
                    turns[t].tool_calls[j],
                    call_outcome(names, turns[t].tool_calls[j], outputs[t][j]),
                ),
            ) by {
            if t < n {
                assert(turns[t] == prev[t]);
                assert(outputs[t] == prev_out[t]);
                assert(messages_before(prev, t + 1) <= messages_before(prev, n)) by {
                    lemma_messages_before_monotone(prev, t + 1, n);
                }
                assert(whole[messages_before(turns, t) + 1 + j] == before[messages_before(prev, t) + 1 + j]);
            } else {
                assert(whole[messages_before(turns, t) + 1 + j] == call_messages(
                    names,
                    step.tool_calls,
                    outputs.last(),
                )[j]);
            }
        }
    }
}

/// More turns mean more messages before them.
proof fn lemma_messages_before_monotone(turns: Seq<ModelStepView>, a: int, b: int)
    requires
        0 <= a <= b,
    ensures
        messages_before(turns, a) <= messages_before(turns, b),
    decreases b - a,
{
    if a < b {
        lemma_messages_before_monotone(turns, a, b - 1);
    }
}

} // verus!
