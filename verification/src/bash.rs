use vstd::prelude::*;

use crate::agent::{unknown_tool, unknown_tool_text};
use crate::responses::{pending_views, PendingCall, PendingCallView};
use crate::text::{
    chars_of, lemma_occurs_in_chars, stands_at, contains_text, occurs_in, same_text, string_of_range, take_chars, trim,
};

verus! {

/// The name of the one tool the agent offers the model.
pub open spec fn bash_tool_name() -> Seq<char> {
    "bash"@
}

/// The string member `key` of the JSON text `text`: `Some` of that member's
/// string when `text` is a JSON object whose member `key` is a string, and
/// `None` otherwise.
pub uninterp spec fn json_string_member(text: Seq<char>, key: Seq<char>) -> Option<Seq<char>>;

/// Reads the string member `key` out of the JSON text `text`.
///
/// Calls `serde_json::from_str::<serde_json::Value>`, then `Value::get` with
/// `key` and `Value::as_str` on what it finds. The contract claims only that
/// the result is a function of `text` and `key` alone, named
/// `json_string_member`; it is `None` when `text` is not JSON, or has no member
/// `key` that is a string.
#[verifier::external_body]
fn json_member(text: &str, key: &str) -> (r: Option<String>)
    ensures
        match r {
            Some(s) => json_string_member(text@, key@) == Some(s@),
            None => json_string_member(text@, key@) is None,
        },
{
    serde_json::from_str::<serde_json::Value>(text).ok().and_then(
        |v| v.get(key).and_then(serde_json::Value::as_str).map(str::to_string),
    )
}

/// The command a `bash` call's arguments carry: the string member `command`,
/// or the empty command when there is none.
pub open spec fn command_member_or_empty(member: Option<Seq<char>>) -> Seq<char> {
    match member {
        Some(c) => c,
        None => Seq::empty(),
    }
}

/// The command that the JSON arguments of a `bash` call carry.
pub open spec fn bash_command(arguments: Seq<char>) -> Seq<char> {
    command_member_or_empty(json_string_member(arguments, "command"@))
}

/// The command, given the `command` member read from a call's arguments: the
/// member's string, or the empty command when there is none.
pub fn command_or_empty(member: Option<String>) -> (r: String)
    ensures
        r@ == command_member_or_empty(
            match member {
                Some(c) => Some(c@),
                None => None,
            },
        ),
{
    match member {
        Some(c) => c,
        None => String::new(),
    }
}

/// The command that the JSON arguments of a `bash` call carry.
pub fn command_argument(arguments: &str) -> (r: String)
    ensures
        r@ == bash_command(arguments@),
{
    command_or_empty(json_member(arguments, "command"))
}

/// What to do for one function call of a turn; each call gets exactly one
/// output.
#[derive(Debug, PartialEq, Eq)]
pub enum CallPlan {
    /// Run `command` in the shell; its answer is the output of the call.
    Bash { call_id: String, command: String },
    /// Nothing to run: `output` is the output of the call as it stands.
    Answer { call_id: String, output: String },
}

/// A call plan as a mathematical value.
pub enum CallPlanView {
    Bash { call_id: Seq<char>, command: Seq<char> },
    Answer { call_id: Seq<char>, output: Seq<char> },
}

impl View for CallPlan {
    type V = CallPlanView;

    open spec fn view(&self) -> CallPlanView {
        match self {
            CallPlan::Bash { call_id, command } => CallPlanView::Bash {
                call_id: call_id@,
                command: command@,
            },
            CallPlan::Answer { call_id, output } => CallPlanView::Answer {
                call_id: call_id@,
                output: output@,
            },
        }
    }
}

/// The views of a sequence of call plans.
pub open spec fn plan_views(plans: Seq<CallPlan>) -> Seq<CallPlanView> {
    plans.map_values(|p: CallPlan| p@)
}

/// The identifier of the call a plan answers.
pub open spec fn plan_call_id(plan: CallPlanView) -> Seq<char> {
    match plan {
        CallPlanView::Bash { call_id, .. } => call_id,
        CallPlanView::Answer { call_id, .. } => call_id,
    }
}

/// The plan for a call: a call of the `bash` tool runs the command its
/// arguments carry; a call of any other tool is answered that no such tool
/// exists.
pub open spec fn plan_of(call: PendingCallView) -> CallPlanView {
    if call.name == bash_tool_name() {
        CallPlanView::Bash { call_id: call.call_id, command: bash_command(call.arguments) }
    } else {
        CallPlanView::Answer { call_id: call.call_id, output: unknown_tool_text(call.name) }
    }
}

/// The plans for a turn's calls: one per call, in the order of the calls.
pub open spec fn plans_of(calls: Seq<PendingCallView>) -> Seq<CallPlanView> {
    calls.map_values(|c: PendingCallView| plan_of(c))
}

/// The plan for one function call.
pub fn plan_call(call: &PendingCall) -> (r: CallPlan)
    ensures
        r@ == plan_of(call@),
{
    if same_text(call.name.as_str(), "bash") {
        CallPlan::Bash {
            call_id: call.call_id.clone(),
            command: command_argument(call.arguments.as_str()),
        }
    } else {
        CallPlan::Answer { call_id: call.call_id.clone(), output: unknown_tool(call.name.as_str()) }
    }
}

/// The plans for a turn's function calls: one per call, in the order of the
/// calls.
pub fn plan_calls(calls: &Vec<PendingCall>) -> (plans: Vec<CallPlan>)
    ensures
        plan_views(plans@) == plans_of(pending_views(calls@)),
{
    let mut plans: Vec<CallPlan> = Vec::new();
    let mut i: usize = 0;
    while i < calls.len()
        invariant
            i <= calls@.len(),
            plans@.len() == i,
            forall|k: int| 0 <= k < i ==> #[trigger] plans@[k]@ == plan_of(calls@[k]@),
        decreases calls@.len() - i,
    {
        plans.push(plan_call(&calls[i]));
        i = i + 1;
    }
    assert(plan_views(plans@) =~= plans_of(pending_views(calls@)));
    plans
}

/// Every function call of a turn is answered exactly once, in order: the
/// plans are as many as the calls, and the plan at each place answers the call
/// at that place.
pub proof fn lemma_every_call_planned(calls: Seq<PendingCallView>)
    ensures
        plans_of(calls).len() == calls.len(),
        forall|i: int| 0 <= i < calls.len() ==> #[trigger] plan_call_id(plans_of(calls)[i]) == calls[i].call_id,
{
}

/// Whether a command holds one of the patterns that are never run:
/// `rm -rf /`, `sudo`, `shutdown`, `reboot` or `> /dev/`.
pub open spec fn is_dangerous(command: Seq<char>) -> bool {
    ||| occurs_in("rm -rf /"@, command)
    ||| occurs_in("sudo"@, command)
    ||| occurs_in("shutdown"@, command)
    ||| occurs_in("reboot"@, command)
    ||| occurs_in("> /dev/"@, command)
}

/// The answer to a command that is never run.
pub open spec fn dangerous_text() -> Seq<char> {
    "Error: Dangerous command blocked"@
}

/// What the shell answers without running anything: the blocked-command error
/// for a dangerous command, `None` for a command that may run.
pub fn screen_command(command: &str) -> (r: Option<String>)
    ensures
        match r {
            Some(answer) => is_dangerous(command@) && answer@ == dangerous_text(),
            None => !is_dangerous(command@),
        },
{
    let c = chars_of(command);
    let dangerous = contains_text(&c, &chars_of("rm -rf /")) || contains_text(
        &c,
        &chars_of("sudo"),
    ) || contains_text(&c, &chars_of("shutdown")) || contains_text(&c, &chars_of("reboot"))
        || contains_text(&c, &chars_of("> /dev/"));
    if dangerous {
        Some(String::from_str("Error: Dangerous command blocked"))
    } else {
        None
    }
}

/// The most characters of a command's output that are handed back.
pub const MAX_OUTPUT_CHARS: usize = 50000;

/// The answer for a command that ran, made of its standard output followed by
/// its error output, trimmed: `(no output)` when nothing is left, and at most
/// the first `MAX_OUTPUT_CHARS` characters otherwise.
pub open spec fn bash_answer(stdout: Seq<char>, stderr: Seq<char>) -> Seq<char> {
    let out = trim(stdout + stderr);
    if out.len() == 0 {
        "(no output)"@
    } else {
        take_chars(out, MAX_OUTPUT_CHARS as nat)
    }
}

/// The answer for a command that ran, from its standard and error output.
pub fn finish_bash_output(stdout: &str, stderr: &str) -> (r: String)
    ensures
        r@ == bash_answer(stdout@, stderr@),
{
    let mut out = String::from_str(stdout);
    out.append(stderr);
    let trimmed = crate::text::trimmed(out.as_str());
    let chars = chars_of(trimmed.as_str());
    if chars.len() == 0 {
        String::from_str("(no output)")
    } else {
        let end = if MAX_OUTPUT_CHARS < chars.len() {
            MAX_OUTPUT_CHARS
        } else {
            chars.len()
        };
        assert(chars@.subrange(0, chars@.len() as int) =~= chars@);
        string_of_range(&chars, 0, end)
    }
}

/// A command's answer is never empty and never longer than
/// `MAX_OUTPUT_CHARS` characters; when its trimmed output is short enough it is
/// that output whole.
pub proof fn lemma_bash_answer_bounded(stdout: Seq<char>, stderr: Seq<char>)
    ensures
        0 < bash_answer(stdout, stderr).len() <= MAX_OUTPUT_CHARS,
        0 < trim(stdout + stderr).len() <= MAX_OUTPUT_CHARS ==> bash_answer(stdout, stderr)
            == trim(stdout + stderr),
{
    reveal_strlit("(no output)");
}

/// A command is screened out exactly when one of the five patterns stands in
/// it, character for character: `rm -rf /`, `sudo`, `shutdown`, `reboot`,
/// `> /dev/`.
pub proof fn lemma_dangerous_patterns(command: Seq<char>)
    ensures
        is_dangerous(command) <==> (exists|i: int| #[trigger] stands_at(command, "rm -rf /"@, i))
            || (exists|i: int| #[trigger] stands_at(command, "sudo"@, i)) || (exists|i: int|
            #[trigger] stands_at(command, "shutdown"@, i)) || (exists|i: int|
            #[trigger] stands_at(command, "reboot"@, i)) || (exists|i: int|
            #[trigger] stands_at(command, "> /dev/"@, i)),
{
    lemma_occurs_in_chars("rm -rf /"@, command);
    lemma_occurs_in_chars("sudo"@, command);
    lemma_occurs_in_chars("shutdown"@, command);
    lemma_occurs_in_chars("reboot"@, command);
    lemma_occurs_in_chars("> /dev/"@, command);
}

} // verus!
