use rust_course::responses::{agent_step, NextAction};
use rust_course::bash::MAX_OUTPUT_CHARS;
use rust_course::{
    absorb_turn, check_response, finish_bash_output, plan_call, plan_calls, record_tool_output,
    screen_command, sse_data_payloads, AgentError, CallPlan, ContentPart, InputItem, PendingCall,
    SseEvent,
};

fn call(name: &str, arguments: &str, call_id: &str) -> PendingCall {
    PendingCall { name: name.into(), arguments: arguments.into(), call_id: call_id.into() }
}

fn function_call(name: &str, arguments: &str, call_id: &str) -> InputItem {
    InputItem::FunctionCall {
        name: name.into(),
        arguments: arguments.into(),
        call_id: call_id.into(),
    }
}

fn output_message(texts: &[&str]) -> InputItem {
    InputItem::Message {
        role: "assistant".into(),
        content: texts
            .iter()
            .map(|t| ContentPart::OutputText { text: t.to_string() })
            .chain(std::iter::once(ContentPart::InputText { text: "not output".into() }))
            .collect(),
    }
}

#[test]
fn data_lines_are_framed() {
    let body = "event: x\ndata: {\"a\":1}\r\n\ndata: [DONE]\ndata: last";
    assert_eq!(sse_data_payloads(body), vec!["{\"a\":1}".to_string(), "last".to_string()]);
    assert_eq!(sse_data_payloads(""), Vec::<String>::new());
    assert_eq!(sse_data_payloads("data: \n"), vec!["".to_string()]);
    assert_eq!(sse_data_payloads("data:x\n data: y\n"), Vec::<String>::new());
    assert_eq!(sse_data_payloads("data: a\r"), vec!["a\r".to_string()]);
}

#[test]
fn status_decides_whether_the_answer_is_used() {
    assert_eq!(check_response(200, "ok"), Ok(()));
    assert_eq!(check_response(299, ""), Ok(()));
    assert_eq!(check_response(401, "nope"), Err(AgentError::Unauthorized));
    assert_eq!(
        check_response(500, "boom"),
        Err(AgentError::Api { status: 500, body: "boom".into() })
    );
    assert_eq!(
        check_response(300, ""),
        Err(AgentError::Api { status: 300, body: "".into() })
    );
}

#[test]
fn a_turn_collects_calls_text_and_items() {
    let mut input = vec![InputItem::Other];
    let events = vec![
        SseEvent::Other,
        SseEvent::OutputItemDone { item: output_message(&["Hel", "lo"]) },
        SseEvent::OutputItemDone { item: function_call("bash", "{\"command\":\"ls\"}", "c1") },
        SseEvent::OutputItemDone { item: InputItem::Other },
        SseEvent::OutputItemDone { item: function_call("other", "{}", "c2") },
        SseEvent::Completed,
    ];
    let plan = absorb_turn(&mut input, &events).unwrap();
    assert_eq!(plan.final_text, "Hello");
    assert_eq!(
        plan.calls,
        vec![call("bash", "{\"command\":\"ls\"}", "c1"), call("other", "{}", "c2")]
    );
    assert!(!plan.is_final());
    assert_eq!(
        input,
        vec![
            InputItem::Other,
            output_message(&["Hel", "lo"]),
            function_call("bash", "{\"command\":\"ls\"}", "c1"),
            function_call("other", "{}", "c2"),
        ]
    );
}

#[test]
fn a_turn_without_calls_is_final() {
    let mut input = vec![];
    let events = vec![SseEvent::OutputItemDone { item: output_message(&["Done."]) }];
    let plan = absorb_turn(&mut input, &events).unwrap();
    assert!(plan.is_final());
    assert_eq!(plan.final_text, "Done.");
    assert_eq!(input.len(), 1);
}

#[test]
fn a_failed_turn_is_an_error_after_earlier_items() {
    let mut input = vec![];
    let events = vec![
        SseEvent::OutputItemDone { item: function_call("bash", "{}", "c1") },
        SseEvent::Failed,
        SseEvent::OutputItemDone { item: function_call("bash", "{}", "c2") },
    ];
    assert_eq!(absorb_turn(&mut input, &events).err(), Some(AgentError::Incomplete));
    assert_eq!(input, vec![function_call("bash", "{}", "c1")]);
    let mut other = vec![];
    assert_eq!(
        absorb_turn(&mut other, &[SseEvent::Incomplete]).err(),
        Some(AgentError::Incomplete)
    );
    assert!(other.is_empty());
}

fn bash(call_id: &str, command: &str) -> CallPlan {
    CallPlan::Bash { call_id: call_id.into(), command: command.into() }
}

fn answer(call_id: &str, output: &str) -> CallPlan {
    CallPlan::Answer { call_id: call_id.into(), output: output.into() }
}

#[test]
fn bash_calls_read_their_command() {
    assert_eq!(
        plan_call(&call("bash", "{\"command\":\"git status\"}", "id")),
        bash("id", "git status")
    );
    assert_eq!(plan_call(&call("bash", "not json", "id")), bash("id", ""));
    assert_eq!(plan_call(&call("bash", "{\"command\":7}", "id")), bash("id", ""));
    assert_eq!(plan_call(&call("bash", "{\"cmd\":\"ls\"}", "id")), bash("id", ""));
}

#[test]
fn every_call_is_answered_in_order() {
    assert_eq!(
        plan_call(&call("python", "{\"command\":\"x\"}", "id")),
        answer("id", "unknown tool: python")
    );
    let plans = plan_calls(&vec![
        call("bash", "{\"command\":\"a\"}", "1"),
        call("edit", "{\"command\":\"b\"}", "2"),
        call("bash", "{\"command\":\"c\"}", "3"),
    ]);
    assert_eq!(
        plans,
        vec![bash("1", "a"), answer("2", "unknown tool: edit"), bash("3", "c")]
    );
    assert!(plan_calls(&vec![]).is_empty());
}

#[test]
fn tool_outputs_are_appended() {
    let mut input = vec![InputItem::Other];
    record_tool_output(&mut input, "c9".into(), "result".into());
    assert_eq!(
        input,
        vec![
            InputItem::Other,
            InputItem::FunctionCallOutput { call_id: "c9".into(), output: "result".into() },
        ]
    );
}

#[test]
fn dangerous_commands_are_blocked() {
    let blocked = Some("Error: Dangerous command blocked".to_string());
    assert_eq!(screen_command("sudo ls"), blocked);
    assert_eq!(screen_command("echo hi > /dev/null"), blocked);
    assert_eq!(screen_command("rm -rf /"), blocked);
    assert_eq!(screen_command("please reboot"), blocked);
    assert_eq!(screen_command("shutdown -h now"), blocked);
    assert_eq!(screen_command("ls -la"), None);
    assert_eq!(screen_command("rm -rf ./build"), None);
}

#[test]
fn command_output_is_trimmed_and_capped() {
    assert_eq!(finish_bash_output("  hello\n", "warn\n"), "hello\nwarn");
    assert_eq!(finish_bash_output("", " \n"), "(no output)");
    let long = "x".repeat(MAX_OUTPUT_CHARS + 10);
    let answer = finish_bash_output(&long, "");
    assert_eq!(answer.chars().count(), MAX_OUTPUT_CHARS);
    assert_eq!(MAX_OUTPUT_CHARS, 50000);
}

#[test]
fn agent_step_decides_the_next_action() {
    let mut input = vec![InputItem::Other];
    let events = vec![
        SseEvent::OutputItemDone { item: function_call("bash", "{\"command\":\"pwd\"}", "c1") },
        SseEvent::OutputItemDone { item: function_call("edit", "{}", "c2") },
    ];
    match agent_step(&mut input, 200, "", &events) {
        Ok(NextAction::RunCalls { plans }) => assert_eq!(
            plans,
            vec![bash("c1", "pwd"), answer("c2", "unknown tool: edit")]
        ),
        _ => panic!("expected call plans"),
    }
    assert_eq!(input.len(), 3);
    assert_eq!(input[0], InputItem::Other);

    let events = vec![SseEvent::OutputItemDone { item: output_message(&["bye"]) }];
    match agent_step(&mut input, 200, "", &events) {
        Ok(NextAction::Finish { text }) => assert_eq!(text, "bye"),
        _ => panic!("expected the end of the loop"),
    }
    assert_eq!(input.len(), 4);

    let before = input.clone();
    assert_eq!(
        agent_step(&mut input, 503, "busy", &events).err(),
        Some(AgentError::Api { status: 503, body: "busy".into() })
    );
    assert_eq!(agent_step(&mut input, 401, "", &events).err(), Some(AgentError::Unauthorized));
    assert_eq!(input, before);
    assert_eq!(
        agent_step(&mut input, 200, "", &[SseEvent::Failed]).err(),
        Some(AgentError::Incomplete)
    );
    assert_eq!(input, before);
}

#[test]
fn splitting_a_body_at_a_line_end_splits_its_payloads() {
    let a = "data: one\nevent: e";
    let b = "data: two\ndata: [DONE]";
    let joined = format!("{a}\n{b}");
    let mut both = sse_data_payloads(a);
    both.extend(sse_data_payloads(b));
    assert_eq!(sse_data_payloads(&joined), both);
    assert_eq!(sse_data_payloads("data: x\n\ndata: y"), vec!["x".to_string(), "y".to_string()]);
}
