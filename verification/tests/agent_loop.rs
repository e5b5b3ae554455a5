use rust_course::agent::{find_tool, names_of, run_agent_loop_with_names, tool_result_message, unknown_tool};
use rust_course::{run_agent_loop, EchoTool, Message, ModelStep, Role, ScriptedModel, Tool, ToolCall};

#[test]
fn agent_loop_stops_when_model_returns_plain_text() {
    let history = run_agent_loop(
        ScriptedModel::new(vec![
            ModelStep::tool_request(
                "I need the tool.",
                vec![ToolCall::new("call_1", "echo", "hello")],
            ),
            ModelStep::text("Final answer."),
        ]),
        vec![Box::new(EchoTool)],
        "Say hello",
    );

    assert_eq!(history.last().unwrap().content, "Final answer.");
    assert!(history
        .iter()
        .any(|message| message.content.contains("hello")));
}

struct Upper;

impl Tool for Upper {
    fn name(&self) -> &'static str {
        "echo"
    }

    fn execute(&self, input: &str) -> String {
        input.to_uppercase()
    }
}

#[test]
fn agent_loop_records_every_message_in_order() {
    let history = run_agent_loop(
        ScriptedModel::new(vec![
            ModelStep::tool_request(
                "two calls",
                vec![
                    ToolCall::new("c1", "echo", "hi"),
                    ToolCall::new("c2", "missing", "x"),
                ],
            ),
            ModelStep::text("done"),
            ModelStep::text("never reached"),
        ]),
        vec![Box::new(EchoTool)],
        "start",
    );
    let expected = vec![
        Message::user("start"),
        Message::assistant("two calls"),
        Message::tool("tool_call_id=c1 name=echo result=hi"),
        Message::tool("tool_call_id=c2 name=missing result=unknown tool: missing"),
        Message::assistant("done"),
    ];
    assert_eq!(history, expected);
}

#[test]
fn agent_loop_with_exhausted_script_ends_with_fallback_text() {
    let history = run_agent_loop(
        ScriptedModel::new(vec![ModelStep::tool_request(
            "calling",
            vec![ToolCall::new("a", "echo", "ping")],
        )]),
        vec![Box::new(EchoTool)],
        "go",
    );
    assert_eq!(history.len(), 4);
    assert_eq!(history[2].content, "tool_call_id=a name=echo result=ping");
    assert_eq!(history[3].role, Role::Assistant);
    assert_eq!(history[3].content, "No more scripted model steps.");
}

#[test]
fn agent_loop_with_empty_script_answers_once() {
    let history = run_agent_loop(ScriptedModel::new(vec![]), vec![], "hello?");
    assert_eq!(
        history,
        vec![Message::user("hello?"), Message::assistant("No more scripted model steps.")]
    );
}

#[test]
fn agent_loop_uses_the_last_tool_of_a_name() {
    let tools: Vec<Box<dyn Tool>> = vec![Box::new(EchoTool), Box::new(Upper)];
    let names = names_of(&tools);
    assert_eq!(names, vec!["echo".to_string(), "echo".to_string()]);
    assert_eq!(find_tool(&names, "echo"), Some(1));
    assert_eq!(find_tool(&names, "bash"), None);
    let history = run_agent_loop(
        ScriptedModel::new(vec![
            ModelStep::tool_request("shout", vec![ToolCall::new("k", "echo", "abc")]),
            ModelStep::text("ok"),
        ]),
        tools,
        "u",
    );
    assert_eq!(history[2].content, "tool_call_id=k name=echo result=ABC");
}

#[test]
fn tool_messages_are_formatted() {
    let call = ToolCall::new("id9", "grep", "pattern");
    let m = tool_result_message(&call, "found");
    assert_eq!(m.role, Role::Tool);
    assert_eq!(m.content, "tool_call_id=id9 name=grep result=found");
    assert_eq!(unknown_tool("grep"), "unknown tool: grep");
}

#[test]
fn echo_tool_answers_with_its_input() {
    let t = EchoTool;
    assert_eq!(t.name(), "echo");
    assert_eq!(t.execute("same text"), "same text");
}

#[test]
fn scripted_model_replays_then_falls_back() {
    let mut model = ScriptedModel::new(vec![
        ModelStep::text("one"),
        ModelStep::tool_request("two", vec![ToolCall::new("i", "n", "x")]),
    ]);
    let first = model.sample(&[]);
    assert_eq!(first.text, "one");
    assert!(first.tool_calls.is_empty());
    let second = model.sample(&[]);
    assert_eq!(second.text, "two");
    assert_eq!(second.tool_calls, vec![ToolCall::new("i", "n", "x")]);
    let third = model.sample(&[]);
    assert_eq!(third, ModelStep::text("No more scripted model steps."));
    let fourth = model.sample(&[]);
    assert_eq!(fourth, ModelStep::text("No more scripted model steps."));
}

#[test]
fn messages_carry_role_and_content() {
    assert_eq!(Message::user("a").role, Role::User);
    assert_eq!(Message::assistant("b").role, Role::Assistant);
    let t = Message::tool("c");
    assert_eq!(t.role, Role::Tool);
    assert_eq!(t.content, "c");
    let call = ToolCall::new("1", "echo", "in");
    assert_eq!(call.id, "1");
    assert_eq!(call.name, "echo");
    assert_eq!(call.input, "in");
    let step = ModelStep::tool_request("t", vec![call.clone()]);
    assert_eq!(step.text, "t");
    assert_eq!(step.tool_calls, vec![call]);
    assert_eq!(Message::user("x").clone(), Message::user("x"));
}

#[test]
fn agent_loop_follows_the_given_names() {
    let tools: Vec<Box<dyn Tool>> = vec![Box::new(EchoTool)];
    let names = vec!["mirror".to_string()];
    let history = run_agent_loop_with_names(
        ScriptedModel::new(vec![
            ModelStep::tool_request(
                "try both",
                vec![ToolCall::new("1", "mirror", "m"), ToolCall::new("2", "echo", "e")],
            ),
            ModelStep::text("end"),
        ]),
        &tools,
        &names,
        "in",
    );
    assert_eq!(history[2].content, "tool_call_id=1 name=mirror result=m");
    assert_eq!(history[3].content, "tool_call_id=2 name=echo result=unknown tool: echo");
    assert_eq!(history.len(), 5);
}

#[test]
fn agent_loop_reports_a_tool_nobody_provides() {
    let history = run_agent_loop(
        ScriptedModel::new(vec![
            ModelStep::tool_request("x", vec![ToolCall::new("c1", "nope", "i")]),
            ModelStep::text("ok"),
        ]),
        vec![Box::new(EchoTool)],
        "u",
    );
    assert_eq!(
        history,
        vec![
            Message::user("u"),
            Message::assistant("x"),
            Message::tool("tool_call_id=c1 name=nope result=unknown tool: nope"),
            Message::assistant("ok"),
        ]
    );
}

#[test]
fn agent_loop_with_two_echo_calls_then_exhausted_script() {
    let history = run_agent_loop(
        ScriptedModel::new(vec![ModelStep::tool_request(
            "a",
            vec![ToolCall::new("1", "echo", "x"), ToolCall::new("2", "echo", "y")],
        )]),
        vec![Box::new(EchoTool)],
        "u",
    );
    assert_eq!(
        history,
        vec![
            Message::user("u"),
            Message::assistant("a"),
            Message::tool("tool_call_id=1 name=echo result=x"),
            Message::tool("tool_call_id=2 name=echo result=y"),
            Message::assistant("No more scripted model steps."),
        ]
    );
}

#[test]
fn agent_loop_echo_scenario_full_history() {
    let history = run_agent_loop(
        ScriptedModel::new(vec![
            ModelStep::tool_request(
                "I need the tool.",
                vec![ToolCall::new("call_1", "echo", "hello")],
            ),
            ModelStep::text("Final answer."),
        ]),
        vec![Box::new(EchoTool)],
        "Say hello",
    );
    assert_eq!(
        history,
        vec![
            Message::user("Say hello"),
            Message::assistant("I need the tool."),
            Message::tool("tool_call_id=call_1 name=echo result=hello"),
            Message::assistant("Final answer."),
        ]
    );
}
