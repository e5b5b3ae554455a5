use vstd::prelude::*;

verus! {

/// Who wrote a message of the conversation.
#[derive(Clone, Copy, Debug, PartialEq, Eq, Structural)]
pub enum Role {
    User,
    Assistant,
    Tool,
}

/// One entry of the conversation history.
#[derive(Debug, PartialEq, Eq)]
pub struct Message {
    pub role: Role,
    pub content: String,
}

/// A message as a mathematical value.
pub struct MessageView {
    pub role: Role,
    pub content: Seq<char>,
}

impl View for Message {
    type V = MessageView;

    open spec fn view(&self) -> MessageView {
        MessageView { role: self.role, content: self.content@ }
    }
}

/// The message written by `role` with the given content.
pub open spec fn message_of(role: Role, content: Seq<char>) -> MessageView {
    MessageView { role, content }
}

/// The views of a sequence of messages.
pub open spec fn message_views(messages: Seq<Message>) -> Seq<MessageView> {
    messages.map_values(|m: Message| m@)
}

impl Clone for Message {
    fn clone(&self) -> (r: Self)
        ensures
            r@ == self@,
    {
        Message { role: self.role, content: self.content.clone() }
    }
}

impl Message {
    /// A message from the user.
    pub fn user(content: &str) -> (m: Message)
        ensures
            m@ == message_of(Role::User, content@),
    {
        Message { role: Role::User, content: String::from_str(content) }
    }

    /// A message from the assistant.
    pub fn assistant(content: &str) -> (m: Message)
        ensures
            m@ == message_of(Role::Assistant, content@),
    {
        Message { role: Role::Assistant, content: String::from_str(content) }
    }

    /// A message that carries a tool's result.
    pub fn tool(content: &str) -> (m: Message)
        ensures
            m@ == message_of(Role::Tool, content@),
    {
        Message { role: Role::Tool, content: String::from_str(content) }
    }
}

/// A request from the model to run a tool.
#[derive(Debug, PartialEq, Eq)]
pub struct ToolCall {
    pub id: String,
    pub name: String,
    pub input: String,
}

/// A tool call as a mathematical value.
pub struct ToolCallView {
    pub id: Seq<char>,
    pub name: Seq<char>,
    pub input: Seq<char>,
}

impl View for ToolCall {
    type V = ToolCallView;

    open spec fn view(&self) -> ToolCallView {
        ToolCallView { id: self.id@, name: self.name@, input: self.input@ }
    }
}

impl Clone for ToolCall {
    fn clone(&self) -> (r: Self)
        ensures
            r@ == self@,
    {
        ToolCall { id: self.id.clone(), name: self.name.clone(), input: self.input.clone() }
    }
}

impl ToolCall {
    /// The call of tool `name` with `input`, under the identifier `id`.
    pub fn new(id: &str, name: &str, input: &str) -> (c: ToolCall)
        ensures
            c@ == (ToolCallView { id: id@, name: name@, input: input@ }),
    {
        ToolCall {
            id: String::from_str(id),
            name: String::from_str(name),
            input: String::from_str(input),
        }
    }
}

/// What the model answers in one step: some text and the tools it asks for.
#[derive(Debug, PartialEq, Eq)]
pub struct ModelStep {
    pub text: String,
    pub tool_calls: Vec<ToolCall>,
}

/// A model step as a mathematical value.
pub struct ModelStepView {
    pub text: Seq<char>,
    pub tool_calls: Seq<ToolCallView>,
}

/// The views of a sequence of tool calls.
pub open spec fn call_views(calls: Seq<ToolCall>) -> Seq<ToolCallView> {
    calls.map_values(|c: ToolCall| c@)
}

impl View for ModelStep {
    type V = ModelStepView;

    open spec fn view(&self) -> ModelStepView {
        ModelStepView { text: self.text@, tool_calls: call_views(self.tool_calls@) }
    }
}

/// Copies of the tool calls, in order.
fn clone_calls(calls: &Vec<ToolCall>) -> (r: Vec<ToolCall>)
    ensures
        call_views(r@) == call_views(calls@),
{
    let mut r: Vec<ToolCall> = Vec::new();
    let mut i: usize = 0;
    while i < calls.len()
        invariant
            i <= calls@.len(),
            r@.len() == i,
            forall|k: int| 0 <= k < i ==> #[trigger] r@[k]@ == calls@[k]@,
        decreases calls@.len() - i,
    {
        r.push(calls[i].clone());
        i = i + 1;
    }
    assert(call_views(r@) =~= call_views(calls@));
    r
}

impl Clone for ModelStep {
    fn clone(&self) -> (r: Self)
        ensures
            r@ == self@,
    {
        ModelStep { text: self.text.clone(), tool_calls: clone_calls(&self.tool_calls) }
    }
}

impl ModelStep {
    /// A step with text only: the model asks for no tool.
    pub fn text(content: &str) -> (s: ModelStep)
        ensures
            s@ == (ModelStepView { text: content@, tool_calls: Seq::empty() }),
    {
        let s = ModelStep { text: String::from_str(content), tool_calls: Vec::new() };
        assert(call_views(s.tool_calls@) =~= Seq::empty());
        s
    }

    /// A step in which the model asks for the given tool calls.
    pub fn tool_request(content: &str, tool_calls: Vec<ToolCall>) -> (s: ModelStep)
        ensures
            s@ == (ModelStepView { text: content@, tool_calls: call_views(tool_calls@) }),
    {
        ModelStep { text: String::from_str(content), tool_calls }
    }
}

} // verus!
