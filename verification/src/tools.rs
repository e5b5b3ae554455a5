use vstd::prelude::*;

use crate::text::{trimmed_end, trim_end};

verus! {

/// A tool that the agent can call by name with a text input.
///
/// A tool may describe itself to the verifier: `answers_to` holds of the
/// names it gives, and `gives` of the outputs it may produce for an input.
/// Both hold of everything unless the tool says more, which claims nothing of
/// a tool that does not describe itself.
pub trait Tool {
    /// Whether `name` is a name the tool may give.
    open spec fn answers_to(&self, name: Seq<char>) -> bool {
        true
    }

    /// Whether the tool may produce `output` when run on `input`.
    open spec fn gives(&self, input: Seq<char>, output: Seq<char>) -> bool {
        true
    }

    /// The name under which the tool is called.
    fn name(&self) -> (r: &'static str)
        ensures
            self.answers_to(r@),
    ;

    /// Runs the tool on `input` and gives back its result as text.
    fn execute(&self, input: &str) -> (r: String)
        ensures
            self.gives(input@, r@),
    ;
}

/// A tool that answers with its input.
pub struct EchoTool;

impl Tool for EchoTool {
    open spec fn answers_to(&self, name: Seq<char>) -> bool {
        name == "echo"@
    }

    open spec fn gives(&self, input: Seq<char>, output: Seq<char>) -> bool {
        output == input
    }

    fn name(&self) -> (r: &'static str) {
        "echo"
    }

    fn execute(&self, input: &str) -> (r: String) {
        String::from_str(input)
    }
}

/// The prefix of the answer a shell tool gives for a command it does not allow.
pub open spec fn blocked_prefix() -> Seq<char> {
    "blocked: command is not in the lab allowlist: "@
}

/// A shell tool that runs only the commands of its allowlist, each compared
/// whole with the input.
pub struct ShellTool {
    allowed: Vec<String>,
}

impl View for ShellTool {
    type V = Seq<Seq<char>>;

    /// The allowed commands.
    closed spec fn view(&self) -> Seq<Seq<char>> {
        self.allowed@.map_values(|s: String| s@)
    }
}

impl ShellTool {
    /// A shell tool that allows exactly the commands in `allowed`.
    pub fn new(allowed: Vec<String>) -> (t: ShellTool)
        ensures
            t@ == allowed@.map_values(|s: String| s@),
    {
        ShellTool { allowed }
    }

    /// The name under which the shell tool is called.
    pub open spec fn shell_name() -> Seq<char> {
        "bash"@
    }

    /// The name under which the shell tool is called.
    pub fn name(&self) -> (r: &'static str)
        ensures
            r@ == Self::shell_name(),
    {
        "bash"
    }

    /// Whether `input` is one of the allowed commands.
    pub fn allows(&self, input: &str) -> (r: bool)
        ensures
            r == self@.contains(input@),
    {
        let wanted = String::from_str(input);
        let mut i: usize = 0;
        while i < self.allowed.len()
            invariant
                i <= self.allowed@.len(),
                wanted@ == input@,
                forall|j: int| 0 <= j < i ==> self@[j] != input@,
            decreases self.allowed@.len() - i,
        {
            if self.allowed[i] == wanted {
                assert(self@[i as int] == input@);
                return true;
            }
            i = i + 1;
        }
        false
    }

    /// What the tool answers without running anything: `None` for an allowed
    /// command, which is then run, and otherwise the message that the command
    /// is blocked.
    pub fn screen(&self, input: &str) -> (r: Option<String>)
        ensures
            match r {
                None => self@.contains(input@),
                Some(message) => !self@.contains(input@) && message@ == blocked_prefix()
                    + input@,
            },
    {
        if self.allows(input) {
            None
        } else {
            let mut message = String::from_str("blocked: command is not in the lab allowlist: ");
            message.append(input);
            Some(message)
        }
    }

    /// The answer for a command that ran: its standard output when it
    /// succeeded, its error output when it failed, without trailing white space.
    pub fn finish(succeeded: bool, stdout: &str, stderr: &str) -> (r: String)
        ensures
            r@ == trim_end(if succeeded { stdout@ } else { stderr@ }),
    {
        if succeeded {
            trimmed_end(stdout)
        } else {
            trimmed_end(stderr)
        }
    }
}

} // verus!
