//! The commands of the debugger's prompt.

use vstd::prelude::*;

verus! {

/// One command, as typed at the prompt.
#[derive(Debug, Clone, PartialEq, Eq)]
pub enum DebuggerCommand {
    Quit,
    Run(Vec<String>),
    Continue,
    Kill,
    Backtrace,
    Breakpoint(String),
}

/// The mathematical content of a [`DebuggerCommand`].
pub enum CommandView {
    Quit,
    Run(Seq<Seq<char>>),
    Continue,
    Kill,
    Backtrace,
    Breakpoint(Seq<char>),
}

impl View for DebuggerCommand {
    type V = CommandView;

    open spec fn view(&self) -> CommandView {
        match self {
            DebuggerCommand::Quit => CommandView::Quit,
            DebuggerCommand::Run(args) => CommandView::Run(args.deep_view()),
            DebuggerCommand::Continue => CommandView::Continue,
            DebuggerCommand::Kill => CommandView::Kill,
            DebuggerCommand::Backtrace => CommandView::Backtrace,
            DebuggerCommand::Breakpoint(location) => CommandView::Breakpoint(location@),
        }
    }
}

/// The words of a line, as sequences of characters.
pub open spec fn words(tokens: Seq<&str>) -> Seq<Seq<char>> {
    Seq::new(tokens.len(), |i: int| tokens[i]@)
}

/// Whether `word` asks for a breakpoint.
pub open spec fn is_break(word: Seq<char>) -> bool {
    word == "b"@ || word == "break"@
}

/// The command that a line of words stands for, if any. The first word
/// names the command; `run` takes all further words as arguments, `break`
/// takes the second word as the location.
pub open spec fn command_of(line: Seq<Seq<char>>) -> Option<CommandView> {
    let head = line[0];
    if head == "q"@ || head == "quit"@ {
        Some(CommandView::Quit)
    } else if head == "r"@ || head == "run"@ {
        Some(CommandView::Run(line.subrange(1, line.len() as int)))
    } else if head == "c"@ || head == "cont"@ || head == "continue"@ {
        Some(CommandView::Continue)
    } else if head == "k"@ || head == "kill"@ {
        Some(CommandView::Kill)
    } else if head == "bt"@ || head == "back"@ || head == "backtrace"@ {
        Some(CommandView::Backtrace)
    } else if is_break(head) {
        Some(CommandView::Breakpoint(line[1]))
    } else {
        None
    }
}

/// Whether two string slices hold the same characters.
fn same(a: &str, b: &str) -> (eq: bool)
    ensures
        eq == (a@ == b@),
{
    a.to_owned() == b.to_owned()
}

impl DebuggerCommand {
    /// Reads a command from the words of a line. The line has at least one
    /// word, and a `break` command has its location as second word.
    pub fn from_tokens(tokens: &Vec<&str>) -> (cmd: Option<DebuggerCommand>)
        requires
            tokens@.len() >= 1,
            is_break(tokens@[0]@) ==> tokens@.len() >= 2,
        ensures
            cmd.is_some() == command_of(words(tokens@)).is_some(),
            cmd matches Some(c) ==> Some(c@) == command_of(words(tokens@)),
    {
        let head: &str = tokens[0];
        assert(words(tokens@)[0] == head@);
        if same(head, "q") || same(head, "quit") {
            Some(DebuggerCommand::Quit)
        } else if same(head, "r") || same(head, "run") {
            let mut args: Vec<String> = Vec::new();
            let mut i: usize = 1;
            while i < tokens.len()
                invariant
                    1 <= i <= tokens@.len(),
                    args@.len() == i - 1,
                    forall|j: int| 0 <= j < args@.len() ==> args@[j]@ == tokens@[j + 1]@,
                decreases tokens@.len() - i,
            {
                args.push(tokens[i].to_owned());
                i += 1;
            }
            assert(args.deep_view() =~= words(tokens@).subrange(1, tokens@.len() as int));
            Some(DebuggerCommand::Run(args))
        } else if same(head, "c") || same(head, "cont") || same(head, "continue") {
            Some(DebuggerCommand::Continue)
        } else if same(head, "k") || same(head, "kill") {
            Some(DebuggerCommand::Kill)
        } else if same(head, "bt") || same(head, "back") || same(head, "backtrace") {
            Some(DebuggerCommand::Backtrace)
        } else if same(head, "b") || same(head, "break") {
            let location: &str = tokens[1];
            assert(words(tokens@)[1] == location@);
            Some(DebuggerCommand::Breakpoint(location.to_owned()))
        } else {
            None
        }
    }
}

} // verus!
