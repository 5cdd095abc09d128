//! The commands handled inside the engine rather than by spawning a program.
use vstd::prelude::*;
use vstd::string::*;
use crate::execution::{Outcome, OutcomeView};

verus! {

/// The built-in commands.
#[derive(Debug, Clone, Copy, PartialEq, Eq, Structural)]
pub enum BuiltIn {
    ChangeDirectory,
    ViewDirectives,
    Exit,
    ViewHistory,
    Help,
}

/// The built-in that a command name selects, matched exactly.
pub open spec fn built_in_of(cmd: Seq<char>) -> Option<BuiltIn> {
    if cmd == seq!['c', 'd'] {
        Some(BuiltIn::ChangeDirectory)
    } else if cmd == seq!['v', 'i', 'e', 'w'] {
        Some(BuiltIn::ViewDirectives)
    } else if cmd == seq!['e', 'x', 'i', 't'] {
        Some(BuiltIn::Exit)
    } else if cmd == seq!['h', 'i', 's', 't', 'o', 'r', 'y'] {
        Some(BuiltIn::ViewHistory)
    } else if cmd == seq!['h', 'e', 'l', 'p'] {
        Some(BuiltIn::Help)
    } else {
        None
    }
}

fn text_is(s: &String, lit: &str) -> (r: bool)
    ensures
        r == (s@ == lit@),
{
    let t = s.as_str();
    let n = t.unicode_len();
    if n != lit.unicode_len() {
        return false;
    }
    let mut i: usize = 0;
    while i < n
        invariant
            n == t@.len(),
            n == lit@.len(),
            t@ == s@,
            i <= n,
            forall|j: int| 0 <= j < i ==> t@[j] == lit@[j],
        decreases n - i,
    {
        if t.get_char(i) != lit.get_char(i) {
            return false;
        }
        i = i + 1;
    }
    assert(t@ =~= lit@);
    true
}

/// Looks a command name up among the built-ins.
pub fn built_in(cmd: &String) -> (r: Option<BuiltIn>)
    ensures
        r == built_in_of(cmd@),
{
    proof {
        reveal_strlit("cd");
        reveal_strlit("view");
        reveal_strlit("exit");
        reveal_strlit("history");
        reveal_strlit("help");
        assert("cd"@ =~= seq!['c', 'd']);
        assert("view"@ =~= seq!['v', 'i', 'e', 'w']);
        assert("exit"@ =~= seq!['e', 'x', 'i', 't']);
        assert("history"@ =~= seq!['h', 'i', 's', 't', 'o', 'r', 'y']);
        assert("help"@ =~= seq!['h', 'e', 'l', 'p']);
    }
    if text_is(cmd, "cd") {
        Some(BuiltIn::ChangeDirectory)
    } else if text_is(cmd, "view") {
        Some(BuiltIn::ViewDirectives)
    } else if text_is(cmd, "exit") {
        Some(BuiltIn::Exit)
    } else if text_is(cmd, "history") {
        Some(BuiltIn::ViewHistory)
    } else if text_is(cmd, "help") {
        Some(BuiltIn::Help)
    } else {
        None
    }
}

/// Ends the session: nothing is run, and the run counts as a success.
pub fn exit_term() -> (r: Outcome)
    ensures
        r@ == (OutcomeView {
            continue_session: false,
            succeeded: true,
            output: Seq::empty(),
            message: None,
        }),
{
    Outcome { continue_session: false, succeeded: true, output: String::new(), message: None }
}

pub open spec fn help_text() -> Seq<char> {
    "This is the pipeline shell.\n\nThe built-in commands are:\n  cd view exit history help\n"@
}

/// Shows the built-in commands.
pub fn help() -> (r: Outcome)
    ensures
        r@ == (OutcomeView {
            continue_session: true,
            succeeded: true,
            output: help_text(),
            message: None,
        }),
{
    Outcome {
        continue_session: true,
        succeeded: true,
        output: String::from_str(
            "This is the pipeline shell.\n\nThe built-in commands are:\n  cd view exit history help\n",
        ),
        message: None,
    }
}

} // verus!
