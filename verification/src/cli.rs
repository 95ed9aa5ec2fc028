//! What the interactive shell makes of a line the user typed.
use vstd::prelude::*;

use crate::text::{
    chars_eq, chars_of, string_of, trim, trim_chars, trim_end, trim_end_chars, TrimSet,
};

verus! {

/// What to do with one input line.
#[derive(Debug, PartialEq, Eq)]
pub enum InputAction {
    /// Nothing was typed.
    Skip,
    /// `exit` or `quit`: leave the shell.
    Exit,
    /// Anything else is a query, with trailing whitespace removed.
    Query(String),
}

/// The mathematical form of an input action.
pub enum InputActionView {
    Skip,
    Exit,
    Query(Seq<char>),
}

impl View for InputAction {
    type V = InputActionView;

    open spec fn view(&self) -> InputActionView {
        match self {
            InputAction::Skip => InputActionView::Skip,
            InputAction::Exit => InputActionView::Exit,
            InputAction::Query(q) => InputActionView::Query(q@),
        }
    }
}

/// The action for a raw input line: its trailing whitespace removed, an
/// empty line is skipped, `exit` and `quit` leave, anything else is a query.
pub open spec fn input_action(raw: Seq<char>) -> InputActionView {
    let t = trim_end(raw);
    if t.len() == 0 {
        InputActionView::Skip
    } else if t == "exit"@ || t == "quit"@ {
        InputActionView::Exit
    } else {
        InputActionView::Query(t)
    }
}

/// An approval prompt is answered yes by `y` or `Y`, surrounding whitespace aside.
pub open spec fn approves(line: Seq<char>) -> bool {
    trim(line) == "y"@ || trim(line) == "Y"@
}

/// Classifies a raw input line.
pub fn parse_input_line(raw: &str) -> (a: InputAction)
    ensures
        a@ == input_action(raw@),
{
    let t = trim_end_chars(&chars_of(raw), TrimSet::Whitespace);
    if t.len() == 0 {
        return InputAction::Skip;
    }
    if chars_eq(&t, &chars_of("exit")) || chars_eq(&t, &chars_of("quit")) {
        return InputAction::Exit;
    }
    InputAction::Query(string_of(&t))
}

/// Whether the answer to an approval prompt approves
/// (`line.trim().eq_ignore_ascii_case("y")`).
pub fn parse_approval(line: &str) -> (yes: bool)
    ensures
        yes == approves(line@),
{
    let t = trim_chars(&chars_of(line), TrimSet::Whitespace);
    chars_eq(&t, &chars_of("y")) || chars_eq(&t, &chars_of("Y"))
}

/// The answer to a question prompt: the line without surrounding whitespace.
pub fn parse_answer(line: &str) -> (answer: String)
    ensures
        answer@ == trim(line@),
{
    string_of(&trim_chars(&chars_of(line), TrimSet::Whitespace))
}

/// Only a lone `y` or `Y`, surrounding whitespace aside, approves: every
/// other answer (an empty line, `n`, `N`, `yes`, ...) denies.
pub proof fn law_only_y_approves(line: Seq<char>)
    ensures
        approves(line) <==> (trim(line).len() == 1 && (trim(line)[0] == 'y' || trim(line)[0] == 'Y')),
{
    reveal_strlit("y");
    reveal_strlit("Y");
    let t = trim(line);
    if t.len() == 1 && t[0] == 'y' {
        assert(t =~= "y"@);
    }
    if t.len() == 1 && t[0] == 'Y' {
        assert(t =~= "Y"@);
    }
}

} // verus!
