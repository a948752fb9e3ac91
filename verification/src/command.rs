//! The command language: what is typed behind a colon.
//!
//! A command is read from the text without the white space at its ends.
//! Some commands are one word and nothing else; the others are a word and
//! its arguments, parted by single spaces.

use crate::math::base::NumberBase;
use crate::text::{before, behind, split_once, str_eq, trim, trimmed};
use vstd::prelude::*;
use vstd::string::*;

verus! {

/// The operand that `load` fills.
#[derive(Clone, Copy, Debug, PartialEq, Eq, Structural)]
pub enum Operand {
    Left,
    Right,
}

/// What `store` keeps: an operand, or the result of the equation.
#[derive(Clone, Copy, Debug, PartialEq, Eq, Structural)]
pub enum Source {
    Left,
    Right,
    Result,
}

/// A command, as mathematics.
pub enum CommandView {
    /// The empty command, and everything that is not understood.
    Nothing,
    SetBase(NumberBase),
    ToggleDecorations,
    ToggleAlwaysOnTop,
    Quit,
    Write,
    Read,
    Clear,
    WriteQuit,
    Store(Source, Seq<char>),
    Load(Operand, Seq<char>),
    Path(Seq<char>),
    ReadFrom(Seq<char>),
    WriteTo(Seq<char>),
}

/// A command.
#[derive(Debug, PartialEq, Eq)]
pub enum Command {
    /// The empty command, and everything that is not understood.
    Nothing,
    /// Show numbers in the given base.
    SetBase(NumberBase),
    /// Show or hide the window's frame.
    ToggleDecorations,
    /// Keep the window above the others, or stop doing so.
    ToggleAlwaysOnTop,
    /// End the session.
    Quit,
    /// Write the variables to the current path.
    Write,
    /// Read the variables from the current path.
    Read,
    /// Forget every variable.
    Clear,
    /// Write the variables to the current path and end the session.
    WriteQuit,
    /// Keep an operand or the result under a name.
    Store(Source, String),
    /// Fill an operand from the variable of a name.
    Load(Operand, String),
    /// Make the given path the current one.
    Path(String),
    /// Read the variables from the given path, if there is such a file.
    ReadFrom(String),
    /// Make the given path the current one and write the variables to it.
    WriteTo(String),
}

impl View for Command {
    type V = CommandView;

    open spec fn view(&self) -> CommandView {
        match self {
            Command::Nothing => CommandView::Nothing,
            Command::SetBase(base) => CommandView::SetBase(*base),
            Command::ToggleDecorations => CommandView::ToggleDecorations,
            Command::ToggleAlwaysOnTop => CommandView::ToggleAlwaysOnTop,
            Command::Quit => CommandView::Quit,
            Command::Write => CommandView::Write,
            Command::Read => CommandView::Read,
            Command::Clear => CommandView::Clear,
            Command::WriteQuit => CommandView::WriteQuit,
            Command::Store(source, name) => CommandView::Store(*source, name@),
            Command::Load(operand, name) => CommandView::Load(*operand, name@),
            Command::Path(path) => CommandView::Path(path@),
            Command::ReadFrom(path) => CommandView::ReadFrom(path@),
            Command::WriteTo(path) => CommandView::WriteTo(path@),
        }
    }
}

/// The command that is one word and nothing else, if `t` is such a word.
pub open spec fn plain_command(t: Seq<char>) -> Option<CommandView> {
    if t == "b"@ || t == "binary"@ || t == "b2"@ {
        Some(CommandView::SetBase(NumberBase::Binary))
    } else if t == "x"@ || t == "hex"@ || t == "hexadecimal"@ || t == "b16"@ {
        Some(CommandView::SetBase(NumberBase::Hexadecimal))
    } else if t == "d"@ || t == "decimal"@ || t == "b10"@ {
        Some(CommandView::SetBase(NumberBase::Decimal))
    } else if t == "D"@ || t == "decorated"@ || t == "border"@ {
        Some(CommandView::ToggleDecorations)
    } else if t == "t"@ || t == "top"@ {
        Some(CommandView::ToggleAlwaysOnTop)
    } else if t == "q"@ || t == "quit"@ || t == "exit"@ {
        Some(CommandView::Quit)
    } else if t == "w"@ || t == "write"@ {
        Some(CommandView::Write)
    } else if t == "r"@ || t == "read"@ {
        Some(CommandView::Read)
    } else if t == "c"@ || t == "clear"@ {
        Some(CommandView::Clear)
    } else if t == "wq"@ {
        Some(CommandView::WriteQuit)
    } else if t == ""@ {
        Some(CommandView::Nothing)
    } else {
        None
    }
}

/// What the side word of `store` names.
pub open spec fn source_of(word: Seq<char>) -> Option<Source> {
    if word == "l"@ || word == "left"@ {
        Some(Source::Left)
    } else if word == "r"@ || word == "right"@ {
        Some(Source::Right)
    } else if word == "R"@ || word == "result"@ {
        Some(Source::Result)
    } else {
        None
    }
}

/// What the side word of `load` names.
pub open spec fn operand_of(word: Seq<char>) -> Option<Operand> {
    if word == "l"@ || word == "left"@ {
        Some(Operand::Left)
    } else if word == "r"@ || word == "right"@ {
        Some(Operand::Right)
    } else {
        None
    }
}

/// The text behind the first space of `t`; empty if `t` has no space.
pub open spec fn remainder(t: Seq<char>) -> Seq<char> {
    match behind(t, ' ') {
        Some(rest) => rest,
        None => Seq::empty(),
    }
}

/// The command that is a word with arguments. `store` and `load` take a
/// side and a name, each one word, and are nothing without them; what
/// follows the name is not read. `path`, `read` and `write` take all that
/// follows their first space. Any other word is nothing.
pub open spec fn argument_command(t: Seq<char>) -> CommandView {
    let verb = before(t, ' ');
    if verb == "s"@ || verb == "st"@ || verb == "store"@ {
        match behind(t, ' ') {
            None => CommandView::Nothing,
            Some(rest) => match (source_of(before(rest, ' ')), behind(rest, ' ')) {
                (Some(source), Some(last)) => CommandView::Store(source, before(last, ' ')),
                _ => CommandView::Nothing,
            },
        }
    } else if verb == "l"@ || verb == "ld"@ || verb == "load"@ {
        match behind(t, ' ') {
            None => CommandView::Nothing,
            Some(rest) => match (operand_of(before(rest, ' ')), behind(rest, ' ')) {
                (Some(operand), Some(last)) => CommandView::Load(operand, before(last, ' ')),
                _ => CommandView::Nothing,
            },
        }
    } else if verb == "p"@ || verb == "path"@ {
        CommandView::Path(remainder(t))
    } else if verb == "r"@ || verb == "read"@ {
        CommandView::ReadFrom(remainder(t))
    } else if verb == "w"@ || verb == "write"@ {
        CommandView::WriteTo(remainder(t))
    } else {
        CommandView::Nothing
    }
}

/// The command that a text spells: the text is trimmed, taken as a one-word
/// command if it is one, and as a word with arguments otherwise.
pub open spec fn command_of(text: Seq<char>) -> CommandView {
    let t = trimmed(text);
    match plain_command(t) {
        Some(command) => command,
        None => argument_command(t),
    }
}

fn plain(t: &str) -> (r: Option<Command>)
    ensures
        match r {
            Some(command) => plain_command(t@) == Some(command@),
            None => plain_command(t@) is None,
        },
{
    if str_eq(t, "b") || str_eq(t, "binary") || str_eq(t, "b2") {
        Some(Command::SetBase(NumberBase::Binary))
    } else if str_eq(t, "x") || str_eq(t, "hex") || str_eq(t, "hexadecimal") || str_eq(t, "b16") {
        Some(Command::SetBase(NumberBase::Hexadecimal))
    } else if str_eq(t, "d") || str_eq(t, "decimal") || str_eq(t, "b10") {
        Some(Command::SetBase(NumberBase::Decimal))
    } else if str_eq(t, "D") || str_eq(t, "decorated") || str_eq(t, "border") {
        Some(Command::ToggleDecorations)
    } else if str_eq(t, "t") || str_eq(t, "top") {
        Some(Command::ToggleAlwaysOnTop)
    } else if str_eq(t, "q") || str_eq(t, "quit") || str_eq(t, "exit") {
        Some(Command::Quit)
    } else if str_eq(t, "w") || str_eq(t, "write") {
        Some(Command::Write)
    } else if str_eq(t, "r") || str_eq(t, "read") {
        Some(Command::Read)
    } else if str_eq(t, "c") || str_eq(t, "clear") {
        Some(Command::Clear)
    } else if str_eq(t, "wq") {
        Some(Command::WriteQuit)
    } else if str_eq(t, "") {
        Some(Command::Nothing)
    } else {
        None
    }
}

fn source(word: &str) -> (r: Option<Source>)
    ensures
        r == source_of(word@),
{
    if str_eq(word, "l") || str_eq(word, "left") {
        Some(Source::Left)
    } else if str_eq(word, "r") || str_eq(word, "right") {
        Some(Source::Right)
    } else if str_eq(word, "R") || str_eq(word, "result") {
        Some(Source::Result)
    } else {
        None
    }
}

fn operand(word: &str) -> (r: Option<Operand>)
    ensures
        r == operand_of(word@),
{
    if str_eq(word, "l") || str_eq(word, "left") {
        Some(Operand::Left)
    } else if str_eq(word, "r") || str_eq(word, "right") {
        Some(Operand::Right)
    } else {
        None
    }
}

/// The side word and the name that follow a verb, if both are there.
fn side_and_name<'a>(rest: Option<&'a str>) -> (r: Option<(&'a str, &'a str)>)
    ensures
        match r {
            Some((side, name)) => rest is Some && side@ == before(rest.unwrap()@, ' ') && behind(
                rest.unwrap()@,
                ' ',
            ) is Some && name@ == before(behind(rest.unwrap()@, ' ').unwrap(), ' '),
            None => rest is None || behind(rest.unwrap()@, ' ') is None,
        },
{
    match rest {
        None => None,
        Some(rest) => {
            let (side, last) = split_once(rest, ' ');
            match last {
                None => None,
                Some(last) => {
                    let (name, _) = split_once(last, ' ');
                    Some((side, name))
                },
            }
        },
    }
}

fn with_arguments(t: &str) -> (r: Command)
    ensures
        r@ == argument_command(t@),
{
    let (verb, rest) = split_once(t, ' ');
    if str_eq(verb, "s") || str_eq(verb, "st") || str_eq(verb, "store") {
        match side_and_name(rest) {
            None => Command::Nothing,
            Some((side, name)) => match source(side) {
                None => Command::Nothing,
                Some(source) => Command::Store(source, String::from_str(name)),
            },
        }
    } else if str_eq(verb, "l") || str_eq(verb, "ld") || str_eq(verb, "load") {
        match side_and_name(rest) {
            None => Command::Nothing,
            Some((side, name)) => match operand(side) {
                None => Command::Nothing,
                Some(operand) => Command::Load(operand, String::from_str(name)),
            },
        }
    } else {
        let path = match rest {
            Some(rest) => String::from_str(rest),
            None => String::new(),
        };
        if str_eq(verb, "p") || str_eq(verb, "path") {
            Command::Path(path)
        } else if str_eq(verb, "r") || str_eq(verb, "read") {
            Command::ReadFrom(path)
        } else if str_eq(verb, "w") || str_eq(verb, "write") {
            Command::WriteTo(path)
        } else {
            Command::Nothing
        }
    }
}

/// Reads a command.
pub fn parse_command(text: &str) -> (r: Command)
    ensures
        r@ == command_of(text@),
{
    let t = trim(text);
    match plain(t) {
        Some(command) => command,
        None => with_arguments(t),
    }
}

} // verus!
