//! The session: the equation, the command line, the base, the variables and
//! where they are kept.
//!
//! The session decides and the host acts: a command that needs a file
//! returns what is to be read or written, and the host hands the text of a
//! file back.

use crate::command::{command_of, parse_command, Command, CommandView, Operand, Source};
use crate::config::Config;
use crate::math::base::NumberBase;
use crate::math::equation::{Equation, EquationView};
use crate::math::number::Num;
use crate::variables::{
    decode_text, distinct_names, encode_text, lemma_stored, lookup, stored, Variables,
};
use vstd::prelude::*;
use vstd::string::*;

verus! {

/// The first character of what `char::to_uppercase` gives for `c`.
pub uninterp spec fn uppercase_first(c: char) -> char;

/// `char::to_uppercase`, of which the first character is taken: the upper
/// case form of `c` after Unicode's tables.
#[verifier::external_body]
fn to_uppercase_first(c: char) -> (r: char)
    ensures
        r == uppercase_first(c),
{
    c.to_uppercase().next().unwrap_or(c)
}

/// `s` without its line feeds.
pub open spec fn without_line_feeds(s: Seq<char>) -> Seq<char>
    decreases s.len(),
{
    if s.len() == 0 {
        Seq::empty()
    } else if s.last() == '\n' {
        without_line_feeds(s.drop_last())
    } else {
        without_line_feeds(s.drop_last()).push(s.last())
    }
}

/// The equation after the keys `keys`, each in its upper case form.
pub open spec fn type_keys(e: EquationView, keys: Seq<char>, base: NumberBase) -> EquationView
    decreases keys.len(),
{
    if keys.len() == 0 {
        e
    } else {
        type_keys(e, keys.drop_last(), base).type_key(seq![uppercase_first(keys.last())], base)
    }
}

/// What is left for the host to do after a command, as mathematics.
pub enum OutcomeView {
    Done,
    BaseChanged,
    ToggleDecorations,
    ToggleAlwaysOnTop,
    Write { path: Seq<char>, data: Seq<char> },
    Read { path: Seq<char> },
    ReadFrom { path: Seq<char> },
    NoRightOperand,
    NoResult,
    NoVariable { name: Seq<char> },
}

/// What is left for the host to do after a command.
#[derive(Debug, PartialEq, Eq)]
pub enum Outcome {
    /// Nothing.
    Done,
    /// The base has changed; the host may say so.
    BaseChanged,
    /// Show or hide the window's frame.
    ToggleDecorations,
    /// Keep the window above the others, or stop doing so.
    ToggleAlwaysOnTop,
    /// Write `data` to the file at `path`.
    Write { path: String, data: String },
    /// Read the file at `path` and hand its text to `read_vars`; if it
    /// cannot be read, do nothing.
    Read { path: String },
    /// If there is a file at `path`, read it and hand path and text to
    /// `read_vars_from`.
    ReadFrom { path: String },
    /// The command spoke of a right operand and there is none.
    NoRightOperand,
    /// The command asked for the result and the equation has none.
    NoResult,
    /// No variable of that name is kept.
    NoVariable { name: String },
}

impl View for Outcome {
    type V = OutcomeView;

    open spec fn view(&self) -> OutcomeView {
        match self {
            Outcome::Done => OutcomeView::Done,
            Outcome::BaseChanged => OutcomeView::BaseChanged,
            Outcome::ToggleDecorations => OutcomeView::ToggleDecorations,
            Outcome::ToggleAlwaysOnTop => OutcomeView::ToggleAlwaysOnTop,
            Outcome::Write { path, data } => OutcomeView::Write { path: path@, data: data@ },
            Outcome::Read { path } => OutcomeView::Read { path: path@ },
            Outcome::ReadFrom { path } => OutcomeView::ReadFrom { path: path@ },
            Outcome::NoRightOperand => OutcomeView::NoRightOperand,
            Outcome::NoResult => OutcomeView::NoResult,
            Outcome::NoVariable { name } => OutcomeView::NoVariable { name: name@ },
        }
    }
}

/// What a session is, as mathematics.
pub struct StateView {
    pub equation: EquationView,
    /// The command line, in command mode.
    pub command: Option<Seq<char>>,
    pub base: NumberBase,
    /// The variables, each name once, in the order in which they are
    /// written out.
    pub variables: Seq<(Seq<char>, real)>,
    pub vars_path: Seq<char>,
    pub config: Config,
    pub exiting: bool,
}

impl StateView {
    /// The most fractional digits a rendering may hold.
    pub open spec fn places(self) -> nat {
        self.config.max_fractional_places as nat
    }

    /// The text on show: the command line behind a colon in command mode,
    /// and the equation otherwise.
    pub open spec fn display(self) -> Seq<char> {
        match self.command {
            Some(command) => seq![':'] + command,
            None => self.equation.render(self.base, self.places()),
        }
    }

    /// The text form of the variables.
    pub open spec fn vars_text(self) -> Seq<char> {
        encode_text(self.variables, self.places())
    }

    /// After text is typed or pasted. Line feeds are dropped. In command
    /// mode the text goes to the end of the command line. Otherwise a text
    /// that starts with a colon opens the command line with what follows the
    /// colon, and any other text is typed into the equation key by key.
    pub open spec fn type_text(self, text: Seq<char>) -> StateView {
        let t = without_line_feeds(text);
        match self.command {
            Some(command) => StateView { command: Some(command + t), ..self },
            None => if t.len() > 0 && t[0] == ':' {
                StateView { command: Some(t.drop_first()), ..self }
            } else {
                StateView { equation: type_keys(self.equation, t, self.base), ..self }
            },
        }
    }

    /// After backspace. In command mode the command line loses its last
    /// character, and an empty command line closes; otherwise the equation
    /// takes the backspace.
    pub open spec fn delete_one(self) -> StateView {
        match self.command {
            Some(command) => if command.len() > 0 {
                StateView { command: Some(command.drop_last()), ..self }
            } else {
                StateView { command: None, ..self }
            },
            None => StateView { equation: self.equation.delete_one(self.base.radix()), ..self },
        }
    }

    /// After the enter key outside command mode: the equation gives way to
    /// its result, if it has one.
    pub open spec fn evaluate(self) -> StateView {
        match self.equation.evaluate() {
            Some(result) => StateView { equation: result, ..self },
            None => self,
        }
    }

    /// After `store`: the left operand, the right operand or the result is
    /// kept under `name`. Without a right operand, or without a result,
    /// nothing changes.
    pub open spec fn store_variable(self, source: Source, name: Seq<char>) -> (
        StateView,
        OutcomeView,
    ) {
        let value = match source {
            Source::Left => Ok(self.equation.left),
            Source::Right => match self.equation.right() {
                Some(right) => Ok(right),
                None => Err(OutcomeView::NoRightOperand),
            },
            Source::Result => match self.equation.evaluate() {
                Some(result) => Ok(result.left),
                None => Err(OutcomeView::NoResult),
            },
        };
        match value {
            Ok(v) => (
                StateView { variables: stored(self.variables, name, v), ..self },
                OutcomeView::Done,
            ),
            Err(outcome) => (self, outcome),
        }
    }

    /// After `load`: the variable of `name` takes the place of an operand.
    /// Without such a variable, or without a right operand to fill, nothing
    /// changes.
    pub open spec fn load_variable(self, operand: Operand, name: Seq<char>) -> (
        StateView,
        OutcomeView,
    ) {
        match lookup(self.variables, name) {
            None => (self, OutcomeView::NoVariable { name }),
            Some(v) => match operand {
                Operand::Left => (
                    StateView { equation: EquationView { left: v, ..self.equation }, ..self },
                    OutcomeView::Done,
                ),
                Operand::Right => if self.equation.editing_left() {
                    (self, OutcomeView::NoRightOperand)
                } else {
                    (
                        StateView { equation: self.equation.with_editing_num(v), ..self },
                        OutcomeView::Done,
                    )
                },
            },
        }
    }

    /// After the text of a variables file is handed in: the variables are
    /// those of the text.
    pub open spec fn read_vars(self, data: Seq<char>) -> StateView {
        StateView { variables: decode_text(data), ..self }
    }

    /// What a command does to the session, and what it leaves for the host.
    pub open spec fn apply(self, command: CommandView) -> (StateView, OutcomeView) {
        match command {
            CommandView::Nothing => (self, OutcomeView::Done),
            CommandView::SetBase(base) => (StateView { base, ..self }, OutcomeView::BaseChanged),
            CommandView::ToggleDecorations => (self, OutcomeView::ToggleDecorations),
            CommandView::ToggleAlwaysOnTop => (self, OutcomeView::ToggleAlwaysOnTop),
            CommandView::Quit => (StateView { exiting: true, ..self }, OutcomeView::Done),
            CommandView::Write => (
                self,
                OutcomeView::Write { path: self.vars_path, data: self.vars_text() },
            ),
            CommandView::Read => (self, OutcomeView::Read { path: self.vars_path }),
            CommandView::Clear => (
                StateView { variables: Seq::empty(), ..self },
                OutcomeView::Done,
            ),
            CommandView::WriteQuit => (
                StateView { exiting: true, ..self },
                OutcomeView::Write { path: self.vars_path, data: self.vars_text() },
            ),
            CommandView::Store(source, name) => self.store_variable(source, name),
            CommandView::Load(operand, name) => self.load_variable(operand, name),
            CommandView::Path(path) => (StateView { vars_path: path, ..self }, OutcomeView::Done),
            CommandView::ReadFrom(path) => (self, OutcomeView::ReadFrom { path }),
            CommandView::WriteTo(path) => (
                StateView { vars_path: path, ..self },
                OutcomeView::Write { path, data: self.vars_text() },
            ),
        }
    }

    /// After the enter key in command mode: the command line is read and
    /// carried out, and the session is back at the equation, whatever the
    /// command was. Outside command mode the empty command is carried out.
    pub open spec fn execute(self) -> (StateView, OutcomeView) {
        let text = match self.command {
            Some(command) => command,
            None => Seq::empty(),
        };
        let (after, outcome) = self.apply(command_of(text));
        (StateView { command: None, ..after }, outcome)
    }
}

/// `store` of the right operand changes nothing while the left operand is
/// being edited, whether it is called by itself or typed as a command.
pub proof fn lemma_store_right_needs_operator(s: StateView, name: Seq<char>)
    requires
        s.equation.editing_left(),
    ensures
        s.store_variable(Source::Right, name) == (s, OutcomeView::NoRightOperand),
        s.apply(CommandView::Store(Source::Right, name)).0 == s,
        s.command is Some && command_of(s.command.unwrap()) == CommandView::Store(
            Source::Right,
            name,
        ) ==> s.execute().0.variables == s.variables && s.execute().0.equation == s.equation,
{
}

/// What `store` keeps under a name is what `load` of that name puts in
/// place of the left operand, and the other variables stay as they were.
pub proof fn lemma_load_gives_what_store_kept(s: StateView, source: Source, name: Seq<char>)
    requires
        distinct_names(s.variables),
        s.store_variable(source, name).1 == OutcomeView::Done,
    ensures
        ({
            let kept = s.store_variable(source, name).0;
            let value = match source {
                Source::Left => s.equation.left,
                Source::Right => s.equation.right().unwrap(),
                Source::Result => s.equation.evaluate().unwrap().left,
            };
            &&& distinct_names(kept.variables)
            &&& lookup(kept.variables, name) == Some(value)
            &&& kept.load_variable(Operand::Left, name).1 == OutcomeView::Done
            &&& kept.load_variable(Operand::Left, name).0.equation.left == value
            &&& forall|other: Seq<char>|
                other != name ==> lookup(kept.variables, other) == lookup(s.variables, other)
        }),
{
    let value = match source {
        Source::Left => s.equation.left,
        Source::Right => s.equation.right().unwrap(),
        Source::Result => s.equation.evaluate().unwrap().left,
    };
    lemma_stored(s.variables, name, value);
}

/// No command and no keystroke makes two variables share a name.
pub proof fn lemma_names_stay_distinct(s: StateView, command: CommandView, text: Seq<char>)
    requires
        distinct_names(s.variables),
    ensures
        distinct_names(s.apply(command).0.variables),
        distinct_names(s.execute().0.variables),
        distinct_names(s.type_text(text).variables),
        distinct_names(s.delete_one().variables),
        distinct_names(s.evaluate().variables),
{
    match command {
        CommandView::Store(source, name) => {
            lemma_store_keeps_names_distinct(s, source, name);
        },
        _ => {},
    }
    let typed = match s.command {
        Some(line) => line,
        None => Seq::empty(),
    };
    match command_of(typed) {
        CommandView::Store(source, name) => {
            lemma_store_keeps_names_distinct(s, source, name);
        },
        _ => {},
    }
}

proof fn lemma_store_keeps_names_distinct(s: StateView, source: Source, name: Seq<char>)
    requires
        distinct_names(s.variables),
    ensures
        distinct_names(s.store_variable(source, name).0.variables),
{
    if s.store_variable(source, name).1 == OutcomeView::Done {
        lemma_load_gives_what_store_kept(s, source, name);
    }
}

/// A session of the calculator.
#[derive(Debug, PartialEq, Eq)]
pub struct State {
    equation: Equation,
    command: Option<String>,
    base: NumberBase,
    variables: Variables,
    vars_path: String,
    config: Config,
    exiting: bool,
}

impl View for State {
    type V = StateView;

    closed spec fn view(&self) -> StateView {
        StateView {
            equation: self.equation@,
            command: match self.command {
                Some(command) => Some(command@),
                None => None,
            },
            base: self.base,
            variables: self.variables@,
            vars_path: self.vars_path@,
            config: self.config,
            exiting: self.exiting,
        }
    }
}

impl State {
    /// A fresh session under `config`: an empty equation in the configured
    /// base, no variables, and `minicalc-vars` as the path.
    pub fn new(config: Config) -> (r: State)
        ensures
            r@ == (StateView {
                equation: EquationView::empty(),
                command: None,
                base: config.base,
                variables: Seq::empty(),
                vars_path: "minicalc-vars"@,
                config,
                exiting: false,
            }),
    {
        State {
            equation: Equation::default(),
            command: None,
            base: config.base,
            variables: Variables::new(),
            vars_path: String::from_str("minicalc-vars"),
            config,
            exiting: false,
        }
    }

    /// The equation.
    pub fn equation(&self) -> (r: &Equation)
        ensures
            r@ == self@.equation,
    {
        &self.equation
    }

    /// The command line, in command mode.
    pub fn command(&self) -> (r: Option<&String>)
        ensures
            match r {
                Some(command) => self@.command == Some(command@),
                None => self@.command is None,
            },
    {
        match &self.command {
            Some(command) => Some(command),
            None => None,
        }
    }

    /// The base numbers are shown in.
    pub fn base(&self) -> (r: NumberBase)
        ensures
            r == self@.base,
    {
        self.base
    }

    /// Shows numbers in `base` from now on.
    pub fn set_base(&mut self, base: NumberBase)
        ensures
            final(self)@ == (StateView { base, ..old(self)@ }),
    {
        self.base = base;
    }

    /// The variables.
    pub fn variables(&self) -> (r: &Variables)
        ensures
            r@ == self@.variables,
    {
        &self.variables
    }

    /// Where the variables are kept between sessions.
    pub fn vars_path(&self) -> (r: &String)
        ensures
            r@ == self@.vars_path,
    {
        &self.vars_path
    }

    /// Keeps the variables at `path` from now on.
    pub fn set_vars_path(&mut self, path: String)
        ensures
            final(self)@ == (StateView { vars_path: path@, ..old(self)@ }),
    {
        self.vars_path = path;
    }

    /// The settings of the session.
    pub fn config(&self) -> (r: Config)
        ensures
            r == self@.config,
    {
        self.config
    }

    /// Whether a command has asked for the session to end.
    pub fn exiting(&self) -> (r: bool)
        ensures
            r == self@.exiting,
    {
        self.exiting
    }

    /// The text on show.
    pub fn display(&self) -> (r: String)
        ensures
            r@ == self@.display(),
    {
        match &self.command {
            Some(command) => {
                proof {
                    reveal_strlit(":");
                    assert(":"@ =~= seq![':']);
                }
                let mut out = String::from_str(":");
                out.append(command.as_str());
                out
            },
            None => self.equation.display(self.base, self.config.max_fractional_places),
        }
    }

    /// Types one key into the equation, as it is.
    pub fn type_key(&mut self, key: char)
        ensures
            final(self)@ == (StateView {
                equation: old(self)@.equation.type_key(seq![key], old(self)@.base),
                ..old(self)@
            }),
    {
        self.equation.type_char(key, self.base);
    }

    /// Types one key into the equation, in its upper case form.
    pub fn try_type_single(&mut self, char: char)
        ensures
            final(self)@ == (StateView {
                equation: old(self)@.equation.type_key(
                    seq![uppercase_first(char)],
                    old(self)@.base,
                ),
                ..old(self)@
            }),
    {
        let key = to_uppercase_first(char);
        self.type_key(key);
    }

    /// Opens the command line with `command` on it.
    pub fn enter_command_entry(&mut self, command: String)
        ensures
            final(self)@ == (StateView { command: Some(command@), ..old(self)@ }),
    {
        self.command = Some(command);
    }

    /// Closes the command line.
    pub fn enter_equation_entry(&mut self)
        ensures
            final(self)@ == (StateView { command: None, ..old(self)@ }),
    {
        self.command = None;
    }

    /// The text form of the variables, for the host to write to the path.
    pub fn write_vars(&self) -> (r: String)
        ensures
            r@ == self@.vars_text(),
    {
        self.variables.encode(self.config.max_fractional_places)
    }

    /// Takes the variables from the text of a variables file, in place of
    /// those kept so far.
    pub fn read_vars(&mut self, data: &str)
        ensures
            final(self)@ == old(self)@.read_vars(data@),
            distinct_names(final(self)@.variables),
    {
        self.variables = Variables::decode(data);
    }

    /// Makes `path` the current path and takes the variables from the text
    /// of the file there.
    pub fn read_vars_from(&mut self, path: String, data: &str)
        ensures
            final(self)@ == (StateView { vars_path: path@, ..old(self)@.read_vars(data@) }),
            distinct_names(final(self)@.variables),
    {
        self.vars_path = path;
        self.variables = Variables::decode(data);
    }

    /// Takes a backspace.
    pub fn delete_one(&mut self)
        ensures
            final(self)@ == old(self)@.delete_one(),
    {
        let shorter = match &self.command {
            Some(command) => {
                let len = command.as_str().unicode_len();
                if len > 0 {
                    let kept = command.as_str().substring_char(0, len - 1);
                    assert(kept@ =~= command@.drop_last());
                    Some(Some(String::from_str(kept)))
                } else {
                    Some(None)
                }
            },
            None => None,
        };
        match shorter {
            Some(command) => {
                self.command = command;
            },
            None => {
                self.equation.delete_one_mut(self.base);
            },
        }
    }

    /// Takes the enter key outside command mode.
    pub fn evaluate(&mut self)
        ensures
            final(self)@ == old(self)@.evaluate(),
    {
        self.equation.eval_mut();
    }

    /// Takes text that was typed or pasted.
    pub fn type_string(&mut self, text: String)
        ensures
            final(self)@ == old(self)@.type_text(text@),
    {
        let text = text.as_str();
        let len = text.unicode_len();
        // the text without its line feeds
        let mut clean = String::new();
        let mut i: usize = 0;
        proof {
            assert(text@.subrange(0, 0) =~= Seq::empty());
        }
        while i < len
            invariant
                i <= len,
                len == text@.len(),
                clean@ == without_line_feeds(text@.subrange(0, i as int)),
            decreases len - i,
        {
            proof {
                let upto = text@.subrange(0, i + 1);
                assert(upto.drop_last() =~= text@.subrange(0, i as int));
                assert(upto.last() == text@[i as int]);
                assert(text@.subrange(i as int, i + 1) =~= seq![text@[i as int]]);
            }
            if text.get_char(i) != '\n' {
                clean.append(text.substring_char(i, i + 1));
            }
            i += 1;
        }
        proof {
            assert(text@.subrange(0, len as int) =~= text@);
        }
        let clean = clean.as_str();
        let count = clean.unicode_len();
        let longer = match &self.command {
            Some(command) => {
                let mut line = command.clone();
                line.append(clean);
                Some(line)
            },
            None => if count > 0 && clean.get_char(0) == ':' {
                let rest = clean.substring_char(1, count);
                assert(rest@ =~= clean@.drop_first());
                Some(String::from_str(rest))
            } else {
                None
            },
        };
        match longer {
            Some(line) => {
                self.command = Some(line);
            },
            None => {
                let ghost start = self.equation@;
                let mut k: usize = 0;
                proof {
                    assert(clean@.subrange(0, 0) =~= Seq::empty());
                }
                while k < count
                    invariant
                        k <= count,
                        count == clean@.len(),
                        self@ == (StateView {
                            equation: type_keys(
                                start,
                                clean@.subrange(0, k as int),
                                old(self)@.base,
                            ),
                            ..old(self)@
                        }),
                    decreases count - k,
                {
                    proof {
                        let upto = clean@.subrange(0, k + 1);
                        assert(upto.drop_last() =~= clean@.subrange(0, k as int));
                        assert(upto.last() == clean@[k as int]);
                    }
                    self.try_type_single(clean.get_char(k));
                    k += 1;
                }
                proof {
                    assert(clean@.subrange(0, count as int) =~= clean@);
                }
            },
        }
    }

    /// Keeps the left operand, the right operand or the result under
    /// `name`.
    pub fn store_variable(&mut self, source: Source, name: &str) -> (r: Outcome)
        ensures
            (final(self)@, r@) == old(self)@.store_variable(source, name@),
            distinct_names(old(self)@.variables) ==> distinct_names(final(self)@.variables),
    {
        let value = match source {
            Source::Left => self.equation.left().clone(),
            Source::Right => match self.equation.right() {
                Some(right) => right.clone(),
                None => {
                    return Outcome::NoRightOperand;
                },
            },
            Source::Result => match self.equation.eval() {
                Some(result) => result.left().clone(),
                None => {
                    return Outcome::NoResult;
                },
            },
        };
        self.variables.insert(String::from_str(name), value);
        Outcome::Done
    }

    /// Puts the variable of `name` in place of an operand.
    pub fn load_variable(&mut self, operand: Operand, name: &str) -> (r: Outcome)
        ensures
            (final(self)@, r@) == old(self)@.load_variable(operand, name@),
    {
        let value = match self.variables.get(name) {
            Some(value) => value.clone(),
            None => {
                return Outcome::NoVariable { name: String::from_str(name) };
            },
        };
        match operand {
            Operand::Left => {
                self.equation.set_left(value);
                Outcome::Done
            },
            Operand::Right => {
                if self.equation.set_right(value) {
                    Outcome::Done
                } else {
                    Outcome::NoRightOperand
                }
            },
        }
    }

    /// Carries out a command.
    pub fn apply(&mut self, command: Command) -> (r: Outcome)
        ensures
            (final(self)@, r@) == old(self)@.apply(command@),
            distinct_names(old(self)@.variables) ==> distinct_names(final(self)@.variables),
    {
        match command {
            Command::Nothing => Outcome::Done,
            Command::SetBase(base) => {
                self.base = base;
                Outcome::BaseChanged
            },
            Command::ToggleDecorations => Outcome::ToggleDecorations,
            Command::ToggleAlwaysOnTop => Outcome::ToggleAlwaysOnTop,
            Command::Quit => {
                self.exiting = true;
                Outcome::Done
            },
            Command::Write => Outcome::Write {
                path: self.vars_path.clone(),
                data: self.write_vars(),
            },
            Command::Read => Outcome::Read { path: self.vars_path.clone() },
            Command::Clear => {
                self.variables = Variables::new();
                Outcome::Done
            },
            Command::WriteQuit => {
                self.exiting = true;
                Outcome::Write { path: self.vars_path.clone(), data: self.write_vars() }
            },
            Command::Store(source, name) => self.store_variable(source, name.as_str()),
            Command::Load(operand, name) => self.load_variable(operand, name.as_str()),
            Command::Path(path) => {
                self.vars_path = path;
                Outcome::Done
            },
            Command::ReadFrom(path) => Outcome::ReadFrom { path },
            Command::WriteTo(path) => {
                self.vars_path = path.clone();
                Outcome::Write { path, data: self.write_vars() }
            },
        }
    }

    /// Reads the command line, carries the command out and goes back to the
    /// equation. What is returned is left for the host to do.
    pub fn execute_command(&mut self) -> (r: Outcome)
        ensures
            (final(self)@, r@) == old(self)@.execute(),
            distinct_names(old(self)@.variables) ==> distinct_names(final(self)@.variables),
    {
        let command = match &self.command {
            Some(text) => parse_command(text.as_str()),
            None => {
                proof {
                    reveal_strlit("");
                    assert(""@ =~= Seq::<char>::empty());
                }
                parse_command("")
            },
        };
        let outcome = self.apply(command);
        self.enter_equation_entry();
        outcome
    }
}

} // verus!
