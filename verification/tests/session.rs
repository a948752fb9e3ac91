use minicalc::command::{parse_command, Command, Operand, Source};
use minicalc::config::Config;
use minicalc::math::base::NumberBase;
use minicalc::math::{Num, NumComponent};
use minicalc::minicalc::{Outcome, State};
use minicalc::variables::Variables;

fn num(numer: i64, denom: i64) -> Num {
    Num::new(NumComponent::from(numer), NumComponent::from(denom))
}

fn session() -> State {
    State::new(Config::default())
}

fn run(state: &mut State, command: &str) -> Outcome {
    state.enter_command_entry(command.to_owned());
    state.execute_command()
}

#[test]
fn a_new_session() {
    let state = session();
    assert_eq!(state.display(), "0");
    assert_eq!(state.base(), NumberBase::Decimal);
    assert_eq!(state.vars_path(), "minicalc-vars");
    assert_eq!(state.command(), None);
    assert_eq!(state.variables().len(), 0);
    assert!(!state.exiting());
    assert_eq!(state.config().max_fractional_places, 128);
}

#[test]
fn store_result_then_load_left() {
    let mut state = session();
    state.type_string("2+2".to_owned());
    assert_eq!(run(&mut state, "store result x"), Outcome::Done);
    assert_eq!(state.variables().get("x"), Some(&num(4, 1)));
    assert_eq!(run(&mut state, "load left x"), Outcome::Done);
    assert_eq!(state.equation().left(), &num(4, 1));
    assert_eq!(state.display(), "4 + 2");
    let mut fresh = session();
    fresh.read_vars(&state.write_vars());
    assert_eq!(run(&mut fresh, "load left x"), Outcome::Done);
    assert_eq!(fresh.display(), "4");
}

#[test]
fn variables_survive_writing_and_reading() {
    let mut state = session();
    state.type_string("3.5".to_owned());
    assert_eq!(run(&mut state, "store left x"), Outcome::Done);
    let (path, data) = match run(&mut state, "write vars.txt") {
        Outcome::Write { path, data } => (path, data),
        other => panic!("{:?}", other),
    };
    assert_eq!(path, "vars.txt");
    assert_eq!(data, "x\n3.5\n");
    assert_eq!(run(&mut state, "clear"), Outcome::Done);
    assert_eq!(state.variables().len(), 0);
    state.read_vars_from(path, &data);
    assert_eq!(state.variables().len(), 1);
    assert_eq!(state.variables().get("x"), Some(&num(7, 2)));
    assert_eq!(state.vars_path(), "vars.txt");
}

#[test]
fn store_right_needs_a_right_operand() {
    let mut state = session();
    state.type_string("7".to_owned());
    run(&mut state, "store left y");
    let before = state.variables().clone();
    assert_eq!(run(&mut state, "store right x"), Outcome::NoRightOperand);
    assert_eq!(state.variables(), &before);
    assert_eq!(state.variables().get("x"), None);
    assert_eq!(state.command(), None);
}

#[test]
fn store_result_needs_a_result() {
    let mut state = session();
    state.type_string("5/0".to_owned());
    assert_eq!(run(&mut state, "store result x"), Outcome::NoResult);
    assert_eq!(state.variables().len(), 0);
    assert_eq!(state.display(), "5 / 0");
    let mut plain = session();
    plain.type_string("5".to_owned());
    assert_eq!(run(&mut plain, "s R x"), Outcome::NoResult);
}

#[test]
fn load_needs_the_variable_and_the_operand() {
    let mut state = session();
    state.type_string("1".to_owned());
    assert_eq!(run(&mut state, "load left x"), Outcome::NoVariable { name: "x".to_owned() });
    run(&mut state, "st l x");
    assert_eq!(run(&mut state, "ld r x"), Outcome::NoRightOperand);
    assert_eq!(state.display(), "1");
    state.type_string("+5".to_owned());
    assert_eq!(run(&mut state, "l r x"), Outcome::Done);
    assert_eq!(state.display(), "1 + 1");
    state.store_variable(Source::Right, "z");
    assert_eq!(state.load_variable(Operand::Left, "z"), Outcome::Done);
}

#[test]
fn storing_twice_keeps_one_entry() {
    let mut state = session();
    state.type_string("1".to_owned());
    run(&mut state, "store left x");
    state.type_string("2".to_owned());
    run(&mut state, "store left x");
    assert_eq!(state.variables().len(), 1);
    assert_eq!(state.variables().get("x"), Some(&num(12, 1)));
    assert_eq!(state.write_vars(), "x\n12\n");
}

#[test]
fn base_commands() {
    let mut state = session();
    state.type_string("15".to_owned());
    for name in ["b", "binary", "b2"] {
        assert_eq!(run(&mut state, name), Outcome::BaseChanged);
        assert_eq!(state.display(), "0b1111");
    }
    for name in ["x", "hex", "hexadecimal", "b16"] {
        assert_eq!(run(&mut state, name), Outcome::BaseChanged);
        assert_eq!(state.display(), "0xF");
    }
    for name in ["d", "decimal", "b10"] {
        assert_eq!(run(&mut state, name), Outcome::BaseChanged);
        assert_eq!(state.display(), "15");
    }
    state.set_base(NumberBase::Binary);
    assert_eq!(state.base(), NumberBase::Binary);
}

#[test]
fn quitting_and_writing() {
    let mut state = session();
    assert_eq!(run(&mut state, "q"), Outcome::Done);
    assert!(state.exiting());
    let mut other = session();
    other.type_string("9".to_owned());
    run(&mut other, "store left n");
    assert_eq!(
        run(&mut other, "wq"),
        Outcome::Write { path: "minicalc-vars".to_owned(), data: "n\n9\n".to_owned() }
    );
    assert!(other.exiting());
    let mut third = session();
    assert_eq!(
        run(&mut third, "w"),
        Outcome::Write { path: "minicalc-vars".to_owned(), data: "".to_owned() }
    );
    assert!(!third.exiting());
    assert_eq!(run(&mut third, "r"), Outcome::Read { path: "minicalc-vars".to_owned() });
    assert_eq!(run(&mut third, "read a b.txt"), Outcome::ReadFrom { path: "a b.txt".to_owned() });
    assert_eq!(third.vars_path(), "minicalc-vars");
    assert_eq!(run(&mut third, "path  here"), Outcome::Done);
    assert_eq!(third.vars_path(), " here");
    assert_eq!(run(&mut third, "p"), Outcome::Done);
    assert_eq!(third.vars_path(), "");
}

#[test]
fn window_commands_are_left_to_the_host() {
    let mut state = session();
    for name in ["D", "decorated", "border"] {
        assert_eq!(run(&mut state, name), Outcome::ToggleDecorations);
    }
    for name in ["t", "top"] {
        assert_eq!(run(&mut state, name), Outcome::ToggleAlwaysOnTop);
    }
    assert_eq!(state, session());
}

#[test]
fn what_is_not_understood_does_nothing() {
    let mut state = session();
    state.type_string("12".to_owned());
    for text in ["", "   ", "frobnicate", "store", "store left", "store up x", "load", "load result x", "store  left x"] {
        let before = state.variables().clone();
        assert_eq!(run(&mut state, text), Outcome::Done, "{:?}", text);
        assert_eq!(state.variables(), &before);
        assert_eq!(state.display(), "12");
        assert_eq!(state.command(), None);
    }
}

#[test]
fn commands_are_read_from_trimmed_text() {
    assert_eq!(parse_command("  hex \t"), Command::SetBase(NumberBase::Hexadecimal));
    assert_eq!(parse_command(" store left x y "), Command::Store(Source::Left, "x".to_owned()));
    assert_eq!(parse_command("s R total"), Command::Store(Source::Result, "total".to_owned()));
    assert_eq!(parse_command("ld r x"), Command::Load(Operand::Right, "x".to_owned()));
    assert_eq!(parse_command("path"), Command::Path("".to_owned()));
    assert_eq!(parse_command("p a  b"), Command::Path("a  b".to_owned()));
    assert_eq!(parse_command("w out"), Command::WriteTo("out".to_owned()));
    assert_eq!(parse_command("r in"), Command::ReadFrom("in".to_owned()));
    assert_eq!(parse_command("wq"), Command::WriteQuit);
    assert_eq!(parse_command("c"), Command::Clear);
    assert_eq!(parse_command("exit"), Command::Quit);
    assert_eq!(parse_command("Hex"), Command::Nothing);
}

#[test]
fn typing_in_command_mode_goes_to_the_command_line() {
    let mut state = session();
    state.type_string(":he".to_owned());
    assert_eq!(state.display(), ":he");
    assert_eq!(state.equation().left(), &num(0, 1));
    state.type_string("x\n".to_owned());
    assert_eq!(state.display(), ":hex");
    state.delete_one();
    state.delete_one();
    assert_eq!(state.display(), ":h");
    state.delete_one();
    assert_eq!(state.display(), ":");
    state.delete_one();
    assert_eq!(state.display(), "0");
    assert_eq!(state.command(), None);
}

#[test]
fn pasted_text_is_typed_key_by_key() {
    let mut state = session();
    state.type_string("1\n2.50 * 4\n".to_owned());
    assert_eq!(state.display(), "12.5 * 4");
    state.delete_one();
    assert_eq!(state.display(), "12.5 * 0");
    state.delete_one();
    assert_eq!(state.display(), "12.5");
    state.evaluate();
    assert_eq!(state.display(), "12.5");
    state.type_string("*4".to_owned());
    state.evaluate();
    assert_eq!(state.display(), "50");
}

#[test]
fn keys_are_taken_in_upper_case() {
    let mut state = session();
    state.set_base(NumberBase::Hexadecimal);
    state.try_type_single('a');
    state.try_type_single('F');
    assert_eq!(state.equation().left(), &num(0xAF, 1));
    let mut exact = session();
    exact.set_base(NumberBase::Hexadecimal);
    exact.type_key('a');
    exact.type_key('F');
    assert_eq!(exact.equation().left(), &num(0xF, 1));
}

#[test]
fn the_store_reads_what_it_wrote() {
    let mut store = Variables::new();
    store.insert("x".to_owned(), num(7, 2));
    store.insert("minus".to_owned(), num(-3, 1));
    store.insert("small".to_owned(), num(1, 1024));
    let text = store.encode(128);
    assert_eq!(text, "x\n3.5\nminus\n-3\nsmall\n0.0009765625\n");
    assert_eq!(Variables::decode(&text), store);
}

#[test]
fn the_store_skips_what_it_cannot_read() {
    let store = Variables::decode("a\n1\nb\nnonsense\nc\r\n2.5\r\nd\n1/2\ne");
    assert_eq!(store.len(), 2);
    assert_eq!(store.get("a"), Some(&num(1, 1)));
    assert_eq!(store.get("c"), Some(&num(5, 2)));
    assert!(!store.contains_key("b"));
    assert!(!store.contains_key("d"));
    assert!(!store.contains_key("e"));
    let mut cleared = store.clone();
    cleared.clear();
    assert_eq!(cleared, Variables::new());
    assert_eq!(Variables::decode(""), Variables::new());
}

#[test]
fn a_later_line_pair_replaces_an_earlier_one() {
    let store = Variables::decode("x\n1\nx\n2\n");
    assert_eq!(store.len(), 1);
    assert_eq!(store.get("x"), Some(&num(2, 1)));
}
