use boof::instruction::Instruction;
use boof::loader::{command_chars, LoadError};
use boof::machine::{Boof, RuntimeError, TAPE_SIZE};
use boof::options::{ConfigError, Options, OptionsBuilder};

const HELLO: &str = "print a greeting\n\
++++++++++[>++++++++++<-]>  cell one holds 100\n\
++++.---.+++++++..+++.-------------------------------------------------------------------.\
------------.+++++++++++++++++++++++++++++++++++++++++++++++++++++++++++++++++++.\
++++++++++++.--.+++.+++++.-.---------------.+++++++++++++.\
---------------------------------------------------------------------------------.\
-----------------------.\n";

fn load(code: &str) -> Boof {
    Boof::program(code.to_string()).expect("program loads")
}

#[test]
fn example_hello() {
    let mut b = load(HELLO);
    let run = b.start(&vec![], 100_000);
    assert_eq!(run.error, None);
    assert!(b.is_halted());
    assert_eq!(String::from_utf8_lossy(&run.output), "hello, computer!\n");
}

#[test]
fn example_echo() {
    let mut b = load("echo input\n,[.,]");
    let run = b.start(&vec![], 1_000);
    assert_eq!(run.error, Some(RuntimeError::InputExhausted));
    assert!(run.output.is_empty());
    assert!(b.is_halted());
}

#[test]
fn no_file() {
    let r = Options::from_args(&vec![]);
    assert!(matches!(r, Err(ConfigError::MissingProgram)));
}

#[test]
fn echo_copies_bytes_then_runs_dry() {
    let mut b = load(",[.,]");
    let run = b.start(&vec![104, 105], 1_000);
    assert_eq!(run.output, vec![104, 105]);
    assert_eq!(run.consumed, 2);
    assert_eq!(run.error, Some(RuntimeError::InputExhausted));
}

#[test]
fn input_only_program_on_empty_input_fails_without_output() {
    let mut b = load(",");
    let run = b.start(&vec![], 10);
    assert_eq!(run.error, Some(RuntimeError::InputExhausted));
    assert!(run.output.is_empty());
    assert_eq!(run.consumed, 0);
}

#[test]
fn input_is_read_into_the_cell() {
    let mut b = load(",.");
    let run = b.start(&vec![65, 66], 10);
    assert_eq!(run.output, vec![65]);
    assert_eq!(run.consumed, 1);
    assert_eq!(run.error, None);
}

#[test]
fn comments_do_not_change_the_program() {
    let plain = load("+[-]>.");
    let commented = load("add one + then [ clear - it ] and > move . print");
    assert_eq!(plain.instructions(), commented.instructions());
}

#[test]
fn command_chars_keep_only_commands() {
    assert_eq!(command_chars("a+b[c]d!é"), vec!['+', '[', ']', '!']);
    assert_eq!(command_chars("no commands here"), Vec::<char>::new());
}

#[test]
fn plain_commands_map_one_to_one() {
    let b = load("><+-.,!");
    assert_eq!(
        b.instructions(),
        &vec![
            Instruction::MoveRight,
            Instruction::MoveLeft,
            Instruction::Increment,
            Instruction::Decrement,
            Instruction::Output,
            Instruction::Input,
            Instruction::Halt,
        ]
    );
}

#[test]
fn nested_loops_are_paired() {
    let b = load("[[]]");
    assert_eq!(
        b.instructions(),
        &vec![
            Instruction::LoopStart(3),
            Instruction::LoopStart(2),
            Instruction::LoopEnd(1),
            Instruction::LoopEnd(0),
        ]
    );
    let c = load("[][+]");
    assert_eq!(
        c.instructions(),
        &vec![
            Instruction::LoopStart(1),
            Instruction::LoopEnd(0),
            Instruction::LoopStart(4),
            Instruction::Increment,
            Instruction::LoopEnd(2),
        ]
    );
}

#[test]
fn unmatched_close_fails_to_load() {
    assert!(matches!(Boof::program("]".to_string()), Err(LoadError::UnmatchedClose)));
    assert!(matches!(Boof::program("+[]]+[".to_string()), Err(LoadError::UnmatchedClose)));
}

#[test]
fn unmatched_open_keeps_target_zero() {
    let b = load("+[+");
    assert_eq!(
        b.instructions(),
        &vec![Instruction::Increment, Instruction::LoopStart(0), Instruction::Increment]
    );
}

#[test]
fn increment_wraps_from_255_to_0() {
    let code = format!("{}.+.", "+".repeat(255));
    let mut b = load(&code);
    let run = b.start(&vec![], 1_000);
    assert_eq!(run.output, vec![255, 0]);
}

#[test]
fn decrement_wraps_from_0_to_255() {
    let mut b = load("-.");
    let run = b.start(&vec![], 10);
    assert_eq!(run.output, vec![255]);
}

#[test]
fn loop_on_zero_cell_runs_no_iteration() {
    let mut b = load("[+.]+.");
    let run = b.start(&vec![], 100);
    assert_eq!(run.output, vec![1]);
}

#[test]
fn loop_runs_until_its_cell_is_zero() {
    let mut b = load("+++[>++<-]>.<.");
    let run = b.start(&vec![], 1_000);
    assert_eq!(run.output, vec![6, 0]);
    assert!(b.is_halted());
}

#[test]
fn pointer_below_zero_is_an_error() {
    let mut b = load("<");
    let run = b.start(&vec![], 10);
    assert_eq!(run.error, Some(RuntimeError::PointerOutOfBounds));
    assert!(b.is_halted());
}

#[test]
fn pointer_past_the_tape_is_an_error() {
    let code = ">".repeat(TAPE_SIZE);
    let mut b = load(&code);
    let run = b.start(&vec![], TAPE_SIZE + 10);
    assert_eq!(run.error, Some(RuntimeError::PointerOutOfBounds));
    assert_eq!(b.data_pointer(), TAPE_SIZE - 1);
}

#[test]
fn halt_stops_the_machine() {
    let mut b = load("+.!+.");
    let run = b.start(&vec![], 100);
    assert_eq!(run.output, vec![1]);
    assert!(b.is_halted());
    assert_eq!(b.counter(), 3);
}

#[test]
fn empty_program_halts_at_once() {
    let mut b = load("only a comment");
    let run = b.start(&vec![], 10);
    assert!(run.output.is_empty());
    assert_eq!(run.error, None);
    assert!(b.is_halted());
}

#[test]
fn step_bound_stops_an_endless_loop() {
    let mut b = load("+[]");
    let run = b.start(&vec![], 50);
    assert_eq!(run.error, None);
    assert!(!b.is_halted());
    let again = b.start(&vec![], 50);
    assert_eq!(again.error, None);
    assert!(!b.is_halted());
}

#[test]
fn tick_reports_each_step() {
    let mut b = load("+.,");
    assert!(!b.wants_input());
    assert_eq!(b.tick(None), Ok(None));
    assert_eq!(b.cell(0), 1);
    assert_eq!(b.current(), Some(Instruction::Output));
    assert_eq!(b.tick(None), Ok(Some(1)));
    assert!(b.wants_input());
    assert_eq!(b.tick(None), Err(RuntimeError::InputExhausted));
    assert!(b.is_halted());
    assert_eq!(b.tick(Some(7)), Ok(None));
}

#[test]
fn debug_mode_is_switched() {
    let mut b = load("+");
    assert!(!b.is_debug());
    b.debug(true);
    assert!(b.is_debug());
    b.debug(false).debug(true);
    assert!(b.is_debug());
}

#[test]
fn options_read_debug_flag_and_file() {
    let args = vec!["-d".to_string(), "prog.b".to_string()];
    let o = Options::from_args(&args).expect("options");
    assert!(o.debug);
    assert_eq!(o.input, "prog.b");
    let args = vec!["first.b".to_string(), "--debug".to_string(), "second.b".to_string()];
    let o = Options::from_args(&args).expect("options");
    assert!(o.debug);
    assert_eq!(o.input, "second.b");
}

#[test]
fn options_reject_unknown_flags() {
    let args = vec!["-x".to_string(), "prog.b".to_string()];
    assert_eq!(
        Options::from_args(&args).err(),
        Some(ConfigError::UnrecognizedOption("-x".to_string()))
    );
    let args = vec!["--verbose".to_string()];
    assert_eq!(
        Options::from_args(&args).err(),
        Some(ConfigError::UnrecognizedOption("--verbose".to_string()))
    );
}

#[test]
fn short_double_dash_is_a_file_name() {
    let args = vec!["--x".to_string()];
    let o = Options::from_args(&args).expect("options");
    assert!(!o.debug);
    assert_eq!(o.input, "--x");
}

#[test]
fn debug_flag_alone_misses_the_program() {
    let args = vec!["-d".to_string()];
    assert_eq!(Options::from_args(&args).err(), Some(ConfigError::MissingProgram));
    let built = OptionsBuilder { debug: true, input: None }.build();
    assert_eq!(built.err(), Some(ConfigError::MissingProgram));
}

#[test]
fn default_machine_halts_on_first_step() {
    let mut b = Boof::default();
    assert!(b.instructions().is_empty());
    assert!(!b.is_halted());
    assert_eq!(b.cell(TAPE_SIZE - 1), 0);
    assert_eq!(b.tick(None), Ok(None));
    assert!(b.is_halted());
}
