use brainfuck::{lex, Interpreter, Op, Outcome, StepEvent, DATA_SIZE};

const FUEL: usize = 1_000_000;

#[test]
fn lex_keeps_symbols_in_order() {
    let ops = lex(b"><+-.,[]");
    assert_eq!(
        ops,
        vec![
            Op::IncrementDp,
            Op::DecrementDp,
            Op::IncrementDpValue,
            Op::DecrementDpValue,
            Op::OutputDp,
            Op::InputDp,
            Op::JumpForward,
            Op::JumpBackward,
        ]
    );
}

#[test]
fn lex_drops_unrecognized_bytes() {
    assert_eq!(lex(b"a + b [ c ] - \n . comment"), lex(b"+[]-."));
    assert_eq!(lex(b"no symbols here"), vec![]);
    assert_eq!(lex(b""), vec![]);
}

#[test]
fn validate_balanced_records_all_pairs() {
    let mut interp = Interpreter::new();
    assert!(interp.load(b"[[]][]"));
    let pairs: Vec<(usize, usize)> = interp.jump_positions.iter().map(|p| (p.start, p.end)).collect();
    assert_eq!(pairs, vec![(1, 2), (0, 3), (4, 5)]);
    for p in &interp.jump_positions {
        assert!(p.start < p.end);
    }
}

#[test]
fn validate_empty_text_ok() {
    let mut interp = Interpreter::new();
    assert!(interp.load(b""));
    assert!(interp.jump_positions.is_empty());
}

#[test]
fn validate_adjacent_pair_is_zero_width() {
    let mut interp = Interpreter::new();
    assert!(interp.load(b"[]"));
    assert_eq!(interp.jump_positions.len(), 1);
    assert_eq!(interp.jump_positions[0].start, 0);
    assert_eq!(interp.jump_positions[0].end, 1);
}

#[test]
fn validate_rejects_excess_closer() {
    let mut interp = Interpreter::new();
    assert!(!interp.load(b"]["));
}

#[test]
fn validate_rejects_unclosed_opener() {
    let mut interp = Interpreter::new();
    assert!(!interp.load(b"["));
    assert!(!interp.load(b"[[]"));
}

#[test]
fn increment_wraps_at_max() {
    let mut interp = Interpreter::new();
    interp.data[0] = 127;
    interp.increment_dp_value();
    assert_eq!(interp.data[0], -128);
}

#[test]
fn decrement_wraps_at_min() {
    let mut interp = Interpreter::new();
    interp.data[0] = -128;
    interp.decrement_dp_value();
    assert_eq!(interp.data[0], 127);
}

#[test]
fn wraparound_through_a_program() {
    let mut interp = Interpreter::new();
    let code: Vec<u8> = std::iter::repeat(b'+').take(128).collect();
    let r = interp.compile(&code, &[], FUEL);
    assert_eq!(r.outcome, Outcome::Halted);
    assert_eq!(interp.data[0], -128);
}

#[test]
fn outputs_two() {
    let mut interp = Interpreter::new();
    let r = interp.compile(b"++.", &[], FUEL);
    assert_eq!(r.outcome, Outcome::Halted);
    assert_eq!(r.outputs, vec![2]);
}

#[test]
fn loop_runs_once_and_exits() {
    let mut interp = Interpreter::new();
    let r = interp.compile(b"+[-]", &[], FUEL);
    assert_eq!(r.outcome, Outcome::Halted);
    assert!(r.outputs.is_empty());
    assert_eq!(interp.data[0], 0);
}

#[test]
fn loop_on_zero_cell_is_skipped() {
    let mut interp = Interpreter::new();
    let r = interp.compile(b"[+]", &[], FUEL);
    assert_eq!(r.outcome, Outcome::Halted);
    assert!(r.outputs.is_empty());
    assert_eq!(interp.data[0], 0);
}

#[test]
fn mismatched_brackets_produce_no_output() {
    let mut interp = Interpreter::new();
    let r = interp.compile(b"][", &[], FUEL);
    assert_eq!(r.outcome, Outcome::MismatchedJumps);
    assert!(r.outputs.is_empty());
}

#[test]
fn mismatched_brackets_leave_tape_untouched() {
    let mut interp = Interpreter::new();
    interp.compile(b"+>+", &[], FUEL);
    let r = interp.compile(b"][", &[], FUEL);
    assert_eq!(r.outcome, Outcome::MismatchedJumps);
    assert_eq!(interp.data[0], 1);
    assert_eq!(interp.data[1], 1);
    assert_eq!(interp.data_pointer, 1);
}

#[test]
fn tape_state_persists_across_compiles() {
    let mut interp = Interpreter::new();
    let first = interp.compile(b"+", &[], FUEL);
    assert_eq!(first.outcome, Outcome::Halted);
    assert!(first.outputs.is_empty());
    let second = interp.compile(b".", &[], FUEL);
    assert_eq!(second.outcome, Outcome::Halted);
    assert_eq!(second.outputs, vec![1]);
}

#[test]
fn move_left_at_zero_is_fatal() {
    let mut interp = Interpreter::new();
    let r = interp.compile(b"<", &[], FUEL);
    assert_eq!(r.outcome, Outcome::TapeUnderflow);
    assert!(r.outputs.is_empty());
    assert_eq!(interp.data_pointer, 0);
}

#[test]
fn move_right_at_last_cell_is_fatal() {
    let mut interp = Interpreter::new();
    let code: Vec<u8> = std::iter::repeat(b'>').take(DATA_SIZE).collect();
    let r = interp.compile(&code, &[], FUEL);
    assert_eq!(r.outcome, Outcome::TapeOverflow);
    assert_eq!(interp.data_pointer, DATA_SIZE - 1);
}

#[test]
fn input_is_stored_and_echoed() {
    let mut interp = Interpreter::new();
    let r = interp.compile(b",.", &[65], FUEL);
    assert_eq!(r.outcome, Outcome::Halted);
    assert_eq!(r.outputs, vec![65]);
}

#[test]
fn exhausted_input_is_fatal() {
    let mut interp = Interpreter::new();
    let r = interp.compile(b",", &[], FUEL);
    assert_eq!(r.outcome, Outcome::OutOfInput);
    assert!(r.outputs.is_empty());
}

#[test]
fn outputs_come_in_source_order() {
    let mut interp = Interpreter::new();
    let r = interp.compile(b"+.+.", &[], FUEL);
    assert_eq!(r.outcome, Outcome::Halted);
    assert_eq!(r.outputs, vec![1, 2]);
}

#[test]
fn step_reports_each_instruction() {
    let mut interp = Interpreter::new();
    assert!(interp.load(b"+."));
    assert_eq!(interp.step(), StepEvent::Advanced);
    assert_eq!(interp.step(), StepEvent::Output(1));
    assert_eq!(interp.step(), StepEvent::Halted);
}

#[test]
fn step_leaves_input_pending() {
    let mut interp = Interpreter::new();
    assert!(interp.load(b","));
    assert_eq!(interp.step(), StepEvent::NeedsInput);
    interp.input_dp(7);
    assert_eq!(interp.data[0], 7);
    assert_eq!(interp.step(), StepEvent::Halted);
}

#[test]
fn missing_pair_stops_the_run() {
    let mut interp = Interpreter::new();
    interp.op_list = vec![Op::JumpForward];
    interp.jump_positions.clear();
    let r = interp.run(&[], FUEL);
    assert_eq!(r.outcome, Outcome::MissingPair);

    let mut interp = Interpreter::new();
    interp.data[0] = 1;
    interp.op_list = vec![Op::JumpBackward];
    interp.jump_positions.clear();
    let r = interp.run(&[], FUEL);
    assert_eq!(r.outcome, Outcome::MissingPair);
}

#[test]
fn endless_loop_hits_the_step_limit() {
    let mut interp = Interpreter::new();
    let r = interp.compile(b"+[]", &[], 50);
    assert_eq!(r.outcome, Outcome::StepLimit);
    assert!(r.outputs.is_empty());
}

#[test]
fn exact_budget_still_halts() {
    let mut interp = Interpreter::new();
    let r = interp.compile(b"+", &[], 1);
    assert_eq!(r.outcome, Outcome::Halted);
    assert_eq!(interp.data[0], 1);
}

#[test]
fn cursor_helpers_move_both_ways() {
    let mut interp = Interpreter::new();
    interp.increment_dp();
    assert_eq!(interp.data_pointer, 1);
    interp.decrement_dp();
    assert_eq!(interp.data_pointer, 0);
}

#[test]
fn fresh_interpreter_is_zeroed() {
    let interp = Interpreter::new();
    assert_eq!(interp.data.len(), DATA_SIZE);
    assert_eq!(interp.data_pointer, 0);
    assert_eq!(interp.inst_pointer, 0);
    assert!(interp.op_list.is_empty());
    assert!(interp.jump_positions.is_empty());
    assert!(interp.data.iter().all(|&v| v == 0));
}
