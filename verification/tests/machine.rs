use tapevm::lexer::{LexError, LexErrorKind, Lexer, Token, TokenType};
use tapevm::machine::{ExecErrorKind, STACK_SIZE};
use tapevm::vm::{ExecError, Outcome, Run, Step, VM};

fn machine(text: &str) -> VM {
    VM::new(Lexer::lex_string(text.to_string()).expect("the text tokenizes"))
}

fn execute(text: &str) -> (VM, Run) {
    let mut vm = machine(text);
    let done = vm.run(100_000);
    (vm, done)
}

fn failed(kind: ExecErrorKind, pc: usize) -> Outcome {
    Outcome::Failed(ExecError { kind, pc })
}

fn bare(token_type: TokenType, value: &str) -> Token {
    Token::new(token_type, value.to_string())
}

#[test]
fn new_machine_is_blank() {
    let vm = machine("+");
    assert_eq!(vm.program_counter(), 0);
    assert_eq!(vm.pointer(), 0);
    assert_eq!(vm.tape(), vec![0; 1000]);
    assert_eq!(STACK_SIZE, 1000);
    assert_eq!(vm.open_loops(), 0);
    assert_eq!(vm.open_conditions(), 0);
    assert_eq!(vm.print_current(), 0);
}

#[test]
fn empty_program_finishes_at_once() {
    let (vm, done) = execute("");
    assert_eq!(done, Run { output: vec![], outcome: Outcome::Finished });
    assert_eq!(vm.program_counter(), 0);
    let mut vm = VM::new(vec![]);
    assert_eq!(vm.single(), Step::Halt);
}

#[test]
fn increments_and_decrements_add_up() {
    let (vm, done) = execute("+++-+--+");
    assert_eq!(done, Run { output: vec![], outcome: Outcome::Finished });
    assert_eq!(vm.pointer(), 0);
    let mut expected = vec![0; 1000];
    expected[0] = 2;
    assert_eq!(vm.tape(), expected);
}

#[test]
fn increments_and_decrements_add_up_away_from_the_first_cell() {
    let (vm, done) = execute(">>>--+---");
    assert_eq!(done.outcome, Outcome::Finished);
    assert_eq!(vm.pointer(), 3);
    let mut expected = vec![0; 1000];
    expected[3] = -4;
    assert_eq!(vm.tape(), expected);
}

#[test]
fn print_emits_the_cell() {
    let (_, done) = execute(".+.++.>.<-.");
    assert_eq!(done, Run { output: vec![0, 1, 3, 0, 2], outcome: Outcome::Finished });
}

#[test]
fn call_marker_changes_nothing() {
    let mut vm = machine("+&.");
    assert_eq!(vm.single(), Step::Continue);
    let tape = vm.tape();
    assert_eq!(vm.single(), Step::Continue);
    assert_eq!(vm.tape(), tape);
    assert_eq!(vm.pointer(), 0);
    assert_eq!(vm.program_counter(), 2);
    assert_eq!(vm.single(), Step::Print(1));
    assert_eq!(vm.single(), Step::Halt);
}

#[test]
fn halted_machine_stays_halted() {
    let mut vm = machine("+");
    assert_eq!(vm.single(), Step::Continue);
    assert_eq!(vm.single(), Step::Halt);
    assert_eq!(vm.single(), Step::Halt);
    assert_eq!(vm.program_counter(), 1);
}

#[test]
fn move_left_at_cell_zero_is_fatal() {
    let (_, done) = execute("<");
    assert_eq!(done.outcome, failed(ExecErrorKind::PointerBelowZero, 0));
}

#[test]
fn move_left_then_right_fails_at_the_first_move() {
    let (vm, done) = execute("<>");
    assert_eq!(done.outcome, failed(ExecErrorKind::PointerBelowZero, 0));
    assert_eq!(vm.pointer(), 0);
}

#[test]
fn move_right_then_left_returns_to_cell_zero() {
    let (vm, done) = execute("><");
    assert_eq!(done.outcome, Outcome::Finished);
    assert_eq!(vm.pointer(), 0);
}

#[test]
fn output_before_a_fault_is_kept() {
    let (_, done) = execute("+.+.<.");
    assert_eq!(
        done,
        Run { output: vec![1, 2], outcome: failed(ExecErrorKind::PointerBelowZero, 4) }
    );
}

#[test]
fn move_right_stops_at_the_last_cell() {
    let (vm, done) = execute(&">".repeat(999));
    assert_eq!(done.outcome, Outcome::Finished);
    assert_eq!(vm.pointer(), 999);
    let (vm, done) = execute(&">".repeat(1000));
    assert_eq!(done.outcome, failed(ExecErrorKind::PointerPastEnd, 999));
    assert_eq!(vm.pointer(), 999);
}

#[test]
fn loop_is_skipped_when_the_cell_has_the_exit_value() {
    let (vm, done) = execute("[0+.]");
    assert_eq!(done, Run { output: vec![], outcome: Outcome::Finished });
    assert_eq!(vm.tape()[0], 0);
    assert_eq!(vm.open_loops(), 0);
}

#[test]
fn skipping_pushes_no_frame() {
    let mut vm = machine("[0+]+");
    assert_eq!(vm.single(), Step::Continue);
    assert_eq!(vm.program_counter(), 4);
    assert_eq!(vm.open_loops(), 0);
}

#[test]
fn loop_repeats_until_the_cell_has_the_exit_value() {
    let (vm, done) = execute("[3+.]");
    assert_eq!(done, Run { output: vec![1, 2, 3], outcome: Outcome::Finished });
    assert_eq!(vm.tape()[0], 3);
    assert_eq!(vm.open_loops(), 0);
}

#[test]
fn loop_frame_is_held_while_the_loop_runs() {
    let mut vm = machine("[2+]");
    assert_eq!(vm.single(), Step::Continue);
    assert_eq!((vm.program_counter(), vm.open_loops()), (2, 1));
    assert_eq!(vm.single(), Step::Continue);
    assert_eq!(vm.single(), Step::Continue);
    assert_eq!((vm.program_counter(), vm.open_loops(), vm.tape()[0]), (2, 1, 1));
    assert_eq!(vm.single(), Step::Continue);
    assert_eq!(vm.single(), Step::Continue);
    assert_eq!((vm.program_counter(), vm.open_loops(), vm.tape()[0]), (4, 0, 2));
    assert_eq!(vm.single(), Step::Halt);
}

#[test]
fn loop_counts_down_to_a_negative_exit_value() {
    let (vm, done) = execute("[3+]>[2+]<[0->[0-]<]");
    assert_eq!(done.outcome, Outcome::Finished);
    assert_eq!((vm.tape()[0], vm.tape()[1]), (0, 0));
}

#[test]
fn nested_loops() {
    let (vm, done) = execute("[2+>[3+]<]>.");
    assert_eq!(done, Run { output: vec![3], outcome: Outcome::Finished });
    assert_eq!((vm.tape()[0], vm.tape()[1]), (2, 3));
}

#[test]
fn skipping_a_loop_passes_the_loops_inside_it() {
    let (vm, done) = execute("[0[1+]-]");
    assert_eq!(done, Run { output: vec![], outcome: Outcome::Finished });
    assert_eq!(vm.tape(), vec![0; 1000]);
    assert_eq!(vm.open_loops(), 0);
    assert_eq!(vm.program_counter(), 8);
    let (vm, done) = execute("[0[1[2+.]+.]+.]+.");
    assert_eq!(done, Run { output: vec![1], outcome: Outcome::Finished });
    assert_eq!(vm.open_loops(), 0);
    let mut vm = machine("[0[1+]-]+");
    assert_eq!(vm.single(), Step::Continue);
    assert_eq!((vm.program_counter(), vm.open_loops()), (8, 0));
}

#[test]
fn skipping_a_loop_ends_at_its_own_close() {
    let (_, done) = execute("[0+]]");
    assert_eq!(done.outcome, failed(ExecErrorKind::UnmatchedLoopClose, 4));
    let (_, done) = execute("[0[1]+.]+.]");
    assert_eq!(
        done,
        Run { output: vec![1], outcome: failed(ExecErrorKind::UnmatchedLoopClose, 10) }
    );
}

#[test]
fn loop_to_skip_with_only_inner_closes_diverges() {
    let (_, done) = execute("[0[1+]-");
    assert_eq!(done, Run { output: vec![], outcome: Outcome::Diverged });
    let (_, done) = execute("[0[1[2+]-]");
    assert_eq!(done.outcome, Outcome::Diverged);
}

#[test]
fn empty_loop_body_never_reaches_the_exit_value() {
    let mut vm = machine("[3]+[3]");
    let done = vm.run(10_000);
    assert_eq!(done, Run { output: vec![], outcome: Outcome::OutOfBudget });
    assert_eq!(vm.tape()[0], 0);
    assert_eq!(vm.program_counter(), 2);
    let mut vm = machine("[0]+[0]");
    let done = vm.run(10_000);
    assert_eq!(done.outcome, Outcome::OutOfBudget);
    assert_eq!(vm.tape()[0], 1);
}

#[test]
fn loop_to_skip_without_a_close_diverges() {
    let mut vm = machine("+[1+.");
    assert_eq!(vm.single(), Step::Continue);
    assert_eq!(vm.single(), Step::Diverge);
    assert_eq!(vm.single(), Step::Diverge);
    assert_eq!(vm.program_counter(), 1);
    let (_, done) = execute("+.[1+.");
    assert_eq!(done, Run { output: vec![1], outcome: Outcome::Diverged });
}

#[test]
fn loop_opener_needs_an_integer() {
    let (_, done) = execute("+[+]");
    assert_eq!(done.outcome, failed(ExecErrorKind::MissingLoopValue, 2));
    let (_, done) = execute("[1.5+]");
    assert_eq!(done.outcome, failed(ExecErrorKind::MissingLoopValue, 1));
    let (_, done) = execute("[");
    assert_eq!(done.outcome, failed(ExecErrorKind::MissingLoopValue, 1));
    let mut vm = VM::new(vec![bare(TokenType::BracketOpen, "")]);
    assert_eq!(
        vm.single(),
        Step::Fault(ExecError { kind: ExecErrorKind::MissingLoopValue, pc: 1 })
    );
}

#[test]
fn loop_exit_value_has_to_fit() {
    let (_, done) = execute("[2147483648+]");
    assert_eq!(done.outcome, failed(ExecErrorKind::InvalidLoopValue, 1));
    let (vm, done) = execute("[2147483647]");
    assert_eq!(done.outcome, Outcome::OutOfBudget);
    assert_eq!(vm.open_loops(), 1);
    let mut vm = VM::new(vec![
        bare(TokenType::BracketOpen, ""),
        bare(TokenType::Integer, "x"),
        bare(TokenType::BracketClose, ""),
        bare(TokenType::EndOfFile, ""),
    ]);
    assert_eq!(
        vm.single(),
        Step::Fault(ExecError { kind: ExecErrorKind::InvalidLoopValue, pc: 1 })
    );
    assert_eq!(vm.program_counter(), 0);
}

#[test]
fn signed_exit_value() {
    let mut vm = VM::new(vec![
        bare(TokenType::BracketOpen, ""),
        bare(TokenType::Integer, "-2"),
        bare(TokenType::SubOperation, ""),
        bare(TokenType::BracketClose, ""),
        bare(TokenType::EndOfFile, ""),
    ]);
    assert_eq!(vm.run(100).outcome, Outcome::Finished);
    assert_eq!(vm.tape()[0], -2);
}

#[test]
fn loop_close_without_a_loop_is_fatal() {
    let (_, done) = execute("+]");
    assert_eq!(done.outcome, failed(ExecErrorKind::UnmatchedLoopClose, 1));
}

#[test]
fn condition_that_holds_runs_its_body() {
    let (vm, done) = execute("(+\"==\"+;-.)");
    assert_eq!(done, Run { output: vec![-1], outcome: Outcome::Finished });
    assert_eq!(vm.tape()[0], -1);
    assert_eq!(vm.open_conditions(), 0);
}

#[test]
fn condition_that_fails_skips_its_body() {
    let (vm, done) = execute("(+\"==\"-;-.)+.");
    assert_eq!(done, Run { output: vec![1], outcome: Outcome::Finished });
    assert_eq!(vm.tape()[0], 1);
}

#[test]
fn print_inside_an_operand_is_not_rolled_back() {
    let (vm, done) = execute("(+\"==\"+.-.;.)");
    assert_eq!(done, Run { output: vec![1, 0], outcome: Outcome::Finished });
    assert_eq!(vm.tape()[0], 0);
    assert_eq!(vm.pointer(), 0);
}

#[test]
fn operands_are_rolled_back() {
    let mut vm = machine("+(+>+[5+]\"==\"++<;.)");
    assert_eq!(vm.single(), Step::Continue);
    assert_eq!(vm.single(), Step::Continue);
    assert_eq!(vm.open_conditions(), 1);
    for _ in 0..4 {
        assert_eq!(vm.single(), Step::Continue);
    }
    assert_eq!((vm.pointer(), vm.tape()[0], vm.tape()[1], vm.open_loops()), (1, 2, 1, 1));
    let done = vm.run(8);
    assert_eq!(done.outcome, Outcome::OutOfBudget);
    assert_eq!((vm.pointer(), vm.tape()[0], vm.tape()[1], vm.open_loops()), (1, 2, 5, 0));
    assert_eq!(vm.single(), Step::Continue);
    assert_eq!((vm.pointer(), vm.tape()[0], vm.tape()[1], vm.open_loops()), (0, 1, 0, 0));
    assert_eq!(vm.single(), Step::Continue);
    assert_eq!(vm.single(), Step::Continue);
    assert_eq!((vm.pointer(), vm.tape()[0]), (0, 3));
    assert_eq!(
        vm.single(),
        Step::Fault(ExecError { kind: ExecErrorKind::PointerBelowZero, pc: 12 })
    );
}

#[test]
fn six_comparisons() {
    let output = |op: &str, lhs: &str, rhs: &str| {
        let text = format!("({}\"{}\"{};+).", lhs, op, rhs);
        let (_, done) = execute(&text);
        assert_eq!(done.outcome, Outcome::Finished);
        done.output
    };
    let yes = vec![1];
    let no = vec![0];
    assert_eq!(output("==", "+", "+"), yes);
    assert_eq!(output("==", "+", "++"), no);
    assert_eq!(output("!=", "+", "++"), yes);
    assert_eq!(output("!=", "+", "+"), no);
    assert_eq!(output(">", "++", "+"), yes);
    assert_eq!(output(">", "+", "+"), no);
    assert_eq!(output(">", "+", "++"), no);
    assert_eq!(output("<", "+", "++"), yes);
    assert_eq!(output("<", "+", "+"), no);
    assert_eq!(output("<", "++", "+"), no);
    assert_eq!(output(">=", "++", "+"), yes);
    assert_eq!(output(">=", "+", "+"), yes);
    assert_eq!(output(">=", "+", "++"), no);
    assert_eq!(output("<=", "+", "++"), yes);
    assert_eq!(output("<=", "+", "+"), yes);
    assert_eq!(output("<=", "++", "+"), no);
    assert_eq!(output("<", "-", ""), yes);
}

#[test]
fn unknown_operator_is_found_after_the_right_operand() {
    let (_, done) = execute("(+\"=\"+;+)");
    assert_eq!(done.outcome, failed(ExecErrorKind::UnknownOperator, 5));
    let (_, done) = execute("(+\"===\"+;+)");
    assert_eq!(done.outcome, failed(ExecErrorKind::UnknownOperator, 5));
    let (_, done) = execute("(+\"\"+;+)");
    assert_eq!(done.outcome, failed(ExecErrorKind::UnknownOperator, 5));
    let (_, done) = execute("(+\"=\"<;+)");
    assert_eq!(done.outcome, failed(ExecErrorKind::PointerBelowZero, 3));
}

#[test]
fn program_ending_inside_an_operand_is_fatal() {
    let (_, done) = execute("(+");
    assert_eq!(done.outcome, failed(ExecErrorKind::UnterminatedLeft, 2));
    let (_, done) = execute("(+\"==\"+");
    assert_eq!(done.outcome, failed(ExecErrorKind::UnterminatedRight, 4));
}

#[test]
fn unclosed_condition_is_fatal_in_the_branch_taken() {
    let (_, done) = execute("(+\"==\"+;+.");
    assert_eq!(
        done,
        Run { output: vec![1], outcome: failed(ExecErrorKind::UnclosedTrueBranch, 7) }
    );
}

#[test]
fn unclosed_condition_is_fatal_in_the_branch_skipped() {
    let (vm, done) = execute("(+\"==\"-;+.");
    assert_eq!(
        done,
        Run { output: vec![], outcome: failed(ExecErrorKind::UnclosedFalseBranch, 7) }
    );
    assert_eq!(vm.program_counter(), 4);
    let (_, done) = execute("(+\"==\"-;");
    assert_eq!(done.outcome, failed(ExecErrorKind::UnclosedFalseBranch, 6));
}

#[test]
fn closing_parenthesis_outside_a_body_is_fatal() {
    let (_, done) = execute("+)");
    assert_eq!(done.outcome, failed(ExecErrorKind::UnexpectedConditionClose, 1));
    let (_, done) = execute("(+)");
    assert_eq!(done.outcome, failed(ExecErrorKind::UnexpectedConditionClose, 2));
    let (_, done) = execute("(+\"==\")");
    assert_eq!(done.outcome, failed(ExecErrorKind::UnexpectedConditionClose, 3));
}

#[test]
fn tokens_that_are_no_instruction_are_fatal() {
    for text in ["12", "1.5", "ab", "\"==\"", ";", ":", ",", "{", "}"] {
        let (_, done) = execute(&format!("+{}", text));
        assert_eq!(done.outcome, failed(ExecErrorKind::UnknownInstruction, 1));
    }
    let (_, done) = execute("(+;");
    assert_eq!(done.outcome, failed(ExecErrorKind::UnknownInstruction, 2));
    let (_, done) = execute("(+\"==\"+\"==\"");
    assert_eq!(done.outcome, failed(ExecErrorKind::UnknownInstruction, 4));
    let mut vm = VM::new(vec![bare(TokenType::Boolean, "true")]);
    assert_eq!(
        vm.single(),
        Step::Fault(ExecError { kind: ExecErrorKind::UnknownInstruction, pc: 0 })
    );
}

#[test]
fn condition_inside_a_body() {
    let (vm, done) = execute("(+\"==\"+;+(+\"<\"++;++.).).");
    assert_eq!(done, Run { output: vec![3, 3, 3], outcome: Outcome::Finished });
    assert_eq!(vm.open_conditions(), 0);
}

#[test]
fn skipping_a_body_passes_the_conditionals_inside_it() {
    let (vm, done) = execute("(+\"==\"-;(+\"==\"+;+)+)");
    assert_eq!(done, Run { output: vec![], outcome: Outcome::Finished });
    assert_eq!(vm.tape(), vec![0; 1000]);
    assert_eq!(vm.open_conditions(), 0);
    assert_eq!(vm.program_counter(), 14);
    let (_, done) = execute("(+\"==\"-;(+\"==\"+;.)+.)+.");
    assert_eq!(done, Run { output: vec![1], outcome: Outcome::Finished });
    let (_, done) = execute("(+\"==\"-;+.(\"==\";(\"==\";.).)+.)+.");
    assert_eq!(done, Run { output: vec![1], outcome: Outcome::Finished });
}

#[test]
fn skipping_a_body_ends_at_its_own_close() {
    let (_, done) = execute("(+\"==\"-;+.)+.)");
    assert_eq!(
        done,
        Run { output: vec![1], outcome: failed(ExecErrorKind::UnexpectedConditionClose, 10) }
    );
}

#[test]
fn body_to_skip_with_only_inner_closes_is_unclosed() {
    let (_, done) = execute("(+\"==\"-;(+\"==\"+;.)+.");
    assert_eq!(
        done,
        Run { output: vec![], outcome: failed(ExecErrorKind::UnclosedFalseBranch, 14) }
    );
    let (_, done) = execute("(+\"==\"-;+(.)(");
    assert_eq!(done.outcome, failed(ExecErrorKind::UnclosedFalseBranch, 10));
}

#[test]
fn loop_inside_a_body() {
    let (vm, done) = execute("(\"==\";[3+.])");
    assert_eq!(done, Run { output: vec![1, 2, 3], outcome: Outcome::Finished });
    assert_eq!(vm.tape()[0], 3);
}

#[test]
fn rerun_gives_the_same_output() {
    let text = "[5+.(+\"<\"++;>+.<)]>.";
    let (first_vm, first) = execute(text);
    let (second_vm, second) = execute(text);
    assert_eq!(first, second);
    assert_eq!(first.outcome, Outcome::Finished);
    assert_eq!(first.output, vec![1, 1, 2, 2, 3, 3, 4, 4, 5, 5, 5]);
    assert_eq!(first_vm.tape(), second_vm.tape());
    assert_eq!(first_vm.pointer(), second_vm.pointer());
}

#[test]
fn positions_of_tokens_do_not_matter() {
    let (_, packed) = execute("[3+.]");
    let (_, spread) = execute("  [ 3\n\n + //x\n .\n]\n");
    assert_eq!(packed, spread);
}

#[test]
fn run_can_be_continued() {
    let text = "[4+.]>+.";
    let (whole_vm, whole) = execute(text);
    for first_budget in 0..20 {
        let mut vm = machine(text);
        let first = vm.run(first_budget);
        let mut output = first.output;
        let outcome = if first.outcome == Outcome::OutOfBudget {
            let second = vm.run(100_000);
            output.extend(second.output);
            second.outcome
        } else {
            first.outcome
        };
        assert_eq!(Run { output, outcome }, whole);
        assert_eq!(vm.tape(), whole_vm.tape());
    }
}

#[test]
fn budget_counts_transitions() {
    let mut vm = machine("+++");
    assert_eq!(vm.run(0), Run { output: vec![], outcome: Outcome::OutOfBudget });
    assert_eq!(vm.program_counter(), 0);
    assert_eq!(vm.run(3).outcome, Outcome::OutOfBudget);
    assert_eq!(vm.program_counter(), 3);
    assert_eq!(vm.run(1).outcome, Outcome::Finished);
}

#[test]
fn run_from_str_tokenizes_and_runs() {
    assert_eq!(
        VM::run_from_str("[3+.]", 1000),
        Ok(Run { output: vec![1, 2, 3], outcome: Outcome::Finished })
    );
    assert_eq!(
        VM::run_from_str("[3+.", 3),
        Ok(Run { output: vec![1], outcome: Outcome::OutOfBudget })
    );
    assert_eq!(
        VM::run_from_str("+ # -", 1000),
        Err(LexError { kind: LexErrorKind::UnknownCharacter, line: 1, column: 3 })
    );
}

#[test]
fn frames_follow_the_nesting_of_the_loops() {
    let text = "[2+>[3+]<]>[3[1+]-]<[4+>[0-]<].";
    let tokens = Lexer::lex_string(text.to_string()).expect("the text tokenizes");
    let depth_before = |pc: usize| {
        tokens[..pc].iter().fold(0i64, |depth, t| match t.token_type {
            TokenType::BracketOpen => depth + 1,
            TokenType::BracketClose => depth - 1,
            _ => depth,
        })
    };
    let mut vm = VM::new(tokens.clone());
    let mut steps = 0;
    loop {
        assert_eq!(vm.open_loops() as i64, depth_before(vm.program_counter()));
        match vm.single() {
            Step::Halt => break,
            Step::Continue | Step::Print(_) => steps += 1,
            other => panic!("unexpected {:?}", other),
        }
    }
    assert!(steps > 30);
    assert_eq!(vm.tape()[0], 4);
    assert_eq!(vm.open_loops(), 0);
}

#[test]
fn simple_operands_leave_no_trace() {
    for (text, holds) in [
        ("++>+(+>-->+<\"<\">>+++<-;.)", true),
        ("++>+(+>-->+<\">\">>+++<-;.)", false),
    ] {
        let mut vm = machine(text);
        for _ in 0..4 {
            assert_eq!(vm.single(), Step::Continue);
        }
        let (pointer, tape, loops, conditions) =
            (vm.pointer(), vm.tape(), vm.open_loops(), vm.open_conditions());
        assert_eq!((pointer, tape[0], tape[1]), (1, 2, 1));
        let done = vm.run(17);
        assert_eq!(done, Run { output: vec![], outcome: Outcome::OutOfBudget });
        assert_eq!((vm.pointer(), vm.tape(), vm.open_loops()), (pointer, tape, loops));
        if holds {
            assert_eq!((vm.program_counter(), vm.open_conditions()), (21, conditions + 1));
            assert_eq!(vm.single(), Step::Print(1));
        } else {
            assert_eq!((vm.program_counter(), vm.open_conditions()), (23, conditions));
            assert_eq!(vm.single(), Step::Halt);
        }
    }
}

#[test]
fn long_runs_of_signs_touch_one_cell() {
    let text = "+".repeat(5000) + &"-".repeat(7000);
    let mut vm = machine(&text);
    let done = vm.run(1_000_000);
    assert_eq!(done, Run { output: vec![], outcome: Outcome::Finished });
    let mut expected = vec![0; 1000];
    expected[0] = -2000;
    assert_eq!(vm.tape(), expected);
    assert_eq!((vm.pointer(), vm.open_loops(), vm.open_conditions()), (0, 0, 0));
}
