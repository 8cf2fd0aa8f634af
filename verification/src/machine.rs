//! The semantics of the tape machine, as a transition function on a
//! mathematical machine state.
//!
//! A program is the token sequence itself.  [`step`] gives, for a program and
//! a machine, the machine after one transition and what that transition made
//! observable; [`run`] iterates it under a budget of transitions.

use crate::grammar::Lexeme;
use crate::lexer::TokenType;
use crate::number::parse_i32;
use vstd::prelude::*;

verus! {

/// The number of cells on the tape.
pub const STACK_SIZE: usize = 1000;

/// The six comparison operators of a conditional.
#[derive(Clone, Copy, Debug, PartialEq, Eq)]
pub enum Comparison {
    Equal,
    NotEqual,
    Greater,
    Less,
    GreaterOrEqual,
    LessOrEqual,
}

/// How far the evaluation of a conditional has come.
#[derive(Clone, Copy, Debug, PartialEq, Eq)]
pub enum Phase {
    /// The left operand is being evaluated.
    Left,
    /// The right operand is being evaluated; `lhs` is the left operand and
    /// `op` the operator read, `None` where it is not one of the six.
    Right { lhs: i32, op: Option<Comparison> },
    /// The condition held and the body is being executed.
    Body,
}

/// The fatal conditions of a run.
#[derive(Clone, Copy, Debug, PartialEq, Eq)]
pub enum ExecErrorKind {
    /// A move left at cell 0.
    PointerBelowZero,
    /// A move right at the last cell.
    PointerPastEnd,
    /// The token after a loop opener is not an integer literal.
    MissingLoopValue,
    /// The integer literal after a loop opener is not a 32-bit integer.
    InvalidLoopValue,
    /// A loop close with no loop open.
    UnmatchedLoopClose,
    /// The operator of a conditional is not one of the six.
    UnknownOperator,
    /// The program ended inside the left operand of a conditional.
    UnterminatedLeft,
    /// The program ended inside the right operand of a conditional.
    UnterminatedRight,
    /// The program ended inside the body of a conditional that held.
    UnclosedTrueBranch,
    /// The program ended while the body of a conditional that did not hold
    /// was skipped.
    UnclosedFalseBranch,
    /// A closing parenthesis where an instruction is expected.
    UnexpectedConditionClose,
    /// A token that is no instruction where an instruction is expected.
    UnknownInstruction,
    /// An increment or decrement would leave the range of a cell.
    CellOverflow,
}

/// One open loop: where its body starts and the cell value that ends it.
pub struct Frame {
    pub resume: int,
    pub exit_value: i32,
}

/// A copy of the mutable state that operand evaluation is rolled back to.
pub struct Checkpoint {
    pub loops: Seq<Frame>,
    pub pointer: int,
    pub tape: Seq<i32>,
}

/// The state of the machine.
pub struct Machine {
    /// Index of the next token.
    pub pc: int,
    pub pointer: int,
    pub tape: Seq<i32>,
    /// The open loops, innermost last.
    pub loops: Seq<Frame>,
    /// The checkpoint taken by the conditional entered last.
    pub stored: Checkpoint,
    /// The conditionals being evaluated, innermost last.
    pub phases: Seq<Phase>,
}

/// What one transition makes observable.
pub enum Event {
    /// Nothing; the run goes on.
    Continue,
    /// A line of output with this value; the run goes on.
    Print(i32),
    /// The end marker was reached outside any conditional.
    Halt,
    /// A loop whose body is to be skipped has no matching close: the scan
    /// for its end goes on for ever.
    Diverge,
    /// A fatal condition, with the program counter it is reported at.
    Fault(ExecErrorKind, int),
}

/// A machine after a transition, and what the transition made observable.
pub struct Transition {
    pub machine: Machine,
    pub event: Event,
}

/// Where the skipping of a conditional's body ends.
pub enum BranchEnd {
    /// At the closing parenthesis at this index.
    Close(int),
    /// At the end marker, or the end of the program, at this index.
    End(int),
}

/// The kind of the token at `pc`; past the end of the program there is only
/// the end marker.
pub open spec fn kind_at(program: Seq<Lexeme>, pc: int) -> TokenType {
    if 0 <= pc < program.len() {
        program[pc].kind
    } else {
        TokenType::EndOfFile
    }
}

/// The operator that the text of a string token writes.
pub open spec fn comparison_of(text: Seq<char>) -> Option<Comparison> {
    if text == seq!['=', '='] {
        Some(Comparison::Equal)
    } else if text == seq!['!', '='] {
        Some(Comparison::NotEqual)
    } else if text == seq!['>'] {
        Some(Comparison::Greater)
    } else if text == seq!['<'] {
        Some(Comparison::Less)
    } else if text == seq!['>', '='] {
        Some(Comparison::GreaterOrEqual)
    } else if text == seq!['<', '='] {
        Some(Comparison::LessOrEqual)
    } else {
        None
    }
}

/// Whether `lhs op rhs` holds of the integers.
pub open spec fn holds(op: Comparison, lhs: i32, rhs: i32) -> bool {
    match op {
        Comparison::Equal => lhs == rhs,
        Comparison::NotEqual => lhs != rhs,
        Comparison::Greater => lhs > rhs,
        Comparison::Less => lhs < rhs,
        Comparison::GreaterOrEqual => lhs >= rhs,
        Comparison::LessOrEqual => lhs <= rhs,
    }
}

/// The index of the loop close that matches a loop opened before `from`:
/// the earliest loop close at or after `from` that does not close a loop
/// opened in between.  `depth` counts the loops opened in between and still open.
pub open spec fn matching_loop_close(program: Seq<Lexeme>, from: int, depth: nat) -> Option<int>
    decreases program.len() - from,
{
    if from < 0 || from >= program.len() {
        None
    } else if program[from].kind == TokenType::BracketClose {
        if depth == 0 {
            Some(from)
        } else {
            matching_loop_close(program, from + 1, (depth - 1) as nat)
        }
    } else if program[from].kind == TokenType::BracketOpen {
        matching_loop_close(program, from + 1, depth + 1)
    } else {
        matching_loop_close(program, from + 1, depth)
    }
}

/// The closing parenthesis that matches a conditional opened before `from`,
/// or the end marker where that comes first.  `depth` counts the conditionals
/// opened in between and still open.
pub open spec fn matching_parenthesis(program: Seq<Lexeme>, from: int, depth: nat) -> BranchEnd
    decreases program.len() - from,
{
    if from < 0 || from >= program.len() {
        BranchEnd::End(from)
    } else if program[from].kind == TokenType::ParenthesisClose {
        if depth == 0 {
            BranchEnd::Close(from)
        } else {
            matching_parenthesis(program, from + 1, (depth - 1) as nat)
        }
    } else if program[from].kind == TokenType::EndOfFile {
        BranchEnd::End(from)
    } else if program[from].kind == TokenType::ParenthesisOpen {
        matching_parenthesis(program, from + 1, depth + 1)
    } else {
        matching_parenthesis(program, from + 1, depth)
    }
}

/// Where the skipping of a body that starts at `from` ends: at the closing
/// parenthesis that matches the conditional, conditionals inside the body
/// counted, or at the end marker.  The token at `from` itself is not tested
/// for the end marker.
pub open spec fn branch_end(program: Seq<Lexeme>, from: int) -> BranchEnd {
    if kind_at(program, from) == TokenType::ParenthesisClose {
        BranchEnd::Close(from)
    } else if from >= program.len() {
        BranchEnd::End(from)
    } else if kind_at(program, from) == TokenType::ParenthesisOpen {
        matching_parenthesis(program, from + 1, 1)
    } else {
        matching_parenthesis(program, from + 1, 0)
    }
}

/// A tape of `STACK_SIZE` cells, all zero.
pub open spec fn blank_tape() -> Seq<i32> {
    Seq::new(STACK_SIZE as nat, |i: int| 0i32)
}

impl Machine {
    /// The machine before its first transition.
    pub open spec fn initial() -> Machine {
        Machine {
            pc: 0,
            pointer: 0,
            tape: blank_tape(),
            loops: Seq::empty(),
            stored: Checkpoint { loops: Seq::empty(), pointer: 0, tape: blank_tape() },
            phases: Seq::empty(),
        }
    }

    /// The pointer is on the tape, in the machine and in its checkpoint.
    pub open spec fn well_formed(self) -> bool {
        &&& self.tape.len() == STACK_SIZE
        &&& 0 <= self.pointer < STACK_SIZE
        &&& self.stored.tape.len() == STACK_SIZE
        &&& 0 <= self.stored.pointer < STACK_SIZE
    }

    /// The value of the cell under the pointer.
    pub open spec fn cell(self) -> i32 {
        self.tape[self.pointer]
    }

    pub open spec fn at(self, pc: int) -> Machine {
        Machine { pc, ..self }
    }

    pub open spec fn with_cell(self, value: i32) -> Machine {
        Machine { tape: self.tape.update(self.pointer, value), ..self }
    }

    /// The checkpoint of the state as it is.
    pub open spec fn checkpoint(self) -> Checkpoint {
        Checkpoint { loops: self.loops, pointer: self.pointer, tape: self.tape }
    }

    /// The machine rolled back to its checkpoint.  The program counter and
    /// the conditionals under evaluation are no part of a checkpoint.
    pub open spec fn restored(self) -> Machine {
        Machine {
            loops: self.stored.loops,
            pointer: self.stored.pointer,
            tape: self.stored.tape,
            ..self
        }
    }
}

pub open spec fn proceed(machine: Machine) -> Transition {
    Transition { machine, event: Event::Continue }
}

/// A transition that leaves the machine as it is.
pub open spec fn stop(machine: Machine, event: Event) -> Transition {
    Transition { machine, event }
}

pub open spec fn fault(machine: Machine, kind: ExecErrorKind, at: int) -> Transition {
    Transition { machine, event: Event::Fault(kind, at) }
}

/// A loop opener: the exit value follows.  Where the cell already has that
/// value the body is skipped, loops inside it included, up to the matching
/// loop close; else a frame is pushed.
pub open spec fn enter_loop(program: Seq<Lexeme>, m: Machine) -> Transition {
    if kind_at(program, m.pc + 1) != TokenType::Integer {
        fault(m, ExecErrorKind::MissingLoopValue, m.pc + 1)
    } else {
        match parse_i32(program[m.pc + 1].text) {
            None => fault(m, ExecErrorKind::InvalidLoopValue, m.pc + 1),
            Some(exit_value) => if m.cell() == exit_value {
                match matching_loop_close(program, m.pc + 1, 0) {
                    Some(close) => proceed(m.at(close + 1)),
                    None => stop(m, Event::Diverge),
                }
            } else {
                proceed(
                    Machine {
                        pc: m.pc + 2,
                        loops: m.loops.push(Frame { resume: m.pc + 2, exit_value }),
                        ..m
                    },
                )
            },
        }
    }
}

/// A loop close: back to the start of the body until the cell has the exit
/// value, then the frame is dropped.
pub open spec fn close_loop(m: Machine) -> Transition {
    if m.loops.len() == 0 {
        fault(m, ExecErrorKind::UnmatchedLoopClose, m.pc)
    } else if m.cell() != m.loops.last().exit_value {
        proceed(m.at(m.loops.last().resume))
    } else {
        proceed(Machine { pc: m.pc + 1, loops: m.loops.drop_last(), ..m })
    }
}

/// The opening of a conditional: the state is captured and the evaluation of
/// the left operand begins.
pub open spec fn enter_condition(m: Machine) -> Transition {
    proceed(
        Machine { pc: m.pc + 1, stored: m.checkpoint(), phases: m.phases.push(Phase::Left), ..m },
    )
}

/// The operator of a conditional: the cell is the left operand, the state is
/// rolled back and the evaluation of the right operand begins.
pub open spec fn take_operator(program: Seq<Lexeme>, m: Machine) -> Transition {
    proceed(
        Machine {
            pc: m.pc + 1,
            phases: m.phases.drop_last().push(
                Phase::Right { lhs: m.cell(), op: comparison_of(program[m.pc].text) },
            ),
            ..m.restored()
        },
    )
}

/// The semicolon of a conditional: the cell is the right operand, the state
/// is rolled back and the comparison decides whether the body is executed or
/// skipped, conditionals inside it included, up to the matching closing
/// parenthesis.
pub open spec fn decide(program: Seq<Lexeme>, m: Machine) -> Transition {
    match m.phases.last() {
        Phase::Right { lhs, op: Some(op) } => if holds(op, lhs, m.cell()) {
            proceed(
                Machine {
                    pc: m.pc + 1,
                    phases: m.phases.drop_last().push(Phase::Body),
                    ..m.restored()
                },
            )
        } else {
            match branch_end(program, m.pc + 1) {
                BranchEnd::Close(close) => proceed(
                    Machine { pc: close + 1, phases: m.phases.drop_last(), ..m.restored() },
                ),
                BranchEnd::End(end) => fault(m, ExecErrorKind::UnclosedFalseBranch, end),
            }
        },
        _ => fault(m, ExecErrorKind::UnknownOperator, m.pc + 1),
    }
}

/// The closing parenthesis of a body that was executed.
pub open spec fn leave_condition(m: Machine) -> Transition {
    proceed(Machine { pc: m.pc + 1, phases: m.phases.drop_last(), ..m })
}

/// The end marker: the run is complete outside any conditional, and a fault
/// inside one.
pub open spec fn end_of_program(m: Machine) -> Transition {
    if m.phases.len() == 0 {
        stop(m, Event::Halt)
    } else {
        fault(
            m,
            match m.phases.last() {
                Phase::Left => ExecErrorKind::UnterminatedLeft,
                Phase::Right { .. } => ExecErrorKind::UnterminatedRight,
                Phase::Body => ExecErrorKind::UnclosedTrueBranch,
            },
            m.pc,
        )
    }
}

/// The token at the program counter, taken as an instruction.
pub open spec fn instruction(program: Seq<Lexeme>, m: Machine) -> Transition {
    match kind_at(program, m.pc) {
        TokenType::MovLeftOperation => if m.pointer < 1 {
            fault(m, ExecErrorKind::PointerBelowZero, m.pc)
        } else {
            proceed(Machine { pc: m.pc + 1, pointer: m.pointer - 1, ..m })
        },
        TokenType::MovRightOperation => if m.pointer + 1 >= STACK_SIZE {
            fault(m, ExecErrorKind::PointerPastEnd, m.pc)
        } else {
            proceed(Machine { pc: m.pc + 1, pointer: m.pointer + 1, ..m })
        },
        TokenType::AddOperation => if m.cell() == i32::MAX {
            fault(m, ExecErrorKind::CellOverflow, m.pc)
        } else {
            proceed(m.with_cell((m.cell() + 1) as i32).at(m.pc + 1))
        },
        TokenType::SubOperation => if m.cell() == i32::MIN {
            fault(m, ExecErrorKind::CellOverflow, m.pc)
        } else {
            proceed(m.with_cell((m.cell() - 1) as i32).at(m.pc + 1))
        },
        TokenType::PrintOut => Transition { machine: m.at(m.pc + 1), event: Event::Print(m.cell()) },
        TokenType::EndOfFile => end_of_program(m),
        TokenType::BracketOpen => enter_loop(program, m),
        TokenType::BracketClose => close_loop(m),
        TokenType::ParenthesisOpen => enter_condition(m),
        TokenType::ParenthesisClose => fault(m, ExecErrorKind::UnexpectedConditionClose, m.pc),
        TokenType::FunctionCall => proceed(m.at(m.pc + 1)),
        _ => fault(m, ExecErrorKind::UnknownInstruction, m.pc),
    }
}

/// One transition of the machine.
///
/// Inside a conditional the token that ends the current phase is looked for
/// first: a string ends the left operand, a semicolon the right operand, a
/// closing parenthesis the body.  Every other token is an instruction.
pub open spec fn step(program: Seq<Lexeme>, m: Machine) -> Transition {
    let kind = kind_at(program, m.pc);
    if m.phases.len() > 0 && m.phases.last() is Left && kind == TokenType::String {
        take_operator(program, m)
    } else if m.phases.len() > 0 && m.phases.last() is Right && kind == TokenType::SemiColon {
        decide(program, m)
    } else if m.phases.len() > 0 && m.phases.last() is Body && kind
        == TokenType::ParenthesisClose {
        leave_condition(m)
    } else {
        instruction(program, m)
    }
}

/// How a run under a budget ends.
pub enum Ending {
    /// The end marker was reached.
    Finished,
    /// A fatal condition, with the program counter it is reported at.
    Failed(ExecErrorKind, int),
    /// The machine scans for a loop close that is not there.
    Diverged,
    /// The budget of transitions was used up.
    OutOfBudget,
}

/// A run: the machine it leaves, the values printed and how it ended.
pub struct Execution {
    pub machine: Machine,
    pub output: Seq<i32>,
    pub ending: Ending,
}

/// `execution` with `front` printed before it.
pub open spec fn after_output(front: Seq<i32>, execution: Execution) -> Execution {
    Execution { output: front + execution.output, ..execution }
}

/// The run of at most `budget` transitions from `m`.
pub open spec fn run(program: Seq<Lexeme>, m: Machine, budget: nat) -> Execution
    decreases budget,
{
    if budget == 0 {
        Execution { machine: m, output: Seq::empty(), ending: Ending::OutOfBudget }
    } else {
        let t = step(program, m);
        match t.event {
            Event::Continue => run(program, t.machine, (budget - 1) as nat),
            Event::Print(value) => after_output(
                seq![value],
                run(program, t.machine, (budget - 1) as nat),
            ),
            Event::Halt => Execution {
                machine: t.machine,
                output: Seq::empty(),
                ending: Ending::Finished,
            },
            Event::Diverge => Execution {
                machine: t.machine,
                output: Seq::empty(),
                ending: Ending::Diverged,
            },
            Event::Fault(kind, at) => Execution {
                machine: t.machine,
                output: Seq::empty(),
                ending: Ending::Failed(kind, at),
            },
        }
    }
}

} // verus!
