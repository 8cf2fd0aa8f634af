//! Laws of the machine, proved from its semantics.

use crate::grammar::law_signs_tokenize;
use crate::grammar::only_signs;
use crate::grammar::tokenize;
use crate::grammar::tokens_of_signs;
use crate::grammar::Lexeme;
use crate::lexer::TokenType;
use crate::machine::after_output;
use crate::machine::blank_tape;
use crate::machine::branch_end;
use crate::machine::holds;
use crate::machine::kind_at;
use crate::machine::proceed;
use crate::machine::BranchEnd;
use crate::number::parse_i32;
use crate::machine::matching_loop_close;
use crate::machine::run;
use crate::machine::matching_parenthesis;
use crate::machine::step;
use crate::machine::Ending;
use crate::machine::Event;
use crate::machine::ExecErrorKind;
use crate::machine::Execution;
use crate::machine::Machine;
use crate::machine::Phase;
use vstd::prelude::*;

verus! {

/// Every transition keeps the pointer on the tape, in the machine and in
/// its checkpoint.
pub proof fn law_step_keeps_well_formed(program: Seq<Lexeme>, m: Machine)
    requires
        m.well_formed(),
    ensures
        step(program, m).machine.well_formed(),
{
}

/// A run keeps the pointer on the tape, whatever its budget.
pub proof fn law_run_keeps_well_formed(program: Seq<Lexeme>, m: Machine, budget: nat)
    requires
        m.well_formed(),
    ensures
        run(program, m, budget).machine.well_formed(),
    decreases budget,
{
    if budget > 0 {
        law_step_keeps_well_formed(program, m);
        law_run_keeps_well_formed(program, step(program, m).machine, (budget - 1) as nat);
    }
}

/// A run that used up its budget can be continued: running for `a + b`
/// transitions is running for `a` and, where that did not end the run,
/// for `b` more from the machine it left.
pub proof fn law_run_resumes(program: Seq<Lexeme>, m: Machine, a: nat, b: nat)
    ensures
        run(program, m, a + b) == if run(program, m, a).ending is OutOfBudget {
            after_output(
                run(program, m, a).output,
                run(program, run(program, m, a).machine, b),
            )
        } else {
            run(program, m, a)
        },
    decreases a,
{
    if a == 0 {
        let whole = run(program, m, b);
        assert(Seq::<i32>::empty() + whole.output =~= whole.output);
    } else {
        let t = step(program, m);
        law_run_resumes(program, t.machine, (a - 1) as nat, b);
        let first = run(program, t.machine, (a - 1) as nat);
        if first.ending is OutOfBudget {
            let second = run(program, first.machine, b);
            if let Event::Print(value) = t.event {
                assert(seq![value] + (first.output + second.output) =~= (seq![value]
                    + first.output) + second.output);
            }
        }
    }
}

/// What a token adds to the cell: 1 for an increment, -1 for a decrement.
pub open spec fn delta(kind: TokenType) -> int {
    if kind == TokenType::AddOperation {
        1
    } else if kind == TokenType::SubOperation {
        -1
    } else {
        0
    }
}

/// The number of increments less the number of decrements among the tokens
/// from `from` up to, not including, `to`.
pub open spec fn balance(program: Seq<Lexeme>, from: int, to: int) -> int
    decreases to - from,
{
    if from >= to {
        0
    } else {
        delta(kind_at(program, from)) + balance(program, from + 1, to)
    }
}

/// The tokens from `from` up to, not including, `to` are increments and
/// decrements.
pub open spec fn only_arithmetic(program: Seq<Lexeme>, from: int, to: int) -> bool {
    forall|i: int|
        from <= i < to ==> (#[trigger] kind_at(program, i) == TokenType::AddOperation || kind_at(
            program,
            i,
        ) == TokenType::SubOperation)
}

/// The balance of a stretch of tokens is at most its length, either way.
pub proof fn lemma_balance_bounded(program: Seq<Lexeme>, from: int, to: int)
    requires
        from <= to,
    ensures
        from - to <= balance(program, from, to) <= to - from,
    decreases to - from,
{
    if from < to {
        lemma_balance_bounded(program, from + 1, to);
    }
}

/// Across `n` increments and decrements the cell under the pointer changes
/// by their balance, and nothing else but the program counter changes.
///
/// This holds wherever the cell stays within the range of a 32-bit integer
/// on the way; it does at the latest after 2^31 increments in a row.
pub proof fn law_arithmetic_adds_up(program: Seq<Lexeme>, m: Machine, n: nat)
    requires
        m.well_formed(),
        only_arithmetic(program, m.pc, m.pc + n),
        forall|k: int|
            0 <= k <= n ==> i32::MIN <= m.cell() + #[trigger] balance(program, m.pc, m.pc + k)
                <= i32::MAX,
    ensures
        run(program, m, n) == (Execution {
            machine: Machine {
                pc: m.pc + n,
                tape: m.tape.update(
                    m.pointer,
                    (m.cell() + balance(program, m.pc, m.pc + n)) as i32,
                ),
                ..m
            },
            output: Seq::empty(),
            ending: Ending::OutOfBudget,
        }),
    decreases n,
{
    if n == 0 {
        assert(m.tape.update(m.pointer, m.cell()) =~= m.tape);
    } else {
        let next = step(program, m).machine;
        assert(kind_at(program, m.pc) == TokenType::AddOperation || kind_at(program, m.pc)
            == TokenType::SubOperation);
        let change = delta(kind_at(program, m.pc));
        assert(balance(program, m.pc, m.pc + 1) == change) by {
            assert(balance(program, m.pc + 1, m.pc + 1) == 0);
        }
        assert(i32::MIN <= m.cell() + change <= i32::MAX);
        assert(step(program, m).event == Event::Continue);
        assert(next == m.with_cell((m.cell() + change) as i32).at(m.pc + 1));
        assert forall|k: int| 0 <= k <= n - 1 implies i32::MIN <= next.cell() + #[trigger] balance(
            program,
            next.pc,
            next.pc + k,
        ) <= i32::MAX by {
            assert(balance(program, m.pc, m.pc + (k + 1)) == change + balance(
                program,
                m.pc + 1,
                m.pc + 1 + k,
            ));
        }
        assert(only_arithmetic(program, next.pc, next.pc + (n - 1))) by {
            assert forall|i: int| next.pc <= i < next.pc + (n - 1) implies (#[trigger] kind_at(
                program,
                i,
            ) == TokenType::AddOperation || kind_at(program, i)
                == TokenType::SubOperation) by {}
        }
        law_arithmetic_adds_up(program, next, (n - 1) as nat);
        assert(next.tape.update(
            next.pointer,
            (next.cell() + balance(program, next.pc, next.pc + (n - 1))) as i32,
        ) =~= m.tape.update(m.pointer, (m.cell() + balance(program, m.pc, m.pc + n)) as i32));
    }
}

/// A stretch of increments and decrements that ends at the end marker
/// touches one cell only, however long it is and however the run ends.
///
/// Whatever the budget, nothing is printed, and the machine the run leaves
/// differs from the one it started from in the program counter and in the
/// cell under the pointer alone; that cell has changed by the balance of
/// the tokens executed.  The run finishes at the end marker, or uses up its
/// budget, or fails where the next token would take the cell out of its
/// range.
pub proof fn law_arithmetic_touches_one_cell(
    program: Seq<Lexeme>,
    m: Machine,
    n: nat,
    budget: nat,
)
    requires
        m.well_formed(),
        m.phases.len() == 0,
        only_arithmetic(program, m.pc, m.pc + n),
        kind_at(program, m.pc + n) == TokenType::EndOfFile,
    ensures
        ({
            let e = run(program, m, budget);
            let reached = e.machine.pc;
            let total = m.cell() + balance(program, m.pc, reached);
            &&& e.output == Seq::<i32>::empty()
            &&& m.pc <= reached <= m.pc + n
            &&& i32::MIN <= total <= i32::MAX
            &&& e.machine == Machine {
                pc: reached,
                tape: m.tape.update(m.pointer, total as i32),
                ..m
            }
            &&& match e.ending {
                Ending::Finished => reached == m.pc + n,
                Ending::OutOfBudget => reached == m.pc + budget,
                Ending::Failed(kind, at) => {
                    &&& kind == ExecErrorKind::CellOverflow
                    &&& at == reached
                    &&& reached < m.pc + n
                    &&& !(i32::MIN <= total + delta(kind_at(program, reached)) <= i32::MAX)
                },
                Ending::Diverged => false,
            }
        }),
    decreases n,
{
    if budget == 0 || n == 0 {
        assert(m.tape.update(m.pointer, m.cell()) =~= m.tape);
    } else {
        assert(kind_at(program, m.pc) == TokenType::AddOperation || kind_at(program, m.pc)
            == TokenType::SubOperation);
        let change = delta(kind_at(program, m.pc));
        if i32::MIN <= m.cell() + change <= i32::MAX {
            let next = step(program, m).machine;
            assert(step(program, m).event == Event::Continue);
            assert(next == m.with_cell((m.cell() + change) as i32).at(m.pc + 1));
            assert(only_arithmetic(program, next.pc, next.pc + (n - 1))) by {
                assert forall|i: int| next.pc <= i < next.pc + (n - 1) implies (
                #[trigger] kind_at(program, i) == TokenType::AddOperation || kind_at(program, i)
                    == TokenType::SubOperation) by {}
            }
            law_arithmetic_touches_one_cell(program, next, (n - 1) as nat, (budget - 1) as nat);
            let e = run(program, next, (budget - 1) as nat);
            let reached = e.machine.pc;
            assert(balance(program, m.pc, reached) == change + balance(
                program,
                m.pc + 1,
                reached,
            ));
            assert(next.tape.update(
                next.pointer,
                (next.cell() + balance(program, next.pc, reached)) as i32,
            ) =~= m.tape.update(
                m.pointer,
                (m.cell() + balance(program, m.pc, reached)) as i32,
            ));
        } else {
            assert(m.tape.update(m.pointer, m.cell()) =~= m.tape);
        }
    }
}

/// A program of `n` increments and decrements, followed by the end marker
/// or by nothing, run on a new machine: nothing is printed, the pointer does
/// not move, no loop is opened, every cell but the first stays zero, and the
/// first cell holds the number of increments less the number of decrements
/// among the tokens executed.
///
/// This holds of programs of any length and under any budget.  Where the
/// program has at most `i32::MAX` tokens and the budget suffices, the run
/// finishes, so that all tokens are executed.  A longer program can take
/// the cell out of its range; the run then fails at that token, and what
/// is said of the rest of the machine still holds.
pub proof fn law_counting(program: Seq<Lexeme>, n: nat, budget: nat)
    requires
        only_arithmetic(program, 0, n as int),
        kind_at(program, n as int) == TokenType::EndOfFile,
    ensures
        ({
            let e = run(program, Machine::initial(), budget);
            let reached = e.machine.pc;
            &&& e.output == Seq::<i32>::empty()
            &&& 0 <= reached <= n
            &&& i32::MIN <= balance(program, 0, reached) <= i32::MAX
            &&& e.machine == Machine {
                pc: reached,
                tape: blank_tape().update(0, balance(program, 0, reached) as i32),
                ..Machine::initial()
            }
            &&& e.ending is Finished ==> reached == n
            &&& e.ending matches Ending::Failed(kind, at) ==> kind == ExecErrorKind::CellOverflow
            &&& !(e.ending is Diverged)
            &&& n <= i32::MAX && budget > n ==> e.ending is Finished
        }),
{
    let start = Machine::initial();
    law_arithmetic_touches_one_cell(program, start, n, budget);
    let reached = run(program, start, budget).machine.pc;
    lemma_balance_bounded(program, 0, reached);
}

/// A text of nothing but `+` and `-`, tokenized and run on a new machine:
/// nothing is printed, the pointer does not move, no loop is opened, every
/// cell but the first stays zero, and the first cell holds the number of
/// `+` less the number of `-` among the characters executed; all of them
/// are, where the text has at most `i32::MAX` characters and the budget
/// exceeds their number.
pub proof fn law_sign_text_counts(s: Seq<char>, budget: nat)
    requires
        only_signs(s),
    ensures
        tokenize(s) matches Ok(tokens) && ({
            let e = run(tokens, Machine::initial(), budget);
            let reached = e.machine.pc;
            &&& tokens_of_signs(s, tokens)
            &&& e.output == Seq::<i32>::empty()
            &&& 0 <= reached <= s.len()
            &&& e.machine == Machine {
                pc: reached,
                tape: blank_tape().update(0, balance(tokens, 0, reached) as i32),
                ..Machine::initial()
            }
            &&& s.len() <= i32::MAX && budget > s.len() ==> e.ending is Finished && reached
                == s.len()
        }),
{
    law_signs_tokenize(s);
    let tokens = tokenize(s)->Ok_0;
    assert(only_arithmetic(tokens, 0, s.len() as int)) by {
        assert forall|i: int| 0 <= i < s.len() implies (#[trigger] kind_at(tokens, i)
            == TokenType::AddOperation || kind_at(tokens, i) == TokenType::SubOperation) by {
            assert(tokens[i].kind == TokenType::AddOperation || tokens[i].kind
                == TokenType::SubOperation);
        }
    }
    law_counting(tokens, s.len(), budget);
}

/// Two programs have the same instructions: token by token the same kind
/// and the same text, whatever the positions recorded.
pub open spec fn same_instructions(first: Seq<Lexeme>, second: Seq<Lexeme>) -> bool {
    &&& first.len() == second.len()
    &&& forall|i: int|
        0 <= i < first.len() ==> (#[trigger] first[i]).kind == second[i].kind && first[i].text
            == second[i].text
}

proof fn lemma_same_scans(first: Seq<Lexeme>, second: Seq<Lexeme>, from: int, depth: nat)
    requires
        same_instructions(first, second),
    ensures
        matching_loop_close(first, from, depth) == matching_loop_close(second, from, depth),
        matching_parenthesis(first, from, depth) == matching_parenthesis(second, from, depth),
    decreases first.len() - from,
{
    if 0 <= from < first.len() {
        assert(first[from].kind == second[from].kind);
        lemma_same_scans(first, second, from + 1, depth);
        lemma_same_scans(first, second, from + 1, depth + 1);
        if depth > 0 {
            lemma_same_scans(first, second, from + 1, (depth - 1) as nat);
        }
    }
}

/// A transition reads nothing of a program but the kinds and texts of its
/// tokens.
pub proof fn law_step_reads_instructions(first: Seq<Lexeme>, second: Seq<Lexeme>, m: Machine)
    requires
        same_instructions(first, second),
    ensures
        step(first, m) == step(second, m),
{
    assert(kind_at(first, m.pc) == kind_at(second, m.pc)) by {
        if 0 <= m.pc < first.len() {
            assert(first[m.pc].kind == second[m.pc].kind);
        }
    }
    assert(kind_at(first, m.pc + 1) == kind_at(second, m.pc + 1)) by {
        if 0 <= m.pc + 1 < first.len() {
            assert(first[m.pc + 1].kind == second[m.pc + 1].kind);
        }
    }
    if 0 <= m.pc < first.len() {
        assert(first[m.pc].text == second[m.pc].text);
    }
    if 0 <= m.pc + 1 < first.len() {
        assert(first[m.pc + 1].text == second[m.pc + 1].text);
    }
    lemma_same_scans(first, second, m.pc + 1, 0);
    lemma_same_scans(first, second, m.pc + 2, 0);
    lemma_same_scans(first, second, m.pc + 2, 1);
}

/// Running is deterministic: the same instructions, run from the same
/// machine under the same budget, leave the same machine, print the same
/// values in the same order and end the same way.
pub proof fn law_run_is_deterministic(
    first: Seq<Lexeme>,
    second: Seq<Lexeme>,
    m: Machine,
    budget: nat,
)
    requires
        same_instructions(first, second),
    ensures
        run(first, m, budget) == run(second, m, budget),
    decreases budget,
{
    if budget > 0 {
        law_step_reads_instructions(first, second, m);
        law_run_is_deterministic(first, second, step(first, m).machine, (budget - 1) as nat);
    }
}

/// No token of the program is a closing parenthesis.
pub open spec fn never_closes(program: Seq<Lexeme>) -> bool {
    forall|i: int| 0 <= i < program.len() ==> (#[trigger] program[i]).kind
        != TokenType::ParenthesisClose
}

proof fn lemma_scan_finds_no_close(program: Seq<Lexeme>, from: int, depth: nat)
    requires
        never_closes(program),
    ensures
        matching_parenthesis(program, from, depth) is End,
    decreases program.len() - from,
{
    if 0 <= from < program.len() {
        assert(program[from].kind != TokenType::ParenthesisClose);
        lemma_scan_finds_no_close(program, from + 1, depth);
        lemma_scan_finds_no_close(program, from + 1, depth + 1);
    }
}

/// Where the program ends inside the body of a conditional that held, the
/// next transition is the fault of the unclosed branch.
pub proof fn law_unclosed_true_branch_is_fatal(program: Seq<Lexeme>, m: Machine)
    requires
        m.phases.len() > 0,
        m.phases.last() is Body,
        kind_at(program, m.pc) == TokenType::EndOfFile,
    ensures
        step(program, m) == (crate::machine::Transition {
            machine: m,
            event: Event::Fault(ExecErrorKind::UnclosedTrueBranch, m.pc),
        }),
{
}

/// Where a conditional does not hold and no closing parenthesis follows its
/// semicolon, the deciding transition is the fault of the unclosed branch.
pub proof fn law_unclosed_false_branch_is_fatal(program: Seq<Lexeme>, m: Machine)
    requires
        m.phases.len() > 0,
        m.phases.last() matches Phase::Right { lhs, op: Some(op) } && !holds(op, lhs, m.cell()),
        kind_at(program, m.pc) == TokenType::SemiColon,
        forall|i: int| m.pc < i < program.len() ==> (#[trigger] program[i]).kind
            != TokenType::ParenthesisClose,
    ensures
        step(program, m).machine == m,
        step(program, m).event matches Event::Fault(kind, at) && kind
            == ExecErrorKind::UnclosedFalseBranch,
{
    lemma_scan_from_finds_no_close(program, m.pc, m.pc + 2, 0);
    lemma_scan_from_finds_no_close(program, m.pc, m.pc + 2, 1);
    assert(branch_end(program, m.pc + 1) is End) by {
        if m.pc + 1 < program.len() {
            assert(program[m.pc + 1].kind != TokenType::ParenthesisClose);
        }
    }
}

proof fn lemma_scan_from_finds_no_close(
    program: Seq<Lexeme>,
    after: int,
    from: int,
    depth: nat,
)
    requires
        after < from,
        forall|i: int| after < i < program.len() ==> (#[trigger] program[i]).kind
            != TokenType::ParenthesisClose,
    ensures
        matching_parenthesis(program, from, depth) is End,
    decreases program.len() - from,
{
    if 0 <= from < program.len() {
        assert(program[from].kind != TokenType::ParenthesisClose);
        lemma_scan_from_finds_no_close(program, after, from + 1, depth);
        lemma_scan_from_finds_no_close(program, after, from + 1, depth + 1);
    }
}

/// A transition of a machine inside a conditional, in a program without a
/// closing parenthesis, leaves the machine inside a conditional.
pub proof fn lemma_stays_in_condition(program: Seq<Lexeme>, m: Machine)
    requires
        never_closes(program),
        m.phases.len() > 0,
    ensures
        step(program, m).machine.phases.len() > 0,
        !(step(program, m).event is Halt),
{
    if 0 <= m.pc < program.len() {
        assert(program[m.pc].kind != TokenType::ParenthesisClose);
    }
    lemma_scan_finds_no_close(program, m.pc + 2, 0);
    lemma_scan_finds_no_close(program, m.pc + 2, 1);
    if 0 <= m.pc + 1 < program.len() {
        assert(program[m.pc + 1].kind != TokenType::ParenthesisClose);
    }
}

/// A conditional that is never closed is never completed: in a program
/// without a closing parenthesis, no run from inside a conditional finishes,
/// whether the body is executed or skipped.
pub proof fn law_unclosed_condition_never_finishes(
    program: Seq<Lexeme>,
    m: Machine,
    budget: nat,
)
    requires
        never_closes(program),
        m.phases.len() > 0,
    ensures
        !(run(program, m, budget).ending is Finished),
    decreases budget,
{
    if budget > 0 {
        lemma_stays_in_condition(program, m);
        law_unclosed_condition_never_finishes(
            program,
            step(program, m).machine,
            (budget - 1) as nat,
        );
    }
}

/// Only the opening of a conditional takes a checkpoint: every other
/// transition keeps the one there is.
pub proof fn law_checkpoint_is_kept(program: Seq<Lexeme>, m: Machine)
    requires
        kind_at(program, m.pc) != TokenType::ParenthesisOpen,
    ensures
        step(program, m).machine.stored == m.stored,
{
}

/// As long as no conditional is opened, a run keeps the checkpoint: the
/// evaluation of an operand that holds no conditional of its own, however
/// long, leaves the checkpoint of its conditional in place.
pub proof fn law_operands_keep_checkpoint(program: Seq<Lexeme>, m: Machine, budget: nat)
    requires
        forall|k: nat|
            k < budget ==> kind_at(program, (#[trigger] run(program, m, k)).machine.pc)
                != TokenType::ParenthesisOpen,
    ensures
        run(program, m, budget).machine.stored == m.stored,
    decreases budget,
{
    if budget > 0 {
        assert(run(program, m, 0).machine == m);
        law_checkpoint_is_kept(program, m);
        let t = step(program, m);
        if t.event is Continue || t.event is Print {
            assert forall|k: nat| k < budget - 1 implies kind_at(
                program,
                (#[trigger] run(program, t.machine, k)).machine.pc,
            ) != TokenType::ParenthesisOpen by {
                assert(run(program, m, k + 1).machine == run(program, t.machine, k).machine);
            }
            law_operands_keep_checkpoint(program, t.machine, (budget - 1) as nat);
        }
    }
}

/// The left operand leaves no trace: once the operator is read, tape,
/// pointer and open loops are those of the checkpoint.
pub proof fn law_operator_restores_checkpoint(program: Seq<Lexeme>, m: Machine)
    requires
        m.phases.len() > 0,
        m.phases.last() is Left,
        kind_at(program, m.pc) == TokenType::String,
    ensures
        step(program, m).event is Continue,
        step(program, m).machine.checkpoint() == m.stored,
        step(program, m).machine.stored == m.stored,
{
}

/// The right operand leaves no trace: once a conditional is decided, tape,
/// pointer and open loops are those of the checkpoint.
pub proof fn law_decision_restores_checkpoint(program: Seq<Lexeme>, m: Machine)
    requires
        m.phases.len() > 0,
        m.phases.last() is Right,
        kind_at(program, m.pc) == TokenType::SemiColon,
        step(program, m).event is Continue,
    ensures
        step(program, m).machine.checkpoint() == m.stored,
        step(program, m).machine.stored == m.stored,
{
}

/// What a token adds to the nesting of loops.
pub open spec fn bracket(kind: TokenType) -> int {
    if kind == TokenType::BracketOpen {
        1
    } else if kind == TokenType::BracketClose {
        -1
    } else {
        0
    }
}

/// The nesting of loops before the token at `pc`: the loop openers less the
/// loop closes among the tokens before it.
pub open spec fn loop_depth(program: Seq<Lexeme>, pc: int) -> int
    decreases pc,
{
    if pc <= 0 {
        0
    } else {
        loop_depth(program, pc - 1) + bracket(kind_at(program, pc - 1))
    }
}

/// What a token adds to the nesting of conditionals.
pub open spec fn parenthesis(kind: TokenType) -> int {
    if kind == TokenType::ParenthesisOpen {
        1
    } else if kind == TokenType::ParenthesisClose {
        -1
    } else {
        0
    }
}

/// The nesting of conditionals before the token at `pc`.
pub open spec fn condition_depth(program: Seq<Lexeme>, pc: int) -> int
    decreases pc,
{
    if pc <= 0 {
        0
    } else {
        condition_depth(program, pc - 1) + parenthesis(kind_at(program, pc - 1))
    }
}

/// The matching loop close is the first token that takes the nesting of
/// loops below the level at which the scan began: with it the nesting has
/// fallen by `depth + 1`, and before it by less.
pub proof fn law_matching_loop_close_balances(program: Seq<Lexeme>, from: int, depth: nat)
    requires
        0 <= from,
    ensures
        matching_loop_close(program, from, depth) matches Some(close) ==> {
            &&& from <= close < program.len()
            &&& program[close].kind == TokenType::BracketClose
            &&& loop_depth(program, close + 1) == loop_depth(program, from) - depth - 1
            &&& forall|j: int|
                from <= j < close ==> #[trigger] loop_depth(program, j + 1) > loop_depth(
                    program,
                    from,
                ) - depth - 1
        },
    decreases program.len() - from,
{
    if from < program.len() {
        assert(loop_depth(program, from + 1) == loop_depth(program, from) + bracket(
            kind_at(program, from),
        ));
        let kind = program[from].kind;
        if kind == TokenType::BracketClose {
            if depth > 0 {
                law_matching_loop_close_balances(program, from + 1, (depth - 1) as nat);
            }
        } else if kind == TokenType::BracketOpen {
            law_matching_loop_close_balances(program, from + 1, depth + 1);
        } else {
            law_matching_loop_close_balances(program, from + 1, depth);
        }
    }
}

/// The matching closing parenthesis is the first token that takes the
/// nesting of conditionals below the level at which the scan began, and no
/// end marker comes before it.
pub proof fn law_matching_parenthesis_balances(program: Seq<Lexeme>, from: int, depth: nat)
    requires
        0 <= from,
    ensures
        matching_parenthesis(program, from, depth) matches BranchEnd::Close(close) ==> {
            &&& from <= close < program.len()
            &&& program[close].kind == TokenType::ParenthesisClose
            &&& condition_depth(program, close + 1) == condition_depth(program, from) - depth
                - 1
            &&& forall|j: int|
                from <= j < close ==> #[trigger] condition_depth(program, j + 1)
                    > condition_depth(program, from) - depth - 1 && program[j].kind
                    != TokenType::EndOfFile
        },
    decreases program.len() - from,
{
    if from < program.len() {
        assert(condition_depth(program, from + 1) == condition_depth(program, from)
            + parenthesis(kind_at(program, from)));
        let kind = program[from].kind;
        if kind == TokenType::ParenthesisClose {
            if depth > 0 {
                law_matching_parenthesis_balances(program, from + 1, (depth - 1) as nat);
            }
        } else if kind == TokenType::EndOfFile {
        } else if kind == TokenType::ParenthesisOpen {
            law_matching_parenthesis_balances(program, from + 1, depth + 1);
        } else {
            law_matching_parenthesis_balances(program, from + 1, depth);
        }
    }
}

/// A loop whose exit value the cell already has is skipped in one
/// transition: nothing of its body is executed, no frame is pushed, and the
/// run goes on after the matching loop close.
pub proof fn law_satisfied_loop_skips_its_body(
    program: Seq<Lexeme>,
    m: Machine,
    exit_value: i32,
    close: int,
)
    requires
        kind_at(program, m.pc) == TokenType::BracketOpen,
        kind_at(program, m.pc + 1) == TokenType::Integer,
        parse_i32(program[m.pc + 1].text) == Some(exit_value),
        m.cell() == exit_value,
        matching_loop_close(program, m.pc + 1, 0) == Some(close),
    ensures
        step(program, m) == proceed(m.at(close + 1)),
{
}

/// A conditional that does not hold is skipped in one transition: nothing
/// of its body is executed, the state is that of the checkpoint, and the
/// run goes on after the matching closing parenthesis.
pub proof fn law_failed_condition_skips_its_body(program: Seq<Lexeme>, m: Machine, close: int)
    requires
        m.phases.len() > 0,
        m.phases.last() matches Phase::Right { lhs, op: Some(op) } && !holds(op, lhs, m.cell()),
        kind_at(program, m.pc) == TokenType::SemiColon,
        branch_end(program, m.pc + 1) == BranchEnd::Close(close),
    ensures
        step(program, m) == proceed(
            Machine { pc: close + 1, phases: m.phases.drop_last(), ..m.restored() },
        ),
{
}

/// No token of the program opens a conditional.
pub open spec fn no_conditions(program: Seq<Lexeme>) -> bool {
    forall|i: int| 0 <= i < program.len() ==> (#[trigger] program[i]).kind
        != TokenType::ParenthesisOpen
}

/// The frames mirror the nesting of the loops: there are as many frames as
/// loops are open before the program counter, and the frame of each loop
/// resumes inside that loop.
pub open spec fn frames_mirror_nesting(program: Seq<Lexeme>, m: Machine) -> bool {
    &&& m.loops.len() == loop_depth(program, m.pc)
    &&& forall|i: int|
        0 <= i < m.loops.len() ==> loop_depth(program, (#[trigger] m.loops[i]).resume) == i + 1
}

/// In a program without conditionals every transition keeps the frames in
/// step with the nesting of the loops: a loop that is entered pushes its
/// frame, a loop that is skipped pushes none and is left behind whole, and
/// a loop that has reached its exit value pops its frame.
///
/// Stated without conditionals: the rollback of an operand puts back the
/// frames of the checkpoint while the program counter stays where it is.
pub proof fn law_frames_mirror_nesting(program: Seq<Lexeme>, m: Machine)
    requires
        no_conditions(program),
        m.phases.len() == 0,
        frames_mirror_nesting(program, m),
    ensures
        step(program, m).machine.phases.len() == 0,
        frames_mirror_nesting(program, step(program, m).machine),
{
    let next = step(program, m).machine;
    if 0 <= m.pc < program.len() {
        let kind = program[m.pc].kind;
        assert(kind != TokenType::ParenthesisOpen);
        assert(loop_depth(program, m.pc + 1) == loop_depth(program, m.pc) + bracket(kind));
        if kind == TokenType::BracketOpen {
            assert(loop_depth(program, m.pc + 2) == loop_depth(program, m.pc + 1) + bracket(
                kind_at(program, m.pc + 1),
            ));
            law_matching_loop_close_balances(program, m.pc + 1, 0);
        } else if kind == TokenType::BracketClose {
            if m.loops.len() > 0 {
                assert(loop_depth(program, m.loops[m.loops.len() - 1].resume) == m.loops.len());
            }
        }
        assert forall|i: int| 0 <= i < next.loops.len() implies loop_depth(
            program,
            (#[trigger] next.loops[i]).resume,
        ) == i + 1 by {
            if i < m.loops.len() {
                assert(next.loops[i] == m.loops[i]);
            }
        }
    }
}

/// In a program without conditionals a run keeps the frames in step with
/// the nesting of the loops, whatever its budget.  A new machine at the
/// start of the program has them in step: no frame, and no loop open.
pub proof fn law_run_mirrors_nesting(program: Seq<Lexeme>, m: Machine, budget: nat)
    requires
        no_conditions(program),
        m.phases.len() == 0,
        frames_mirror_nesting(program, m),
    ensures
        frames_mirror_nesting(program, run(program, m, budget).machine),
    decreases budget,
{
    if budget > 0 {
        law_frames_mirror_nesting(program, m);
        law_run_mirrors_nesting(program, step(program, m).machine, (budget - 1) as nat);
    }
}

/// The tokens from `from` up to, not including, `to` change the cell or
/// move the pointer, and do nothing else.
pub open spec fn only_simple(program: Seq<Lexeme>, from: int, to: int) -> bool {
    forall|i: int|
        from <= i < to ==> {
            let kind = #[trigger] kind_at(program, i);
            kind == TokenType::AddOperation || kind == TokenType::SubOperation || kind
                == TokenType::MovLeftOperation || kind == TokenType::MovRightOperation
        }
}

/// A run over an operand of simple tokens prints nothing and either fails
/// or reaches the end of the operand with checkpoint, frames and
/// conditionals as they were.
proof fn lemma_simple_operand(program: Seq<Lexeme>, m: Machine, n: nat)
    requires
        m.well_formed(),
        only_simple(program, m.pc, m.pc + n),
    ensures
        ({
            let e = run(program, m, n);
            &&& e.output == Seq::<i32>::empty()
            &&& e.ending is OutOfBudget || e.ending is Failed
            &&& e.ending is OutOfBudget ==> {
                &&& e.machine.well_formed()
                &&& e.machine.pc == m.pc + n
                &&& e.machine.stored == m.stored
                &&& e.machine.loops == m.loops
                &&& e.machine.phases == m.phases
            }
        }),
    decreases n,
{
    if n > 0 {
        let kind = kind_at(program, m.pc);
        assert(kind == TokenType::AddOperation || kind == TokenType::SubOperation || kind
            == TokenType::MovLeftOperation || kind == TokenType::MovRightOperation);
        let t = step(program, m);
        if t.event is Continue {
            assert(only_simple(program, t.machine.pc, t.machine.pc + (n - 1))) by {
                assert forall|i: int| t.machine.pc <= i < t.machine.pc + (n - 1) implies {
                    let kind = #[trigger] kind_at(program, i);
                    kind == TokenType::AddOperation || kind == TokenType::SubOperation || kind
                        == TokenType::MovLeftOperation || kind == TokenType::MovRightOperation
                } by {}
            }
            lemma_simple_operand(program, t.machine, (n - 1) as nat);
        }
    }
}

/// The operands of a conditional leave no trace.
///
/// Take a conditional whose operands hold nothing but increments,
/// decrements and moves: its operator stands at `operator`, its semicolon at
/// `semicolon`.  The run from its opening parenthesis up to and including
/// the decision prints nothing, and unless it fails on the way it leaves
/// tape, pointer and open loops exactly as they were at the parenthesis.
/// Where the condition holds the machine then stands at the start of the
/// body, inside the conditional; where it does not, it stands after the
/// matching closing parenthesis, outside it.  So the final state is that of
/// the body alone, or unchanged.
pub proof fn law_operands_leave_no_trace(
    program: Seq<Lexeme>,
    m: Machine,
    operator: int,
    semicolon: int,
)
    requires
        m.well_formed(),
        kind_at(program, m.pc) == TokenType::ParenthesisOpen,
        m.pc < operator < semicolon,
        only_simple(program, m.pc + 1, operator),
        kind_at(program, operator) == TokenType::String,
        only_simple(program, operator + 1, semicolon),
        kind_at(program, semicolon) == TokenType::SemiColon,
    ensures
        ({
            let e = run(program, m, (semicolon - m.pc + 1) as nat);
            &&& e.output == Seq::<i32>::empty()
            &&& e.ending is OutOfBudget || e.ending is Failed
            &&& e.ending is OutOfBudget ==> {
                &&& e.machine.tape == m.tape
                &&& e.machine.pointer == m.pointer
                &&& e.machine.loops == m.loops
                &&& e.machine.stored == m.checkpoint()
                &&& {
                    ||| e.machine.pc == semicolon + 1 && e.machine.phases == m.phases.push(
                        Phase::Body,
                    )
                    ||| branch_end(program, semicolon + 1) == BranchEnd::Close(e.machine.pc - 1)
                        && e.machine.phases == m.phases
                }
            }
        }),
{
    let left = (operator - m.pc - 1) as nat;
    let right = (semicolon - operator - 1) as nat;
    let entered = step(program, m).machine;
    assert(step(program, m).event is Continue);
    assert(entered.well_formed());
    assert(run(program, m, (semicolon - m.pc + 1) as nat) == run(
        program,
        entered,
        left + (right + 2),
    ));
    lemma_simple_operand(program, entered, left);
    law_run_resumes(program, entered, left, right + 2);
    let first = run(program, entered, left);
    if first.ending is OutOfBudget {
        let at_operator = first.machine;
        assert(at_operator.phases.last() is Left);
        let t = step(program, at_operator);
        let rolled = t.machine;
        assert(t.event is Continue);
        assert(rolled.phases.drop_last() =~= m.phases);
        assert(run(program, at_operator, right + 2) == run(program, rolled, right + 1));
        assert(first.output + run(program, rolled, right + 1).output =~= run(
            program,
            rolled,
            right + 1,
        ).output);
        lemma_simple_operand(program, rolled, right);
        law_run_resumes(program, rolled, right, 1);
        let second = run(program, rolled, right);
        if second.ending is OutOfBudget {
            let at_semicolon = second.machine;
            assert(at_semicolon.phases.last() is Right);
            let d = step(program, at_semicolon);
            assert(run(program, d.machine, 0).ending is OutOfBudget);
            assert(second.output + run(program, at_semicolon, 1).output =~= run(
                program,
                at_semicolon,
                1,
            ).output);
            if d.event is Continue {
                assert(at_semicolon.phases.drop_last().drop_last() =~= m.phases.drop_last());
                assert(at_semicolon.phases.drop_last() =~= m.phases);
            }
        }
    }
}

} // verus!
