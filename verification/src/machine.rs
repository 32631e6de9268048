//! The mathematical model of execution: a small-step machine over an
//! instruction sequence, its jump pairs, a tape, a data cursor, an
//! instruction cursor, and the two streams (input still to be consumed,
//! output emitted so far).

use crate::jumps::JumpPosition;
use crate::lexer::Op;
use vstd::prelude::*;

verus! {

/// One configuration of the abstract machine.
#[verifier::ext_equal]
pub ghost struct ExecState {
    /// The memory cells.
    pub tape: Seq<i8>,
    /// Index of the active cell.
    pub dp: int,
    /// Index of the next instruction.
    pub ip: int,
    /// Input characters not yet consumed.
    pub input: Seq<i8>,
    /// Cell values emitted so far.
    pub output: Seq<i8>,
}

/// What one step of the machine does: move to a next configuration,
/// halt normally, or stop for one of the unrecoverable reasons.
#[verifier::ext_equal]
pub ghost enum SpecStep {
    /// Execution continues in the given configuration.
    Next(ExecState),
    /// The instruction cursor has left the sequence: normal termination.
    Halt,
    /// A move right at the last cell.
    FatalRight,
    /// A move left at cell zero.
    FatalLeft,
    /// An input instruction with no input left.
    FatalInput,
    /// A jump instruction with no recorded pair: an internal
    /// inconsistency that a validated sequence never shows.
    MissingPair,
}

/// The first recorded pair whose `start` is `i`, as a linear scan finds it.
pub open spec fn find_by_start(ps: Seq<JumpPosition>, i: int) -> Option<JumpPosition>
    decreases ps.len(),
{
    if ps.len() == 0 {
        None
    } else if ps[0].start == i {
        Some(ps[0])
    } else {
        find_by_start(ps.skip(1), i)
    }
}

/// The first recorded pair whose `end` is `i`, as a linear scan finds it.
pub open spec fn find_by_end(ps: Seq<JumpPosition>, i: int) -> Option<JumpPosition>
    decreases ps.len(),
{
    if ps.len() == 0 {
        None
    } else if ps[0].end == i {
        Some(ps[0])
    } else {
        find_by_end(ps.skip(1), i)
    }
}

/// Incrementing a cell, with 127 wrapping to -128.
pub open spec fn inc_cell(v: i8) -> i8 {
    if v == 127i8 {
        -128i8
    } else {
        (v + 1) as i8
    }
}

/// Decrementing a cell, with -128 wrapping to 127.
pub open spec fn dec_cell(v: i8) -> i8 {
    if v == -128i8 {
        127i8
    } else {
        (v - 1) as i8
    }
}

/// The configuration a run starts from: the persisting tape and data
/// cursor, the instruction cursor reset to 0, the whole input still
/// ahead, and nothing emitted yet.
pub open spec fn init_state(tape: Seq<i8>, dp: int, input: Seq<i8>) -> ExecState {
    ExecState { tape, dp, ip: 0, input, output: Seq::empty() }
}

/// One step of the machine on configuration `s`, under program `prog`
/// with recorded jump pairs `pairs`.
pub open spec fn spec_step(prog: Seq<Op>, pairs: Seq<JumpPosition>, s: ExecState) -> SpecStep {
    if s.ip < 0 || s.ip >= prog.len() {
        SpecStep::Halt
    } else {
        match prog[s.ip] {
            Op::IncrementDp => if s.dp + 1 < s.tape.len() {
                SpecStep::Next(ExecState { dp: s.dp + 1, ip: s.ip + 1, ..s })
            } else {
                SpecStep::FatalRight
            },
            Op::DecrementDp => if s.dp > 0 {
                SpecStep::Next(ExecState { dp: s.dp - 1, ip: s.ip + 1, ..s })
            } else {
                SpecStep::FatalLeft
            },
            Op::IncrementDpValue => SpecStep::Next(
                ExecState { tape: s.tape.update(s.dp, inc_cell(s.tape[s.dp])), ip: s.ip + 1, ..s },
            ),
            Op::DecrementDpValue => SpecStep::Next(
                ExecState { tape: s.tape.update(s.dp, dec_cell(s.tape[s.dp])), ip: s.ip + 1, ..s },
            ),
            Op::OutputDp => SpecStep::Next(
                ExecState { output: s.output.push(s.tape[s.dp]), ip: s.ip + 1, ..s },
            ),
            Op::InputDp => if s.input.len() > 0 {
                SpecStep::Next(
                    ExecState {
                        tape: s.tape.update(s.dp, s.input[0]),
                        input: s.input.skip(1),
                        ip: s.ip + 1,
                        ..s
                    },
                )
            } else {
                SpecStep::FatalInput
            },
            Op::JumpForward => if s.tape[s.dp] == 0 {
                match find_by_start(pairs, s.ip) {
                    Some(p) => SpecStep::Next(ExecState { ip: p.end + 1, ..s }),
                    None => SpecStep::MissingPair,
                }
            } else {
                SpecStep::Next(ExecState { ip: s.ip + 1, ..s })
            },
            Op::JumpBackward => if s.tape[s.dp] != 0 {
                match find_by_end(pairs, s.ip) {
                    Some(p) => SpecStep::Next(ExecState { ip: p.start + 1, ..s }),
                    None => SpecStep::MissingPair,
                }
            } else {
                SpecStep::Next(ExecState { ip: s.ip + 1, ..s })
            },
        }
    }
}

/// The configuration after `n` steps from `s`, or `None` if the machine
/// halts or stops before taking all `n` steps.
pub open spec fn steps(prog: Seq<Op>, pairs: Seq<JumpPosition>, s: ExecState, n: nat) -> Option<
    ExecState,
>
    decreases n,
{
    if n == 0 {
        Some(s)
    } else {
        match spec_step(prog, pairs, s) {
            SpecStep::Next(s2) => steps(prog, pairs, s2, (n - 1) as nat),
            _ => None,
        }
    }
}

/// Extending a run by one step: if `n` steps reach `s1` and `s1` steps
/// to `s2`, then `n + 1` steps reach `s2`.
pub proof fn lemma_steps_extend(
    prog: Seq<Op>,
    pairs: Seq<JumpPosition>,
    s0: ExecState,
    n: nat,
    s1: ExecState,
    s2: ExecState,
)
    requires
        steps(prog, pairs, s0, n) == Some(s1),
        spec_step(prog, pairs, s1) == SpecStep::Next(s2),
    ensures
        steps(prog, pairs, s0, (n + 1) as nat) == Some(s2),
    decreases n,
{
    if n == 0 {
        assert(s0 == s1);
        assert(steps(prog, pairs, s2, 0nat) == Some(s2));
        assert(steps(prog, pairs, s0, 1nat) == Some(s2));
    } else {
        match spec_step(prog, pairs, s0) {
            SpecStep::Next(sm) => {
                lemma_steps_extend(prog, pairs, sm, (n - 1) as nat, s1, s2);
                assert(steps(prog, pairs, sm, n) == Some(s2));
                assert(((n + 1) as nat - 1) as nat == n);
                assert(steps(prog, pairs, s0, (n + 1) as nat) == steps(prog, pairs, sm, n));
            },
            _ => {
                assert(false);
            },
        }
    }
}

/// The machine is deterministic: from one starting configuration it
/// stops at exactly one point, if it stops at all. Two step counts that
/// both reach a stopped configuration are the same count reaching the
/// same configuration — so a contract stating that a run reached some
/// stop pins that stop, its tape and its output completely.
pub proof fn lemma_stop_is_unique(
    prog: Seq<Op>,
    pairs: Seq<JumpPosition>,
    s0: ExecState,
    n: nat,
    m: nat,
    s1: ExecState,
    s2: ExecState,
)
    requires
        steps(prog, pairs, s0, n) == Some(s1),
        steps(prog, pairs, s0, m) == Some(s2),
        !(spec_step(prog, pairs, s1) is Next),
        !(spec_step(prog, pairs, s2) is Next),
    ensures
        n == m,
        s1 == s2,
    decreases n,
{
    if n == 0 {
        if m != 0 {
            assert(steps(prog, pairs, s0, m) is None);
        }
    } else {
        if m == 0 {
            assert(steps(prog, pairs, s0, n) is None);
        } else {
            match spec_step(prog, pairs, s0) {
                SpecStep::Next(sm) => {
                    lemma_stop_is_unique(prog, pairs, sm, (n - 1) as nat, (m - 1) as nat, s1, s2);
                },
                _ => {
                    assert(false);
                },
            }
        }
    }
}

/// Law: a cursor move past either edge of the tape is fatal. The machine
/// never clamps the cursor, never wraps it, and never continues: the
/// step relation yields the fatal stop, not a next configuration.
pub proof fn lemma_edge_moves_are_fatal(prog: Seq<Op>, pairs: Seq<JumpPosition>, s: ExecState)
    requires
        0 <= s.ip < prog.len(),
    ensures
        prog[s.ip] == Op::IncrementDp && s.dp + 1 >= s.tape.len() ==> spec_step(prog, pairs, s)
            == SpecStep::FatalRight,
        prog[s.ip] == Op::DecrementDp && s.dp <= 0 ==> spec_step(prog, pairs, s)
            == SpecStep::FatalLeft,
{
}

} // verus!
