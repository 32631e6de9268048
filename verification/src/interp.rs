//! The interpreter: a fixed-size tape of signed bytes, a data cursor,
//! an instruction cursor, and the currently loaded instruction sequence
//! with its validated jump pairs.
//!
//! The tape and data cursor persist across `load`/`compile` calls within
//! one session; the instruction sequence and jump pairs are rebuilt from
//! scratch for every unit of source text.

use crate::jumps::{spec_validate, validate_from, JumpPosition};
use crate::lexer::{lex, spec_lex, Op};
use crate::machine::{
    dec_cell, find_by_end, find_by_start, inc_cell, init_state, spec_step, steps, ExecState,
    SpecStep,
};
use crate::machine::lemma_steps_extend;
use crate::DATA_SIZE;
use vstd::prelude::*;

verus! {

/// What the interpreter holds between instructions.
pub struct Interpreter {
    /// The memory cells, all zero at creation.
    pub data: Vec<i8>,
    /// Index of the active cell, within the tape at all times.
    pub data_pointer: usize,
    /// Index of the next instruction to execute.
    pub inst_pointer: usize,
    /// The instruction sequence of the current unit of source text.
    pub op_list: Vec<Op>,
    /// The jump pairs recorded for `op_list` by the last validation.
    pub jump_positions: Vec<JumpPosition>,
}

impl Interpreter {
    /// The data cursor is on the tape, and every recorded jump position
    /// leaves room to step one instruction past it.
    pub open spec fn wf(&self) -> bool {
        &&& self.data_pointer < self.data@.len()
        &&& forall|m: int|
            0 <= m < self.jump_positions@.len() ==> (#[trigger] self.jump_positions@[m]).start
                < usize::MAX && self.jump_positions@[m].end < usize::MAX
    }

    /// The abstract machine configuration this interpreter is in, given
    /// the input not yet consumed and the output emitted so far.
    pub open spec fn abs_state(self, input: Seq<i8>, output: Seq<i8>) -> ExecState {
        ExecState {
            tape: self.data@,
            dp: self.data_pointer as int,
            ip: self.inst_pointer as int,
            input,
            output,
        }
    }

    /// A fresh interpreter: a zeroed tape of `DATA_SIZE` cells, both
    /// cursors at 0, and nothing loaded.
    pub fn new() -> (r: Interpreter)
        ensures
            r.wf(),
            r.data@.len() == DATA_SIZE,
            forall|i: int| 0 <= i < DATA_SIZE ==> r.data@[i] == 0i8,
            r.data_pointer == 0,
            r.inst_pointer == 0,
            r.op_list@ == Seq::<Op>::empty(),
            r.jump_positions@ == Seq::<JumpPosition>::empty(),
    {
        let mut data: Vec<i8> = Vec::new();
        let mut i: usize = 0;
        while i < DATA_SIZE
            invariant
                i <= DATA_SIZE,
                data@.len() == i,
                forall|j: int| 0 <= j < i ==> data@[j] == 0i8,
            decreases DATA_SIZE - i,
        {
            data.push(0);
            i = i + 1;
        }
        Interpreter {
            data,
            data_pointer: 0,
            inst_pointer: 0,
            op_list: Vec::new(),
            jump_positions: Vec::new(),
        }
    }

    /// Move the data cursor one cell to the right. A move at the last
    /// cell is excluded here: callers treat it as a fatal condition
    /// before ever reaching this point.
    pub fn increment_dp(&mut self)
        requires
            old(self).wf(),
            old(self).data_pointer + 1 < old(self).data@.len(),
        ensures
            final(self).wf(),
            final(self).data_pointer == old(self).data_pointer + 1,
            final(self).data == old(self).data,
            final(self).inst_pointer == old(self).inst_pointer,
            final(self).op_list == old(self).op_list,
            final(self).jump_positions == old(self).jump_positions,
    {
        proof {
            vstd::std_specs::vec::axiom_spec_len(&self.data);
        }
        self.data_pointer = self.data_pointer + 1;
    }

    /// Move the data cursor one cell to the left. A move at cell 0 is
    /// excluded here: callers treat it as a fatal condition before ever
    /// reaching this point.
    pub fn decrement_dp(&mut self)
        requires
            old(self).wf(),
            old(self).data_pointer > 0,
        ensures
            final(self).wf(),
            final(self).data_pointer == old(self).data_pointer - 1,
            final(self).data == old(self).data,
            final(self).inst_pointer == old(self).inst_pointer,
            final(self).op_list == old(self).op_list,
            final(self).jump_positions == old(self).jump_positions,
    {
        self.data_pointer = self.data_pointer - 1;
    }

    /// Increment the active cell with signed 8-bit wraparound: 127
    /// becomes -128.
    pub fn increment_dp_value(&mut self)
        requires
            old(self).wf(),
        ensures
            final(self).wf(),
            final(self).data@ == old(self).data@.update(
                old(self).data_pointer as int,
                inc_cell(old(self).data@[old(self).data_pointer as int]),
            ),
            final(self).data_pointer == old(self).data_pointer,
            final(self).inst_pointer == old(self).inst_pointer,
            final(self).op_list == old(self).op_list,
            final(self).jump_positions == old(self).jump_positions,
    {
        let v = self.data[self.data_pointer];
        let nv = if v == 127i8 {
            -128i8
        } else {
            v + 1
        };
        self.data[self.data_pointer] = nv;
    }

    /// Decrement the active cell with signed 8-bit wraparound: -128
    /// becomes 127.
    pub fn decrement_dp_value(&mut self)
        requires
            old(self).wf(),
        ensures
            final(self).wf(),
            final(self).data@ == old(self).data@.update(
                old(self).data_pointer as int,
                dec_cell(old(self).data@[old(self).data_pointer as int]),
            ),
            final(self).data_pointer == old(self).data_pointer,
            final(self).inst_pointer == old(self).inst_pointer,
            final(self).op_list == old(self).op_list,
            final(self).jump_positions == old(self).jump_positions,
    {
        let v = self.data[self.data_pointer];
        let nv = if v == -128i8 {
            127i8
        } else {
            v - 1
        };
        self.data[self.data_pointer] = nv;
    }

    /// The value an output instruction emits: the active cell.
    pub fn output_dp(&self) -> (v: i8)
        requires
            self.wf(),
        ensures
            v == self.data@[self.data_pointer as int],
    {
        self.data[self.data_pointer]
    }

    /// Complete a pending input instruction: store the character read,
    /// reinterpreted as a signed byte, into the active cell, and advance
    /// the instruction cursor past the input instruction.
    pub fn input_dp(&mut self, c: i8)
        requires
            old(self).wf(),
            old(self).inst_pointer < usize::MAX,
        ensures
            final(self).wf(),
            final(self).data@ == old(self).data@.update(old(self).data_pointer as int, c),
            final(self).data_pointer == old(self).data_pointer,
            final(self).inst_pointer == old(self).inst_pointer + 1,
            final(self).op_list == old(self).op_list,
            final(self).jump_positions == old(self).jump_positions,
    {
        self.data[self.data_pointer] = c;
        self.inst_pointer = self.inst_pointer + 1;
    }

    /// The first recorded pair starting at `ip`, by linear scan.
    fn find_start(&self, ip: usize) -> (r: Option<JumpPosition>)
        ensures
            r == find_by_start(self.jump_positions@, ip as int),
            r matches Some(p) ==> exists|m: int|
                0 <= m < self.jump_positions@.len() && self.jump_positions@[m] == p,
    {
        let ghost ps = self.jump_positions@;
        proof {
            assert(ps.skip(0) =~= ps);
        }
        let mut j: usize = 0;
        while j < self.jump_positions.len()
            invariant
                j <= ps.len(),
                ps == self.jump_positions@,
                find_by_start(ps, ip as int) == find_by_start(ps.skip(j as int), ip as int),
            decreases ps.len() - j,
        {
            proof {
                assert(ps.skip(j as int)[0] == ps[j as int]);
            }
            let p = self.jump_positions[j];
            if p.start == ip {
                return Some(p);
            }
            proof {
                assert(ps.skip(j as int).skip(1) =~= ps.skip(j + 1));
            }
            j = j + 1;
        }
        proof {
            assert(ps.skip(j as int).len() == 0);
        }
        None
    }

    /// The first recorded pair ending at `ip`, by linear scan.
    fn find_end(&self, ip: usize) -> (r: Option<JumpPosition>)
        ensures
            r == find_by_end(self.jump_positions@, ip as int),
            r matches Some(p) ==> exists|m: int|
                0 <= m < self.jump_positions@.len() && self.jump_positions@[m] == p,
    {
        let ghost ps = self.jump_positions@;
        proof {
            assert(ps.skip(0) =~= ps);
        }
        let mut j: usize = 0;
        while j < self.jump_positions.len()
            invariant
                j <= ps.len(),
                ps == self.jump_positions@,
                find_by_end(ps, ip as int) == find_by_end(ps.skip(j as int), ip as int),
            decreases ps.len() - j,
        {
            proof {
                assert(ps.skip(j as int)[0] == ps[j as int]);
            }
            let p = self.jump_positions[j];
            if p.end == ip {
                return Some(p);
            }
            proof {
                assert(ps.skip(j as int).skip(1) =~= ps.skip(j + 1));
            }
            j = j + 1;
        }
        proof {
            assert(ps.skip(j as int).len() == 0);
        }
        None
    }

    /// Handle a `[`: when the active cell is zero, move the instruction
    /// cursor one past the matching `]`; otherwise advance by one.
    /// Returns false, changing nothing, when no recorded pair starts
    /// here — an internal inconsistency that validation rules out.
    pub fn jump_forward(&mut self) -> (ok: bool)
        requires
            old(self).wf(),
            old(self).inst_pointer < old(self).op_list@.len(),
        ensures
            final(self).wf(),
            final(self).data == old(self).data,
            final(self).data_pointer == old(self).data_pointer,
            final(self).op_list == old(self).op_list,
            final(self).jump_positions == old(self).jump_positions,
            ({
                let pairs = old(self).jump_positions@;
                let ip = old(self).inst_pointer as int;
                if old(self).data@[old(self).data_pointer as int] == 0 {
                    match find_by_start(pairs, ip) {
                        Some(p) => ok && final(self).inst_pointer == p.end + 1,
                        None => !ok && final(self).inst_pointer == old(self).inst_pointer,
                    }
                } else {
                    ok && final(self).inst_pointer == old(self).inst_pointer + 1
                }
            }),
    {
        if self.data[self.data_pointer] == 0 {
            let ip = self.inst_pointer;
            match self.find_start(ip) {
                Some(jump) => {
                    self.inst_pointer = jump.end + 1;
                    true
                },
                None => false,
            }
        } else {
            proof {
                vstd::std_specs::vec::axiom_spec_len(&self.op_list);
            }
            self.inst_pointer = self.inst_pointer + 1;
            true
        }
    }

    /// Handle a `]`: when the active cell is non-zero, move the
    /// instruction cursor one past the matching `[`; otherwise advance
    /// by one. Returns false, changing nothing, when no recorded pair
    /// ends here — an internal inconsistency that validation rules out.
    pub fn jump_backward(&mut self) -> (ok: bool)
        requires
            old(self).wf(),
            old(self).inst_pointer < old(self).op_list@.len(),
        ensures
            final(self).wf(),
            final(self).data == old(self).data,
            final(self).data_pointer == old(self).data_pointer,
            final(self).op_list == old(self).op_list,
            final(self).jump_positions == old(self).jump_positions,
            ({
                let pairs = old(self).jump_positions@;
                let ip = old(self).inst_pointer as int;
                if old(self).data@[old(self).data_pointer as int] != 0 {
                    match find_by_end(pairs, ip) {
                        Some(p) => ok && final(self).inst_pointer == p.start + 1,
                        None => !ok && final(self).inst_pointer == old(self).inst_pointer,
                    }
                } else {
                    ok && final(self).inst_pointer == old(self).inst_pointer + 1
                }
            }),
    {
        if self.data[self.data_pointer] != 0 {
            let ip = self.inst_pointer;
            match self.find_end(ip) {
                Some(jump) => {
                    self.inst_pointer = jump.start + 1;
                    true
                },
                None => false,
            }
        } else {
            proof {
                vstd::std_specs::vec::axiom_spec_len(&self.op_list);
            }
            self.inst_pointer = self.inst_pointer + 1;
            true
        }
    }

    /// Validate the jumps of the loaded instruction sequence: scan once,
    /// pushing the position of each `[` and matching each `]` with the
    /// most recently pending one, recording the pair. Reports failure on
    /// a `]` with nothing pending or on leftover `[` at the end; the
    /// executor must not run on a rejected sequence.
    pub fn validate_jumps(&mut self) -> (r: bool)
        ensures
            final(self).data == old(self).data,
            final(self).data_pointer == old(self).data_pointer,
            final(self).inst_pointer == old(self).inst_pointer,
            final(self).op_list == old(self).op_list,
            r <==> spec_validate(old(self).op_list@) is Some,
            r ==> final(self).jump_positions@ == spec_validate(old(self).op_list@)->Some_0,
            forall|m: int|
                0 <= m < final(self).jump_positions@.len()
                    ==> (#[trigger] final(self).jump_positions@[m]).start < usize::MAX
                    && final(self).jump_positions@[m].end < usize::MAX,
    {
        self.jump_positions.clear();
        let mut stack: Vec<usize> = Vec::new();
        let mut index: usize = 0;
        let ghost prog = self.op_list@;
        proof {
            assert(spec_validate(prog) == validate_from(prog, 0, stack@, self.jump_positions@));
        }
        while index < self.op_list.len()
            invariant
                index <= prog.len(),
                prog == self.op_list@,
                self.op_list == old(self).op_list,
                self.data == old(self).data,
                self.data_pointer == old(self).data_pointer,
                self.inst_pointer == old(self).inst_pointer,
                spec_validate(prog) == validate_from(
                    prog,
                    index as int,
                    stack@,
                    self.jump_positions@,
                ),
                forall|m: int| 0 <= m < stack@.len() ==> (#[trigger] stack@[m]) < index,
                forall|m: int|
                    0 <= m < self.jump_positions@.len() ==> (
                    #[trigger] self.jump_positions@[m]).start < index
                        && self.jump_positions@[m].end < index,
            decreases prog.len() - index,
        {
            let op = self.op_list[index];
            match op {
                Op::JumpForward => {
                    stack.push(index);
                },
                Op::JumpBackward => {
                    if stack.len() == 0 {
                        proof {
                            assert(validate_from(prog, index as int, stack@,
                                self.jump_positions@) is None);
                        }
                        return false;
                    }
                    let start = match stack.pop() {
                        Some(s) => s,
                        None => {
                            return false;
                        },
                    };
                    self.jump_positions.push(JumpPosition { start, end: index });
                },
                _ => {
                },
            }
            index = index + 1;
        }
        if stack.len() == 0 {
            proof {
                assert(validate_from(prog, index as int, stack@,
                    self.jump_positions@) == Some(self.jump_positions@));
            }
            true
        } else {
            proof {
                assert(validate_from(prog, index as int, stack@, self.jump_positions@) is None);
            }
            false
        }
    }

    /// Prepare one unit of source text: replace the instruction sequence
    /// with the lexing of `code`, reset the instruction cursor, and
    /// validate the jumps. The tape and data cursor are untouched, so a
    /// session accumulates cell state across calls. Returns false, and
    /// the executor must not be run, when validation rejects the text.
    pub fn load(&mut self, code: &[u8]) -> (ok: bool)
        ensures
            final(self).data == old(self).data,
            final(self).data_pointer == old(self).data_pointer,
            final(self).inst_pointer == 0,
            final(self).op_list@ == spec_lex(code@),
            ok <==> spec_validate(spec_lex(code@)) is Some,
            ok ==> final(self).jump_positions@ == spec_validate(spec_lex(code@))->Some_0,
            old(self).wf() ==> final(self).wf(),
    {
        self.op_list = lex(code);
        self.inst_pointer = 0;
        self.validate_jumps()
    }
}

/// The tape and both cursors are as they were: nothing observable
/// happened between `pre` and `post`.
pub open spec fn config_unchanged(pre: Interpreter, post: Interpreter) -> bool {
    &&& post.data == pre.data
    &&& post.data_pointer == pre.data_pointer
    &&& post.inst_pointer == pre.inst_pointer
}

/// What one step of the interpreter reported.
#[derive(Clone, Copy, PartialEq, Eq, Structural, Debug)]
pub enum StepEvent {
    /// The instruction executed and the instruction cursor moved on.
    Advanced,
    /// An output instruction executed, emitting the value carried here.
    Output(i8),
    /// The instruction is an input instruction, left pending for
    /// `input_dp` to complete with a character.
    NeedsInput,
    /// The instruction cursor has left the sequence: normal termination.
    Halted,
    /// A jump with no recorded pair, an internal inconsistency that
    /// validation rules out; nothing changed.
    MissingPair,
    /// A move right at the last cell, a fatal condition; nothing changed.
    TapeOverflow,
    /// A move left at cell 0, a fatal condition; nothing changed.
    TapeUnderflow,
}

impl Interpreter {
    /// Execute the instruction under the instruction cursor — except an
    /// input instruction, which is reported as `NeedsInput` and left
    /// pending for `input_dp` to complete. The fatal conditions and the
    /// missing-pair inconsistency are reported with the interpreter
    /// unchanged; the caller decides how to stop.
    pub fn step(&mut self) -> (e: StepEvent)
        requires
            old(self).wf(),
        ensures
            final(self).wf(),
            final(self).op_list == old(self).op_list,
            final(self).jump_positions == old(self).jump_positions,
            final(self).data@.len() == old(self).data@.len(),
            ({
                let prog = old(self).op_list@;
                let pairs = old(self).jump_positions@;
                match e {
                    StepEvent::Halted => old(self).inst_pointer >= prog.len() && config_unchanged(
                        *old(self),
                        *final(self),
                    ),
                    StepEvent::Advanced => old(self).inst_pointer < prog.len() && (forall|
                        inp: Seq<i8>,
                        outp: Seq<i8>,
                    |
                        spec_step(prog, pairs, #[trigger] old(self).abs_state(inp, outp))
                            == SpecStep::Next(final(self).abs_state(inp, outp))),
                    StepEvent::Output(v) => old(self).inst_pointer < prog.len() && v == old(
                        self,
                    ).data@[old(self).data_pointer as int] && (forall|inp: Seq<i8>, outp: Seq<i8>|
                        spec_step(prog, pairs, #[trigger] old(self).abs_state(inp, outp))
                            == SpecStep::Next(final(self).abs_state(inp, outp.push(v)))),
                    StepEvent::NeedsInput => old(self).inst_pointer < prog.len() && prog[old(
                        self,
                    ).inst_pointer as int] == Op::InputDp && config_unchanged(
                        *old(self),
                        *final(self),
                    ),
                    StepEvent::MissingPair => config_unchanged(*old(self), *final(self)) && (forall|
                        inp: Seq<i8>,
                        outp: Seq<i8>,
                    |
                        spec_step(prog, pairs, #[trigger] old(self).abs_state(inp, outp))
                            == SpecStep::MissingPair),
                    StepEvent::TapeOverflow => config_unchanged(*old(self), *final(self)) && (
                    forall|inp: Seq<i8>, outp: Seq<i8>|
                        spec_step(prog, pairs, #[trigger] old(self).abs_state(inp, outp))
                            == SpecStep::FatalRight),
                    StepEvent::TapeUnderflow => config_unchanged(*old(self), *final(self)) && (
                    forall|inp: Seq<i8>, outp: Seq<i8>|
                        spec_step(prog, pairs, #[trigger] old(self).abs_state(inp, outp))
                            == SpecStep::FatalLeft),
                }
            }),
    {
        let ghost prog = self.op_list@;
        let ghost pairs = self.jump_positions@;
        if self.inst_pointer >= self.op_list.len() {
            return StepEvent::Halted;
        }
        let ip = self.inst_pointer;
        let op = self.op_list[ip];
        match op {
            Op::IncrementDp => {
                if self.data_pointer == self.data.len() - 1 {
                    proof {
                        assert forall|inp: Seq<i8>, outp: Seq<i8>|
                            spec_step(prog, pairs, #[trigger] old(self).abs_state(inp, outp))
                                == SpecStep::FatalRight by {
                            let s = old(self).abs_state(inp, outp);
                            assert(prog[s.ip] == Op::IncrementDp);
                        }
                    }
                    return StepEvent::TapeOverflow;
                }
                proof {
                    vstd::std_specs::vec::axiom_spec_len(&self.data);
                }
                self.increment_dp();
                self.inst_pointer = ip + 1;
                proof {
                    assert forall|inp: Seq<i8>, outp: Seq<i8>|
                        spec_step(prog, pairs, #[trigger] old(self).abs_state(inp, outp))
                            == SpecStep::Next(self.abs_state(inp, outp)) by {
                        let s = old(self).abs_state(inp, outp);
                        assert(spec_step(prog, pairs, s) == SpecStep::Next(
                            ExecState { dp: s.dp + 1, ip: s.ip + 1, ..s },
                        ));
                        assert(ExecState { dp: s.dp + 1, ip: s.ip + 1, ..s } =~= self.abs_state(
                            inp,
                            outp,
                        ));
                    }
                }
                StepEvent::Advanced
            },
            Op::DecrementDp => {
                if self.data_pointer == 0 {
                    proof {
                        assert forall|inp: Seq<i8>, outp: Seq<i8>|
                            spec_step(prog, pairs, #[trigger] old(self).abs_state(inp, outp))
                                == SpecStep::FatalLeft by {
                            let s = old(self).abs_state(inp, outp);
                            assert(prog[s.ip] == Op::DecrementDp);
                        }
                    }
                    return StepEvent::TapeUnderflow;
                }
                self.decrement_dp();
                self.inst_pointer = ip + 1;
                proof {
                    assert forall|inp: Seq<i8>, outp: Seq<i8>|
                        spec_step(prog, pairs, #[trigger] old(self).abs_state(inp, outp))
                            == SpecStep::Next(self.abs_state(inp, outp)) by {
                        let s = old(self).abs_state(inp, outp);
                        assert(spec_step(prog, pairs, s) == SpecStep::Next(
                            ExecState { dp: s.dp - 1, ip: s.ip + 1, ..s },
                        ));
                        assert(ExecState { dp: s.dp - 1, ip: s.ip + 1, ..s } =~= self.abs_state(
                            inp,
                            outp,
                        ));
                    }
                }
                StepEvent::Advanced
            },
            Op::IncrementDpValue => {
                self.increment_dp_value();
                self.inst_pointer = ip + 1;
                proof {
                    assert forall|inp: Seq<i8>, outp: Seq<i8>|
                        spec_step(prog, pairs, #[trigger] old(self).abs_state(inp, outp))
                            == SpecStep::Next(self.abs_state(inp, outp)) by {
                        let s = old(self).abs_state(inp, outp);
                        assert(spec_step(prog, pairs, s) == SpecStep::Next(
                            ExecState {
                                tape: s.tape.update(s.dp, inc_cell(s.tape[s.dp])),
                                ip: s.ip + 1,
                                ..s
                            },
                        ));
                        assert(ExecState {
                            tape: s.tape.update(s.dp, inc_cell(s.tape[s.dp])),
                            ip: s.ip + 1,
                            ..s
                        } =~= self.abs_state(inp, outp));
                    }
                }
                StepEvent::Advanced
            },
            Op::DecrementDpValue => {
                self.decrement_dp_value();
                self.inst_pointer = ip + 1;
                proof {
                    assert forall|inp: Seq<i8>, outp: Seq<i8>|
                        spec_step(prog, pairs, #[trigger] old(self).abs_state(inp, outp))
                            == SpecStep::Next(self.abs_state(inp, outp)) by {
                        let s = old(self).abs_state(inp, outp);
                        assert(spec_step(prog, pairs, s) == SpecStep::Next(
                            ExecState {
                                tape: s.tape.update(s.dp, dec_cell(s.tape[s.dp])),
                                ip: s.ip + 1,
                                ..s
                            },
                        ));
                        assert(ExecState {
                            tape: s.tape.update(s.dp, dec_cell(s.tape[s.dp])),
                            ip: s.ip + 1,
                            ..s
                        } =~= self.abs_state(inp, outp));
                    }
                }
                StepEvent::Advanced
            },
            Op::OutputDp => {
                let v = self.output_dp();
                self.inst_pointer = ip + 1;
                proof {
                    assert forall|inp: Seq<i8>, outp: Seq<i8>|
                        spec_step(prog, pairs, #[trigger] old(self).abs_state(inp, outp))
                            == SpecStep::Next(self.abs_state(inp, outp.push(v))) by {
                        let s = old(self).abs_state(inp, outp);
                        assert(spec_step(prog, pairs, s) == SpecStep::Next(
                            ExecState { output: s.output.push(s.tape[s.dp]), ip: s.ip + 1, ..s },
                        ));
                        assert(ExecState { output: s.output.push(s.tape[s.dp]), ip: s.ip + 1, ..s }
                            =~= self.abs_state(inp, outp.push(v)));
                    }
                }
                StepEvent::Output(v)
            },
            Op::InputDp => StepEvent::NeedsInput,
            Op::JumpForward => {
                let ok = self.jump_forward();
                if ok {
                    proof {
                        assert forall|inp: Seq<i8>, outp: Seq<i8>|
                            spec_step(prog, pairs, #[trigger] old(self).abs_state(inp, outp))
                                == SpecStep::Next(self.abs_state(inp, outp)) by {
                            let s = old(self).abs_state(inp, outp);
                            if old(self).data@[old(self).data_pointer as int] == 0 {
                                let p = find_by_start(pairs, s.ip)->Some_0;
                                assert(spec_step(prog, pairs, s) == SpecStep::Next(
                                    ExecState { ip: p.end + 1, ..s },
                                ));
                                assert(ExecState { ip: p.end + 1, ..s } =~= self.abs_state(
                                    inp,
                                    outp,
                                ));
                            } else {
                                assert(spec_step(prog, pairs, s) == SpecStep::Next(
                                    ExecState { ip: s.ip + 1, ..s },
                                ));
                                assert(ExecState { ip: s.ip + 1, ..s } =~= self.abs_state(
                                    inp,
                                    outp,
                                ));
                            }
                        }
                    }
                    StepEvent::Advanced
                } else {
                    proof {
                        assert forall|inp: Seq<i8>, outp: Seq<i8>|
                            spec_step(prog, pairs, #[trigger] old(self).abs_state(inp, outp))
                                == SpecStep::MissingPair by {
                            let s = old(self).abs_state(inp, outp);
                            assert(prog[s.ip] == Op::JumpForward);
                        }
                    }
                    StepEvent::MissingPair
                }
            },
            Op::JumpBackward => {
                let ok = self.jump_backward();
                if ok {
                    proof {
                        assert forall|inp: Seq<i8>, outp: Seq<i8>|
                            spec_step(prog, pairs, #[trigger] old(self).abs_state(inp, outp))
                                == SpecStep::Next(self.abs_state(inp, outp)) by {
                            let s = old(self).abs_state(inp, outp);
                            if old(self).data@[old(self).data_pointer as int] != 0 {
                                let p = find_by_end(pairs, s.ip)->Some_0;
                                assert(spec_step(prog, pairs, s) == SpecStep::Next(
                                    ExecState { ip: p.start + 1, ..s },
                                ));
                                assert(ExecState { ip: p.start + 1, ..s } =~= self.abs_state(
                                    inp,
                                    outp,
                                ));
                            } else {
                                assert(spec_step(prog, pairs, s) == SpecStep::Next(
                                    ExecState { ip: s.ip + 1, ..s },
                                ));
                                assert(ExecState { ip: s.ip + 1, ..s } =~= self.abs_state(
                                    inp,
                                    outp,
                                ));
                            }
                        }
                    }
                    StepEvent::Advanced
                } else {
                    proof {
                        assert forall|inp: Seq<i8>, outp: Seq<i8>|
                            spec_step(prog, pairs, #[trigger] old(self).abs_state(inp, outp))
                                == SpecStep::MissingPair by {
                            let s = old(self).abs_state(inp, outp);
                            assert(prog[s.ip] == Op::JumpBackward);
                        }
                    }
                    StepEvent::MissingPair
                }
            },
        }
    }
}

/// How a run ended.
#[derive(Clone, Copy, PartialEq, Eq, Structural, Debug)]
pub enum Outcome {
    /// Validation rejected the source text; nothing ran.
    MismatchedJumps,
    /// The instruction cursor reached the end of the sequence.
    Halted,
    /// A jump had no recorded pair, an internal inconsistency; the run
    /// stopped at the jump.
    MissingPair,
    /// A move right at the last cell: a fatal condition.
    TapeOverflow,
    /// A move left at cell 0: a fatal condition.
    TapeUnderflow,
    /// An input instruction found the input exhausted, standing for a
    /// failed read: a fatal condition.
    OutOfInput,
    /// The step budget ran out before the program stopped.
    StepLimit,
}

/// The values a run emitted, in order, and how the run ended.
pub struct RunResult {
    pub outputs: Vec<i8>,
    pub outcome: Outcome,
}

/// The stop that the machine reports from configuration step `st`, if
/// it stops at all.
pub open spec fn outcome_of(st: SpecStep) -> Option<Outcome> {
    match st {
        SpecStep::Halt => Some(Outcome::Halted),
        SpecStep::FatalRight => Some(Outcome::TapeOverflow),
        SpecStep::FatalLeft => Some(Outcome::TapeUnderflow),
        SpecStep::FatalInput => Some(Outcome::OutOfInput),
        SpecStep::MissingPair => Some(Outcome::MissingPair),
        SpecStep::Next(_) => None,
    }
}

/// Some number of machine steps from `s0` reaches a configuration with
/// the given tape, cursors and output, at which the machine stops with
/// outcome `oc`.
pub open spec fn reaches_outcome(
    prog: Seq<Op>,
    pairs: Seq<JumpPosition>,
    s0: ExecState,
    tape: Seq<i8>,
    dp: int,
    ip: int,
    out: Seq<i8>,
    oc: Outcome,
) -> bool {
    exists|n: nat, sf: ExecState|
        #![trigger steps(prog, pairs, s0, n), spec_step(prog, pairs, sf)]
        {
            &&& steps(prog, pairs, s0, n) == Some(sf)
            &&& sf.tape == tape
            &&& sf.dp == dp
            &&& sf.ip == ip
            &&& sf.output == out
            &&& outcome_of(spec_step(prog, pairs, sf)) == Some(oc)
        }
}

/// The executor's contract: on a terminal outcome, the machine reached
/// exactly that stop in the final configuration; on `StepLimit`, the
/// machine took exactly `max_steps` steps to the final configuration
/// without yet stopping being required.
pub open spec fn run_post(
    prog: Seq<Op>,
    pairs: Seq<JumpPosition>,
    s0: ExecState,
    tape: Seq<i8>,
    dp: int,
    ip: int,
    out: Seq<i8>,
    oc: Outcome,
    max_steps: nat,
) -> bool {
    if oc == Outcome::StepLimit {
        exists|sf: ExecState|
            #![trigger spec_step(prog, pairs, sf)]
            {
                &&& steps(prog, pairs, s0, max_steps) == Some(sf)
                &&& sf.tape == tape
                &&& sf.dp == dp
                &&& sf.ip == ip
                &&& sf.output == out
            }
    } else {
        reaches_outcome(prog, pairs, s0, tape, dp, ip, out, oc)
    }
}

/// Law: execution is deterministic. Two results that both satisfy the
/// executor's contract for the same program, jump pairs and starting
/// configuration — each having actually stopped rather than run out of
/// budget — agree on the final tape, both cursors, every emitted value
/// and the outcome.
pub proof fn lemma_run_outcome_deterministic(
    prog: Seq<Op>,
    pairs: Seq<JumpPosition>,
    s0: ExecState,
    tape1: Seq<i8>,
    dp1: int,
    ip1: int,
    out1: Seq<i8>,
    oc1: Outcome,
    tape2: Seq<i8>,
    dp2: int,
    ip2: int,
    out2: Seq<i8>,
    oc2: Outcome,
)
    requires
        reaches_outcome(prog, pairs, s0, tape1, dp1, ip1, out1, oc1),
        reaches_outcome(prog, pairs, s0, tape2, dp2, ip2, out2, oc2),
    ensures
        tape1 == tape2,
        dp1 == dp2,
        ip1 == ip2,
        out1 == out2,
        oc1 == oc2,
{
    let (n1, sf1) = choose|n: nat, sf: ExecState|
        #![trigger steps(prog, pairs, s0, n), spec_step(prog, pairs, sf)]
        {
            &&& steps(prog, pairs, s0, n) == Some(sf)
            &&& sf.tape == tape1
            &&& sf.dp == dp1
            &&& sf.ip == ip1
            &&& sf.output == out1
            &&& outcome_of(spec_step(prog, pairs, sf)) == Some(oc1)
        };
    let (n2, sf2) = choose|n: nat, sf: ExecState|
        #![trigger steps(prog, pairs, s0, n), spec_step(prog, pairs, sf)]
        {
            &&& steps(prog, pairs, s0, n) == Some(sf)
            &&& sf.tape == tape2
            &&& sf.dp == dp2
            &&& sf.ip == ip2
            &&& sf.output == out2
            &&& outcome_of(spec_step(prog, pairs, sf)) == Some(oc2)
        };
    crate::machine::lemma_stop_is_unique(prog, pairs, s0, n1, n2, sf1, sf2);
}

impl Interpreter {
    /// Reset the instruction cursor to 0 and execute the loaded
    /// instruction sequence, consuming characters of `input` as the
    /// input instructions ask for them and collecting every emitted
    /// value, for at most `max_steps` instructions. Jump instructions
    /// move the instruction cursor around; every other instruction
    /// advances it by one; the run ends when the cursor leaves the
    /// sequence or an unrecoverable condition is met.
    pub fn run(&mut self, input: &[i8], max_steps: usize) -> (r: RunResult)
        requires
            old(self).wf(),
        ensures
            final(self).wf(),
            final(self).op_list == old(self).op_list,
            final(self).jump_positions == old(self).jump_positions,
            final(self).data@.len() == old(self).data@.len(),
            r.outcome != Outcome::MismatchedJumps,
            run_post(
                old(self).op_list@,
                old(self).jump_positions@,
                init_state(old(self).data@, old(self).data_pointer as int, input@),
                final(self).data@,
                final(self).data_pointer as int,
                final(self).inst_pointer as int,
                r.outputs@,
                r.outcome,
                max_steps as nat,
            ),
    {
        self.inst_pointer = 0;
        let mut outputs: Vec<i8> = Vec::new();
        let mut in_idx: usize = 0;
        let mut count: usize = 0;
        let ghost prog = self.op_list@;
        let ghost pairs = self.jump_positions@;
        let ghost s0 = init_state(self.data@, self.data_pointer as int, input@);
        proof {
            assert(input@.skip(0) =~= input@);
            assert(self.abs_state(input@.skip(0), outputs@) =~= s0);
        }
        while count < max_steps
            invariant
                self.wf(),
                self.op_list == old(self).op_list,
                self.jump_positions == old(self).jump_positions,
                self.data@.len() == old(self).data@.len(),
                prog == self.op_list@,
                pairs == self.jump_positions@,
                s0 == init_state(old(self).data@, old(self).data_pointer as int, input@),
                count <= max_steps,
                in_idx <= input@.len(),
                steps(prog, pairs, s0, count as nat) == Some(
                    self.abs_state(input@.skip(in_idx as int), outputs@),
                ),
            decreases max_steps - count,
        {
            let ghost cur = self.abs_state(input@.skip(in_idx as int), outputs@);
            let e = self.step();
            match e {
                StepEvent::Halted => {
                    proof {
                        assert(spec_step(prog, pairs, cur) == SpecStep::Halt);
                        assert(reaches_outcome(
                            prog,
                            pairs,
                            s0,
                            self.data@,
                            self.data_pointer as int,
                            self.inst_pointer as int,
                            outputs@,
                            Outcome::Halted,
                        ));
                    }
                    return RunResult { outputs, outcome: Outcome::Halted };
                },
                StepEvent::Advanced => {
                    proof {
                        let nxt = self.abs_state(input@.skip(in_idx as int), outputs@);
                        assert(spec_step(prog, pairs, cur) == SpecStep::Next(nxt));
                        lemma_steps_extend(prog, pairs, s0, count as nat, cur, nxt);
                        assert(steps(prog, pairs, s0, (count + 1) as nat) == Some(nxt));
                    }
                },
                StepEvent::Output(v) => {
                    let ghost out0 = outputs@;
                    outputs.push(v);
                    proof {
                        let nxt = self.abs_state(input@.skip(in_idx as int), outputs@);
                        assert(spec_step(prog, pairs, cur) == SpecStep::Next(
                            self.abs_state(input@.skip(in_idx as int), out0.push(v)),
                        ));
                        assert(outputs@ == out0.push(v));
                        lemma_steps_extend(prog, pairs, s0, count as nat, cur, nxt);
                        assert(steps(prog, pairs, s0, (count + 1) as nat) == Some(nxt));
                    }
                },
                StepEvent::NeedsInput => {
                    if in_idx < input.len() {
                        let c = input[in_idx];
                        proof {
                            vstd::std_specs::vec::axiom_spec_len(&self.op_list);
                        }
                        self.input_dp(c);
                        in_idx = in_idx + 1;
                        proof {
                            let rem0 = input@.skip(in_idx - 1);
                            assert(rem0[0] == input@[in_idx - 1]);
                            assert(rem0.skip(1) =~= input@.skip(in_idx as int));
                            let nxt = self.abs_state(input@.skip(in_idx as int), outputs@);
                            assert(spec_step(prog, pairs, cur) == SpecStep::Next(
                                ExecState {
                                    tape: cur.tape.update(cur.dp, rem0[0]),
                                    input: rem0.skip(1),
                                    ip: cur.ip + 1,
                                    ..cur
                                },
                            ));
                            assert(ExecState {
                                tape: cur.tape.update(cur.dp, rem0[0]),
                                input: rem0.skip(1),
                                ip: cur.ip + 1,
                                ..cur
                            } =~= nxt);
                            lemma_steps_extend(prog, pairs, s0, count as nat, cur, nxt);
                            assert(steps(prog, pairs, s0, (count + 1) as nat) == Some(nxt));
                        }
                    } else {
                        proof {
                            assert(input@.skip(in_idx as int).len() == 0);
                            assert(spec_step(prog, pairs, cur) == SpecStep::FatalInput);
                            assert(reaches_outcome(
                                prog,
                                pairs,
                                s0,
                                self.data@,
                                self.data_pointer as int,
                                self.inst_pointer as int,
                                outputs@,
                                Outcome::OutOfInput,
                            ));
                        }
                        return RunResult { outputs, outcome: Outcome::OutOfInput };
                    }
                },
                StepEvent::MissingPair => {
                    proof {
                        assert(spec_step(prog, pairs, cur) == SpecStep::MissingPair);
                        assert(reaches_outcome(
                            prog,
                            pairs,
                            s0,
                            self.data@,
                            self.data_pointer as int,
                            self.inst_pointer as int,
                            outputs@,
                            Outcome::MissingPair,
                        ));
                    }
                    return RunResult { outputs, outcome: Outcome::MissingPair };
                },
                StepEvent::TapeOverflow => {
                    proof {
                        assert(spec_step(prog, pairs, cur) == SpecStep::FatalRight);
                        assert(reaches_outcome(
                            prog,
                            pairs,
                            s0,
                            self.data@,
                            self.data_pointer as int,
                            self.inst_pointer as int,
                            outputs@,
                            Outcome::TapeOverflow,
                        ));
                    }
                    return RunResult { outputs, outcome: Outcome::TapeOverflow };
                },
                StepEvent::TapeUnderflow => {
                    proof {
                        assert(spec_step(prog, pairs, cur) == SpecStep::FatalLeft);
                        assert(reaches_outcome(
                            prog,
                            pairs,
                            s0,
                            self.data@,
                            self.data_pointer as int,
                            self.inst_pointer as int,
                            outputs@,
                            Outcome::TapeUnderflow,
                        ));
                    }
                    return RunResult { outputs, outcome: Outcome::TapeUnderflow };
                },
            }
            count = count + 1;
        }
        if self.inst_pointer >= self.op_list.len() {
            proof {
                let cur = self.abs_state(input@.skip(in_idx as int), outputs@);
                assert(spec_step(prog, pairs, cur) == SpecStep::Halt);
                assert(reaches_outcome(
                    prog,
                    pairs,
                    s0,
                    self.data@,
                    self.data_pointer as int,
                    self.inst_pointer as int,
                    outputs@,
                    Outcome::Halted,
                ));
            }
            return RunResult { outputs, outcome: Outcome::Halted };
        }
        proof {
            let cur = self.abs_state(input@.skip(in_idx as int), outputs@);
            let st = spec_step(prog, pairs, cur);
            assert(steps(prog, pairs, s0, max_steps as nat) == Some(cur));
            assert(run_post(
                prog,
                pairs,
                s0,
                self.data@,
                self.data_pointer as int,
                self.inst_pointer as int,
                outputs@,
                Outcome::StepLimit,
                max_steps as nat,
            ));
        }
        RunResult { outputs, outcome: Outcome::StepLimit }
    }

    /// Compile and run one unit of source text: lex it, validate the
    /// jumps, and on success execute the fresh instruction sequence
    /// against the persisting tape, with `input` serving the input
    /// instructions and at most `max_steps` instructions executing. On
    /// a validation failure nothing runs, nothing is emitted, and the
    /// tape and data cursor are untouched.
    pub fn compile(&mut self, code: &[u8], input: &[i8], max_steps: usize) -> (r: RunResult)
        requires
            old(self).wf(),
        ensures
            final(self).wf(),
            final(self).op_list@ == spec_lex(code@),
            final(self).data@.len() == old(self).data@.len(),
            ({
                let prog = spec_lex(code@);
                match spec_validate(prog) {
                    Option::None => {
                        &&& r.outcome == Outcome::MismatchedJumps
                        &&& r.outputs@ == Seq::<i8>::empty()
                        &&& final(self).data == old(self).data
                        &&& final(self).data_pointer == old(self).data_pointer
                    },
                    Option::Some(ps) => {
                        &&& final(self).jump_positions@ == ps
                        &&& r.outcome != Outcome::MismatchedJumps
                        &&& run_post(
                            prog,
                            ps,
                            init_state(old(self).data@, old(self).data_pointer as int, input@),
                            final(self).data@,
                            final(self).data_pointer as int,
                            final(self).inst_pointer as int,
                            r.outputs@,
                            r.outcome,
                            max_steps as nat,
                        )
                    },
                }
            }),
    {
        if !self.load(code) {
            return RunResult { outputs: Vec::new(), outcome: Outcome::MismatchedJumps };
        }
        self.run(input, max_steps)
    }
}

} // verus!
