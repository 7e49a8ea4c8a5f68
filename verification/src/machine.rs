//! A reference executor for finished programs: the in-process execution
//! capability of the backend interface, stated and proved over an explicit
//! small-step semantics.
//!
//! The tape is a zero-initialized byte buffer; cell arithmetic wraps modulo
//! 256; reading past the end of the input stores 255, the byte the host's
//! end-of-stream marker truncates to.  Where lowered machine code would
//! leave a pointer excursion outside the tape undefined, this executor
//! stops and reports it.

use vstd::prelude::*;
use vstd::arithmetic::div_mod::{lemma_add_mod_noop_right, lemma_sub_mod_noop, lemma_small_mod,
    lemma_mod_add_multiples_vanish};
use crate::codegen::{Op, Term, TermModel, Block, BlockModel, Program, prog_wf, incr_delta,
    decr_delta};

verus! {

/// The state of one run: the position in the graph, the tape and pointer,
/// and the I/O performed so far.
#[verifier::ext_equal]
pub ghost struct MachState {
    pub block: int,
    pub pc: int,
    pub ptr: int,
    pub tape: Seq<u8>,
    pub input: Seq<u8>,
    pub read: int,
    pub output: Seq<u8>,
}

/// The result of one small step.
pub ghost enum StepModel {
    Next(MachState),
    Done(MachState),
    Fault,
}

/// The result of a fuel-bounded run.
pub ghost enum RunModel {
    Finished(MachState),
    OutOfFuel,
    Fault,
}

/// Adding `delta` to a cell, modulo 256.
pub open spec fn cell_add_spec(cell: u8, delta: u8) -> u8 {
    ((cell + delta) % 256) as u8
}

/// Is the pointer on a cell of the tape?
pub open spec fn in_tape(st: MachState) -> bool {
    0 <= st.ptr < st.tape.len()
}

/// One small step of a program.  The pointer may rest one past the end of
/// the tape, but any access there, and any move beyond that, faults.
pub open spec fn spec_step(blocks: Seq<BlockModel>, st: MachState) -> StepModel {
    let b = blocks[st.block];
    if st.pc < b.ops.len() {
        match b.ops[st.pc] {
            Op::AddCell { delta } => if in_tape(st) {
                StepModel::Next(
                    MachState {
                        pc: st.pc + 1,
                        tape: st.tape.update(st.ptr, cell_add_spec(st.tape[st.ptr], delta)),
                        ..st
                    },
                )
            } else {
                StepModel::Fault
            },
            Op::MovePtr { delta } => if 0 <= st.ptr + delta <= st.tape.len() {
                StepModel::Next(MachState { pc: st.pc + 1, ptr: st.ptr + delta, ..st })
            } else {
                StepModel::Fault
            },
            Op::Input => if in_tape(st) {
                if st.read < st.input.len() {
                    StepModel::Next(
                        MachState {
                            pc: st.pc + 1,
                            tape: st.tape.update(st.ptr, st.input[st.read]),
                            read: st.read + 1,
                            ..st
                        },
                    )
                } else {
                    StepModel::Next(
                        MachState { pc: st.pc + 1, tape: st.tape.update(st.ptr, 255u8), ..st },
                    )
                }
            } else {
                StepModel::Fault
            },
            Op::Output => if in_tape(st) {
                StepModel::Next(
                    MachState { pc: st.pc + 1, output: st.output.push(st.tape[st.ptr]), ..st },
                )
            } else {
                StepModel::Fault
            },
        }
    } else {
        match b.term {
            Option::Some(TermModel::Jump { target }) => StepModel::Next(
                MachState { block: target, pc: 0, ..st },
            ),
            Option::Some(TermModel::Branch { on_zero, on_nonzero }) => if in_tape(st) {
                StepModel::Next(
                    MachState {
                        block: if st.tape[st.ptr] == 0 {
                            on_zero
                        } else {
                            on_nonzero
                        },
                        pc: 0,
                        ..st
                    },
                )
            } else {
                StepModel::Fault
            },
            Option::Some(TermModel::Return) => StepModel::Done(st),
            Option::None => StepModel::Fault,
        }
    }
}

/// Run for at most `fuel` small steps.
pub open spec fn spec_run(blocks: Seq<BlockModel>, st: MachState, fuel: nat) -> RunModel
    decreases fuel,
{
    if fuel == 0 {
        RunModel::OutOfFuel
    } else {
        match spec_step(blocks, st) {
            StepModel::Next(s2) => spec_run(blocks, s2, (fuel - 1) as nat),
            StepModel::Done(s2) => RunModel::Finished(s2),
            StepModel::Fault => RunModel::Fault,
        }
    }
}

/// The state a run starts from: entry block, pointer at the origin of a
/// zero-initialized tape, nothing read or written yet.
pub open spec fn init_mach(tape_len: nat, input: Seq<u8>) -> MachState {
    MachState {
        block: 0,
        pc: 0,
        ptr: 0,
        tape: Seq::new(tape_len, |i: int| 0u8),
        input,
        read: 0,
        output: Seq::empty(),
    }
}

/// What a finished or stopped run hands back.
pub enum RunOutcome {
    /// The program returned; the final tape and the bytes written.
    Finished { tape: Vec<u8>, output: Vec<u8> },
    /// The step bound ran out first.
    OutOfFuel,
    /// The program touched the tape outside its extent, which lowered
    /// machine code would leave undefined.
    MemoryFault,
}

/// Add `delta` to a cell, wrapping modulo 256.
pub fn cell_add(cell: u8, delta: u8) -> (r: u8)
    ensures
        r == cell_add_spec(cell, delta),
        r as int == (cell as int + delta as int) % 256,
{
    (((cell as u16) + (delta as u16)) % 256) as u8
}

/// Cell arithmetic is modulo 256 in both directions: the increment carried
/// by a run of `n` plus characters adds `n` modulo 256, and the increment
/// carried by a run of `n` minus characters subtracts `n` modulo 256.
pub proof fn lemma_cell_arithmetic_mod_256(cell: u8, n: int)
    requires
        n >= 0,
    ensures
        cell_add_spec(cell, incr_delta(n)) as int == (cell + n) % 256,
        cell_add_spec(cell, decr_delta(n)) as int == (cell - n) % 256,
{
    let q = n % 256;
    assert(0 <= q < 256);
    lemma_small_mod(cell as nat, 256);
    // increment: (cell + n % 256) % 256 == (cell + n) % 256
    lemma_add_mod_noop_right(cell as int, n, 256);
    // decrement: (cell + (256 - q) % 256) % 256 == (cell - n) % 256
    lemma_sub_mod_noop(cell as int, n, 256);
    if q == 0 {
        assert(decr_delta(n) == 0);
        assert((cell - n) % 256 == (cell - q) % 256);
    } else {
        assert(decr_delta(n) as int == 256 - q);
        lemma_mod_add_multiples_vanish(cell - q, 256);
        assert((256 + (cell - q)) % 256 == (cell - q) % 256);
        assert(cell + 256 - q == 256 + (cell - q));
    }
}

/// Execute a finished program on a fresh tape of `tape_len` zero bytes,
/// feeding it `input`, for at most `fuel` steps.  The result is exactly
/// what the small-step semantics prescribes.
pub fn run_program(prog: &Program, tape_len: usize, input: &Vec<u8>, fuel: u64) -> (r: RunOutcome)
    requires
        prog_wf(prog@),
    ensures
        (match spec_run(prog@, init_mach(tape_len as nat, input@), fuel as nat) {
            RunModel::Finished(s) => r matches RunOutcome::Finished { tape, output } && tape@
                == s.tape && output@ == s.output,
            RunModel::OutOfFuel => r matches RunOutcome::OutOfFuel,
            RunModel::Fault => r matches RunOutcome::MemoryFault,
        }),
{
    let ghost blocks = prog@;
    let ghost st0 = init_mach(tape_len as nat, input@);
    let mut tape: Vec<u8> = Vec::new();
    let mut i: usize = 0;
    while i < tape_len
        invariant
            i <= tape_len,
            tape@.len() == i,
            forall|j: int| 0 <= j < i ==> tape@[j] == 0u8,
        decreases tape_len - i,
    {
        tape.push(0);
        i += 1;
    }
    proof {
        assert(tape@ =~= st0.tape);
    }
    let mut block: usize = 0;
    let mut pc: usize = 0;
    let mut ptr: usize = 0;
    let mut read: usize = 0;
    let mut output: Vec<u8> = Vec::new();
    let mut fuel_left: u64 = fuel;
    while fuel_left > 0
        invariant
            prog_wf(prog@),
            blocks == prog@,
            st0 == init_mach(tape_len as nat, input@),
            block < prog.blocks@.len(),
            pc <= blocks[block as int].ops.len(),
            ptr <= tape_len,
            tape@.len() == tape_len,
            read <= input@.len(),
            fuel_left <= fuel,
            spec_run(
                blocks,
                MachState {
                    block: block as int,
                    pc: pc as int,
                    ptr: ptr as int,
                    tape: tape@,
                    input: input@,
                    read: read as int,
                    output: output@,
                },
                fuel_left as nat,
            ) == spec_run(blocks, st0, fuel as nat),
        decreases fuel_left,
    {
        let ghost cur = MachState {
            block: block as int,
            pc: pc as int,
            ptr: ptr as int,
            tape: tape@,
            input: input@,
            read: read as int,
            output: output@,
        };
        proof {
            assert(blocks[block as int] == prog.blocks@.map_values(|b: Block| b@)[block as int]);
        }
        fuel_left = fuel_left - 1;
        let ops_len = prog.blocks[block].ops.len();
        proof {
            assert(prog.blocks@[block as int]@.ops == blocks[block as int].ops);
        }
        if pc < ops_len {
            let op = prog.blocks[block].ops[pc];
            match op {
                Op::AddCell { delta } => {
                    if ptr < tape_len {
                        let v = tape[ptr];
                        let nv = cell_add(v, delta);
                        tape.set(ptr, nv);
                        pc = pc + 1;
                    } else {
                        proof {
                            assert(spec_step(blocks, cur) is Fault);
                        }
                        return RunOutcome::MemoryFault;
                    }
                },
                Op::MovePtr { delta } => {
                    if delta >= 0 {
                        let d = delta as usize;
                        if d <= tape_len - ptr {
                            ptr = ptr + d;
                            pc = pc + 1;
                        } else {
                            proof {
                                assert(spec_step(blocks, cur) is Fault);
                            }
                            return RunOutcome::MemoryFault;
                        }
                    } else {
                        let m = -(delta as i128);
                        if m <= ptr as i128 {
                            ptr = ptr - (m as usize);
                            pc = pc + 1;
                        } else {
                            proof {
                                assert(spec_step(blocks, cur) is Fault);
                            }
                            return RunOutcome::MemoryFault;
                        }
                    }
                },
                Op::Input => {
                    if ptr < tape_len {
                        let v: u8 = if read < input.len() {
                            let x = input[read];
                            read = read + 1;
                            x
                        } else {
                            255
                        };
                        tape.set(ptr, v);
                        pc = pc + 1;
                    } else {
                        proof {
                            assert(spec_step(blocks, cur) is Fault);
                        }
                        return RunOutcome::MemoryFault;
                    }
                },
                Op::Output => {
                    if ptr < tape_len {
                        let v = tape[ptr];
                        output.push(v);
                        pc = pc + 1;
                    } else {
                        proof {
                            assert(spec_step(blocks, cur) is Fault);
                        }
                        return RunOutcome::MemoryFault;
                    }
                },
            }
        } else {
            let t = prog.blocks[block].term;
            match t {
                Some(Term::Jump { target }) => {
                    block = target;
                    pc = 0;
                },
                Some(Term::Branch { on_zero, on_nonzero }) => {
                    if ptr < tape_len {
                        if tape[ptr] == 0 {
                            block = on_zero;
                        } else {
                            block = on_nonzero;
                        }
                        pc = 0;
                    } else {
                        proof {
                            assert(spec_step(blocks, cur) is Fault);
                        }
                        return RunOutcome::MemoryFault;
                    }
                },
                Some(Term::Return) => {
                    proof {
                        assert(spec_step(blocks, cur) == StepModel::Done(cur));
                    }
                    return RunOutcome::Finished { tape, output };
                },
                None => {
                    proof {
                        assert(spec_step(blocks, cur) is Fault);
                    }
                    return RunOutcome::MemoryFault;
                },
            }
        }
        proof {
            let next = MachState {
                block: block as int,
                pc: pc as int,
                ptr: ptr as int,
                tape: tape@,
                input: input@,
                read: read as int,
                output: output@,
            };
            assert(spec_step(blocks, cur) == StepModel::Next(next)) by {
                assert(next =~~= (match spec_step(blocks, cur) {
                    StepModel::Next(s2) => s2,
                    _ => next,
                }));
            }
        }
    }
    RunOutcome::OutOfFuel
}

} // verus!
