//! Stack-discipline construction of structured control flow, and the code
//! generator that walks a compacted instruction list.
//!
//! The generator lowers instructions into a backend-agnostic control-flow
//! graph: basic blocks of tape operations linked by jumps, conditional
//! branches and a final return.  Each loop bracket pair becomes a pre-tested
//! loop over a fresh start/body/exit block triple, tracked by a LIFO stack;
//! an unmatched closing bracket is caught the instant it is seen, an
//! unmatched opening bracket at the end of generation.  A separate backend
//! (outside this crate) lowers the finished graph to machine code.

use vstd::prelude::*;
use vstd::pervasive::VecAdditionalExecFns;
use crate::compact::{Instruction, compact, parse_brainfuck, lemma_compact_valid, valid_insts,
    valid_entry};

verus! {

/// One straight-line backend operation inside a basic block.
#[allow(inconsistent_fields)]
#[derive(Clone, Copy, PartialEq, Eq, Structural, Debug)]
pub enum Op {
    /// Add `delta` to the current cell, modulo 256.
    AddCell { delta: u8 },
    /// Move the tape pointer by `delta` cells.
    MovePtr { delta: isize },
    /// Read one byte from the host and store it into the current cell.
    Input,
    /// Write the current cell's byte to the host.
    Output,
}

/// The terminator of a basic block.
#[derive(Clone, Copy, PartialEq, Eq, Structural, Debug)]
pub enum Term {
    /// Unconditional jump.
    Jump { target: usize },
    /// Branch on the current cell: to `on_zero` when it is zero, else to
    /// `on_nonzero`.
    Branch { on_zero: usize, on_nonzero: usize },
    /// Leave the generated function.
    Return,
}

/// A basic block: straight-line operations followed by a terminator.
/// The terminator is absent only while generation still inserts here.
pub struct Block {
    pub ops: Vec<Op>,
    pub term: Option<Term>,
}

/// The mathematical image of a terminator, over unbounded indices.
#[verifier::ext_equal]
pub ghost enum TermModel {
    Jump { target: int },
    Branch { on_zero: int, on_nonzero: int },
    Return,
}

/// The mathematical image of a basic block.
#[verifier::ext_equal]
pub ghost struct BlockModel {
    pub ops: Seq<Op>,
    pub term: Option<TermModel>,
}

pub open spec fn term_model(t: Term) -> TermModel {
    match t {
        Term::Jump { target } => TermModel::Jump { target: target as int },
        Term::Branch { on_zero, on_nonzero } => TermModel::Branch {
            on_zero: on_zero as int,
            on_nonzero: on_nonzero as int,
        },
        Term::Return => TermModel::Return,
    }
}

impl View for Block {
    type V = BlockModel;

    open spec fn view(&self) -> BlockModel {
        BlockModel {
            ops: self.ops@,
            term: match self.term {
                Option::Some(t) => Option::Some(term_model(t)),
                Option::None => Option::None,
            },
        }
    }
}

/// One open loop: the three blocks created for its bracket pair.
#[derive(Clone, Copy, Debug)]
pub struct Loop {
    pub start: usize,
    pub body: usize,
    pub exit: usize,
}

/// The mathematical image of an open loop.
#[verifier::ext_equal]
pub ghost struct LoopModel {
    pub start: int,
    pub body: int,
    pub exit: int,
}

impl View for Loop {
    type V = LoopModel;

    open spec fn view(&self) -> LoopModel {
        LoopModel {
            start: self.start as int,
            body: self.body as int,
            exit: self.exit as int,
        }
    }
}

/// Which execution-mode wiring the generated program is meant for.
#[derive(Clone, Copy, PartialEq, Eq, Structural, Debug)]
pub enum Mode {
    /// Interactive mode: the entry function takes a caller-allocated tape.
    Jit,
    /// Persisted mode: the tape of the given length lives in the generated
    /// function's own frame.
    Comp { tape_len: usize },
}

/// The two structural source errors: a closing bracket with no loop open,
/// and a loop still open at the end of generation.
#[derive(Clone, Copy, PartialEq, Eq, Structural, Debug)]
pub enum GenError {
    UnmatchedClosingBracket,
    UnmatchedOpeningBracket,
}

/// The whole generation state: the graph built so far, the stack of open
/// loops, and the block that currently receives instructions.
#[verifier::ext_equal]
pub ghost struct GenState {
    pub blocks: Seq<BlockModel>,
    pub stack: Seq<LoopModel>,
    pub cursor: int,
}

pub open spec fn term_targets_ok(t: TermModel, n: int) -> bool {
    match t {
        TermModel::Jump { target } => 0 <= target < n,
        TermModel::Branch { on_zero, on_nonzero } => 0 <= on_zero < n && 0 <= on_nonzero < n,
        TermModel::Return => true,
    }
}

/// Is `b` the exit block of some loop still open?
pub open spec fn open_exit(st: GenState, b: int) -> bool {
    exists|i: int| 0 <= i < st.stack.len() && (#[trigger] st.stack[i]).exit == b
}

/// Well-formedness of a generation state: the cursor points at an open
/// block, every terminator stays inside the graph, the blocks without a
/// terminator are exactly the cursor and the exits of the open loops, those
/// exits are distinct, and no operation has been placed in an exit yet.
pub open spec fn wf_state(st: GenState) -> bool {
    let n = st.blocks.len() as int;
    &&& 0 <= st.cursor < n
    &&& forall|i: int| 0 <= i < st.stack.len() ==> {
        let l = #[trigger] st.stack[i];
        0 <= l.start < n && 0 <= l.body < n && 0 <= l.exit < n
    }
    &&& forall|b: int| 0 <= b < n ==> match (#[trigger] st.blocks[b]).term {
        Option::Some(t) => term_targets_ok(t, n),
        Option::None => true,
    }
    &&& forall|b: int| 0 <= b < n ==> ((#[trigger] st.blocks[b]).term is None <==> (b == st.cursor
        || open_exit(st, b)))
    &&& forall|i: int| 0 <= i < st.stack.len() ==> (#[trigger] st.stack[i]).exit != st.cursor
    &&& forall|i: int, j: int|
        0 <= i < st.stack.len() && 0 <= j < st.stack.len() && i != j ==> (#[trigger] st.stack[i]).exit
            != (#[trigger] st.stack[j]).exit
    &&& forall|i: int| 0 <= i < st.stack.len() ==> st.blocks[(#[trigger] st.stack[i]).exit].ops
        == Seq::<Op>::empty()
}

/// Append one operation to the cursor block.
pub open spec fn push_op(st: GenState, op: Op) -> GenState {
    GenState {
        blocks: st.blocks.update(
            st.cursor,
            BlockModel { ops: st.blocks[st.cursor].ops.push(op), term: st.blocks[st.cursor].term },
        ),
        stack: st.stack,
        cursor: st.cursor,
    }
}

/// Give block `b` its terminator.
pub open spec fn set_term(st: GenState, b: int, t: TermModel) -> GenState {
    GenState {
        blocks: st.blocks.update(b, BlockModel { ops: st.blocks[b].ops, term: Option::Some(t) }),
        stack: st.stack,
        cursor: st.cursor,
    }
}

pub open spec fn empty_block() -> BlockModel {
    BlockModel { ops: Seq::empty(), term: Option::None }
}

/// Open a loop: create the start/body/exit triple, jump into start, branch
/// there on the current cell (zero leaves, nonzero enters the body), push
/// the triple, and continue generating in the body.
pub open spec fn start_loop_state(st: GenState) -> GenState {
    let n = st.blocks.len() as int;
    let closed = set_term(st, st.cursor, TermModel::Jump { target: n });
    GenState {
        blocks: closed.blocks.push(
            BlockModel {
                ops: Seq::empty(),
                term: Option::Some(TermModel::Branch { on_zero: n + 2, on_nonzero: n + 1 }),
            },
        ).push(empty_block()).push(empty_block()),
        stack: st.stack.push(LoopModel { start: n, body: n + 1, exit: n + 2 }),
        cursor: n + 1,
    }
}

/// Close the innermost loop: jump back to its start block, which re-runs
/// the zero test, and continue generating in its exit block.
pub open spec fn end_loop_state(st: GenState) -> GenState {
    let l = st.stack.last();
    let closed = set_term(st, st.cursor, TermModel::Jump { target: l.start });
    GenState { blocks: closed.blocks, stack: st.stack.drop_last(), cursor: l.exit }
}

/// The cell increment carried by a run of `n` plus characters.
pub open spec fn incr_delta(n: int) -> u8 {
    (n % 256) as u8
}

/// The cell increment carried by a run of `n` minus characters: the
/// additive inverse of `n` modulo 256.
pub open spec fn decr_delta(n: int) -> u8 {
    ((256 - (n % 256)) % 256) as u8
}

/// What one compacted instruction does to the generation state.
pub open spec fn gen_step(st: GenState, inst: (char, int)) -> Result<GenState, GenError> {
    if inst.0 == '+' {
        Result::Ok(push_op(st, Op::AddCell { delta: incr_delta(inst.1) }))
    } else if inst.0 == '-' {
        Result::Ok(push_op(st, Op::AddCell { delta: decr_delta(inst.1) }))
    } else if inst.0 == '>' {
        Result::Ok(push_op(st, Op::MovePtr { delta: inst.1 as isize }))
    } else if inst.0 == '<' {
        Result::Ok(push_op(st, Op::MovePtr { delta: (-inst.1) as isize }))
    } else if inst.0 == ',' {
        Result::Ok(push_op(st, Op::Input))
    } else if inst.0 == '.' {
        Result::Ok(push_op(st, Op::Output))
    } else if inst.0 == '[' {
        Result::Ok(start_loop_state(st))
    } else if inst.0 == ']' {
        if st.stack.len() == 0 {
            Result::Err(GenError::UnmatchedClosingBracket)
        } else {
            Result::Ok(end_loop_state(st))
        }
    } else {
        Result::Ok(st)
    }
}

/// Fold `gen_step` over an instruction sequence, stopping at the first
/// error.
pub open spec fn gen_fold(st: GenState, insts: Seq<(char, int)>) -> Result<GenState, GenError>
    decreases insts.len(),
{
    if insts.len() == 0 {
        Result::Ok(st)
    } else {
        match gen_fold(st, insts.drop_last()) {
            Result::Ok(m) => gen_step(m, insts.last()),
            Result::Err(e) => Result::Err(e),
        }
    }
}

/// Generation from a given state: fold the instructions, then demand that
/// every loop has been closed.
pub open spec fn gen_run_from(st: GenState, insts: Seq<(char, int)>) -> Result<
    GenState,
    GenError,
> {
    match gen_fold(st, insts) {
        Result::Ok(m) => if m.stack.len() == 0 {
            Result::Ok(m)
        } else {
            Result::Err(GenError::UnmatchedOpeningBracket)
        },
        Result::Err(e) => Result::Err(e),
    }
}

/// The state a fresh generator starts from: one open entry block.
pub open spec fn init_state() -> GenState {
    GenState { blocks: Seq::empty().push(empty_block()), stack: Seq::empty(), cursor: 0 }
}

/// Generation of a whole compacted program from scratch.
pub open spec fn gen_run(insts: Seq<(char, int)>) -> Result<GenState, GenError> {
    gen_run_from(init_state(), insts)
}

/// The finished graph: the cursor block is closed with a return.
pub open spec fn finalize_state(st: GenState) -> Seq<BlockModel> {
    set_term(st, st.cursor, TermModel::Return).blocks
}

/// A finished program: nonempty, every block terminated, every target
/// inside the graph.
pub open spec fn prog_wf(blocks: Seq<BlockModel>) -> bool {
    &&& blocks.len() > 0
    &&& forall|b: int| 0 <= b < blocks.len() ==> match (#[trigger] blocks[b]).term {
        Option::Some(t) => term_targets_ok(t, blocks.len() as int),
        Option::None => false,
    }
}

pub proof fn lemma_init_wf()
    ensures
        wf_state(init_state()),
{
}

pub proof fn lemma_push_op_wf(st: GenState, op: Op)
    requires
        wf_state(st),
    ensures
        wf_state(push_op(st, op)),
{
    let st2 = push_op(st, op);
    assert forall|b: int| 0 <= b < st2.blocks.len() implies ((#[trigger] st2.blocks[b]).term
        is None <==> (b == st2.cursor || open_exit(st2, b))) by {
        assert(open_exit(st2, b) == open_exit(st, b));
    }
    assert forall|i: int| 0 <= i < st2.stack.len() implies st2.blocks[(
    #[trigger] st2.stack[i]).exit].ops == Seq::<Op>::empty() by {
        assert(st2.stack[i].exit != st.cursor);
    }
}

pub proof fn lemma_start_loop_wf(st: GenState)
    requires
        wf_state(st),
    ensures
        wf_state(start_loop_state(st)),
{
    let st2 = start_loop_state(st);
    let n = st.blocks.len() as int;
    assert(st2.blocks.len() == n + 3);
    assert(st2.stack.len() == st.stack.len() + 1);
    assert forall|b: int| 0 <= b < st2.blocks.len() implies ((#[trigger] st2.blocks[b]).term
        is None <==> (b == st2.cursor || open_exit(st2, b))) by {
        if b < n {
            assert(open_exit(st2, b) == open_exit(st, b)) by {
                if open_exit(st, b) {
                    let i = choose|i: int|
                        0 <= i < st.stack.len() && (#[trigger] st.stack[i]).exit == b;
                    assert(st2.stack[i].exit == b);
                }
                if open_exit(st2, b) {
                    let i = choose|i: int|
                        0 <= i < st2.stack.len() && (#[trigger] st2.stack[i]).exit == b;
                    assert(i < st.stack.len());
                }
            }
        } else if b == n + 2 {
            assert(st2.stack[st2.stack.len() - 1].exit == b);
        } else {
            assert(!open_exit(st2, b)) by {
                if open_exit(st2, b) {
                    let i = choose|i: int|
                        0 <= i < st2.stack.len() && (#[trigger] st2.stack[i]).exit == b;
                }
            }
        }
    }
    assert forall|i: int| 0 <= i < st2.stack.len() implies st2.blocks[(
    #[trigger] st2.stack[i]).exit].ops == Seq::<Op>::empty() by {
        if i < st.stack.len() {
            assert(st.stack[i].exit != st.cursor);
            assert(st2.blocks[st2.stack[i].exit] == st.blocks[st.stack[i].exit]);
        }
    }
}

pub proof fn lemma_end_loop_wf(st: GenState)
    requires
        wf_state(st),
        st.stack.len() > 0,
    ensures
        wf_state(end_loop_state(st)),
{
    let st2 = end_loop_state(st);
    let n = st.blocks.len() as int;
    let l = st.stack.last();
    assert(st2.blocks.len() == n);
    assert forall|b: int| 0 <= b < st2.blocks.len() implies ((#[trigger] st2.blocks[b]).term
        is None <==> (b == st2.cursor || open_exit(st2, b))) by {
        if open_exit(st2, b) {
            let i = choose|i: int| 0 <= i < st2.stack.len() && (#[trigger] st2.stack[i]).exit == b;
            assert(st.stack[i].exit == b);
            assert(open_exit(st, b));
            assert(b != st.cursor);
            assert(b != l.exit);
        }
        if b == st2.cursor {
            assert(st.stack[st.stack.len() - 1].exit == b);
            assert(open_exit(st, b));
            assert(b != st.cursor);
        }
        if st2.blocks[b].term is None && b != st2.cursor {
            assert(st.blocks[b].term is None);
            assert(b != st.cursor);
            assert(open_exit(st, b));
            let i = choose|i: int| 0 <= i < st.stack.len() && (#[trigger] st.stack[i]).exit == b;
            assert(i < st.stack.len() - 1);
            assert(st2.stack[i].exit == b);
        }
    }
    assert forall|i: int| 0 <= i < st2.stack.len() implies st2.blocks[(
    #[trigger] st2.stack[i]).exit].ops == Seq::<Op>::empty() by {
        assert(st.stack[i].exit != st.cursor);
    }
}

/// Once the fold has failed, processing more instructions changes nothing.
pub proof fn lemma_gen_fold_err_persists(st: GenState, insts: Seq<(char, int)>, k: int)
    requires
        0 <= k <= insts.len(),
        gen_fold(st, insts.take(k)) is Err,
    ensures
        gen_fold(st, insts) == gen_fold(st, insts.take(k)),
    decreases insts.len() - k,
{
    if k < insts.len() {
        assert(insts.take(k + 1).drop_last() =~= insts.take(k));
        assert(gen_fold(st, insts.take(k + 1)) == gen_fold(st, insts.take(k)));
        lemma_gen_fold_err_persists(st, insts, k + 1);
    } else {
        assert(insts.take(k) =~= insts);
    }
}

/// The generator under construction.  `blocks` holds the graph built so
/// far; the block the cursor points at keeps its pending operations in
/// `cur_ops` until generation moves on and writes it back.
pub struct CodeGen {
    pub mode: Mode,
    pub blocks: Vec<Block>,
    pub cur_ops: Vec<Op>,
    pub jump_stack: Vec<Loop>,
    pub cursor: usize,
}

impl View for CodeGen {
    type V = GenState;

    open spec fn view(&self) -> GenState {
        GenState {
            blocks: self.blocks@.map_values(|b: Block| b@).update(
                self.cursor as int,
                BlockModel { ops: self.cur_ops@, term: Option::None },
            ),
            stack: self.jump_stack@.map_values(|l: Loop| l@),
            cursor: self.cursor as int,
        }
    }
}

impl CodeGen {
    pub open spec fn wf(self) -> bool {
        &&& wf_state(self@)
        &&& self.cursor < self.blocks@.len()
    }

    /// A fresh generator for interactive mode: the entry function will take
    /// the caller's tape as its parameter.
    pub fn new_jit() -> (g: CodeGen)
        ensures
            g.wf(),
            g@ == init_state(),
            g.mode == Mode::Jit,
    {
        let mut blocks: Vec<Block> = Vec::new();
        blocks.push(Block { ops: Vec::new(), term: None });
        let g = CodeGen {
            mode: Mode::Jit,
            blocks,
            cur_ops: Vec::new(),
            jump_stack: Vec::new(),
            cursor: 0,
        };
        proof {
            lemma_init_wf();
            assert(g@.blocks =~~= init_state().blocks);
            assert(g@.stack =~= init_state().stack);
            assert(g@ =~~= init_state());
        }
        g
    }

    /// A fresh generator for persisted mode: the generated function will
    /// allocate a zero-initialized tape of `tape_length` bytes in its own
    /// frame and return a zero status.
    pub fn new_comp(tape_length: usize) -> (g: CodeGen)
        ensures
            g.wf(),
            g@ == init_state(),
            g.mode == (Mode::Comp { tape_len: tape_length }),
    {
        let mut blocks: Vec<Block> = Vec::new();
        blocks.push(Block { ops: Vec::new(), term: None });
        let g = CodeGen {
            mode: Mode::Comp { tape_len: tape_length },
            blocks,
            cur_ops: Vec::new(),
            jump_stack: Vec::new(),
            cursor: 0,
        };
        proof {
            lemma_init_wf();
            assert(g@.blocks =~~= init_state().blocks);
            assert(g@.stack =~= init_state().stack);
            assert(g@ =~~= init_state());
        }
        g
    }

    /// Append one operation to the block the cursor points at.
    fn emit_op(&mut self, op: Op)
        requires
            old(self).wf(),
        ensures
            final(self).wf(),
            final(self)@ == push_op(old(self)@, op),
            final(self).mode == old(self).mode,
    {
        self.cur_ops.push(op);
        proof {
            lemma_push_op_wf(old(self)@, op);
            assert(self@.blocks =~~= push_op(old(self)@, op).blocks);
            assert(self@ =~~= push_op(old(self)@, op));
        }
    }

    /// Move the tape pointer by `delta` cells.
    pub fn emit_incr_ptr(&mut self, delta: isize)
        requires
            old(self).wf(),
        ensures
            final(self).wf(),
            final(self)@ == push_op(old(self)@, Op::MovePtr { delta }),
            final(self).mode == old(self).mode,
    {
        self.emit_op(Op::MovePtr { delta });
    }

    /// Add `delta` to the current cell, modulo 256.
    pub fn emit_incr_cell(&mut self, delta: u8)
        requires
            old(self).wf(),
        ensures
            final(self).wf(),
            final(self)@ == push_op(old(self)@, Op::AddCell { delta }),
            final(self).mode == old(self).mode,
    {
        self.emit_op(Op::AddCell { delta });
    }

    /// Read one host byte into the current cell.
    pub fn emit_getchar(&mut self)
        requires
            old(self).wf(),
        ensures
            final(self).wf(),
            final(self)@ == push_op(old(self)@, Op::Input),
            final(self).mode == old(self).mode,
    {
        self.emit_op(Op::Input);
    }

    /// Write the current cell's byte to the host.
    pub fn emit_putchar(&mut self)
        requires
            old(self).wf(),
        ensures
            final(self).wf(),
            final(self)@ == push_op(old(self)@, Op::Output),
            final(self).mode == old(self).mode,
    {
        self.emit_op(Op::Output);
    }

    /// Open a loop, as `start_loop_state` describes.
    pub fn emit_start_loop(&mut self)
        requires
            old(self).wf(),
            old(self).blocks@.len() + 3 <= usize::MAX,
        ensures
            final(self).wf(),
            final(self)@ == start_loop_state(old(self)@),
            final(self).mode == old(self).mode,
            final(self).blocks@.len() == old(self).blocks@.len() + 3,
    {
        let n = self.blocks.len();
        let mut closed_ops: Vec<Op> = Vec::new();
        core::mem::swap(&mut closed_ops, &mut self.cur_ops);
        let c = self.cursor;
        self.blocks.set(c, Block { ops: closed_ops, term: Some(Term::Jump { target: n }) });
        self.blocks.push(
            Block {
                ops: Vec::new(),
                term: Some(Term::Branch { on_zero: n + 2, on_nonzero: n + 1 }),
            },
        );
        self.blocks.push(Block { ops: Vec::new(), term: None });
        self.blocks.push(Block { ops: Vec::new(), term: None });
        self.jump_stack.push(Loop { start: n, body: n + 1, exit: n + 2 });
        self.cursor = n + 1;
        proof {
            lemma_start_loop_wf(old(self)@);
            assert(self@.blocks =~~= start_loop_state(old(self)@).blocks);
            assert(self@.stack =~= start_loop_state(old(self)@).stack);
            assert(self@ =~~= start_loop_state(old(self)@));
        }
    }

    /// Close the innermost loop, as `end_loop_state` describes.
    pub fn emit_end_loop(&mut self)
        requires
            old(self).wf(),
            old(self).jump_stack@.len() > 0,
        ensures
            final(self).wf(),
            final(self)@ == end_loop_state(old(self)@),
            final(self).mode == old(self).mode,
            final(self).blocks@.len() == old(self).blocks@.len(),
    {
        let l = self.jump_stack.pop().unwrap();
        let mut closed_ops: Vec<Op> = Vec::new();
        core::mem::swap(&mut closed_ops, &mut self.cur_ops);
        let c = self.cursor;
        self.blocks.set(c, Block { ops: closed_ops, term: Some(Term::Jump { target: l.start }) });
        self.cursor = l.exit;
        proof {
            lemma_end_loop_wf(old(self)@);
            assert(old(self)@.stack.last() == l@);
            assert(old(self)@.blocks[l.exit as int].ops == Seq::<Op>::empty());
            assert(self@.blocks =~~= end_loop_state(old(self)@).blocks);
            assert(self@.stack =~= end_loop_state(old(self)@).stack);
            assert(self@ =~~= end_loop_state(old(self)@));
        }
    }

    /// Lower a whole source text: compact it, then fold every instruction
    /// into the graph.  Returns the structural error, if any, exactly as
    /// the generation fold over the compacted source produces it; on an
    /// error the partially built state is discarded by callers.
    pub fn bf_codegen(&mut self, code: &str) -> (r: Result<(), GenError>)
        requires
            old(self).wf(),
            code@.len() <= isize::MAX as int,
            old(self).blocks@.len() + 3 * code@.len() + 3 <= usize::MAX,
        ensures
            final(self).wf(),
            final(self).mode == old(self).mode,
            match gen_run_from(old(self)@, compact(code@)) {
                Result::Ok(st) => r is Ok && final(self)@ == st,
                Result::Err(e) => r == Result::<(), GenError>::Err(e),
            },
    {
        let insts = parse_brainfuck(code);
        proof {
            lemma_compact_valid(code@);
        }
        let ghost cs = compact(code@);
        let n = insts.len();
        let mut k: usize = 0;
        while k < n
        invariant
            insts@.map_values(|x: Instruction| x@) == cs,
            cs == compact(code@),
            valid_insts(cs),
            cs.len() == n,
            cs.len() <= code@.len(),
            old(self).blocks@.len() + 3 * code@.len() + 3 <= usize::MAX,
            k <= n,
            gen_fold(old(self)@, cs.take(k as int)) == Result::<GenState, GenError>::Ok(self@),
            self.wf(),
            self.mode == old(self).mode,
            self.blocks@.len() <= old(self).blocks@.len() + 3 * k,
        decreases n - k,
        {
            proof {
                assert(cs.take(k as int + 1).drop_last() =~= cs.take(k as int));
                assert(cs.take(k as int + 1).last() == cs[k as int]);
                assert(valid_entry(cs[k as int]));
                assert(insts@.map_values(|x: Instruction| x@)[k as int] == insts@[k as int]@);
            }
            let ghost mid = self@;
            let c = insts[k].inst;
            let cnt = insts[k].count;
            if c == '+' {
                let delta = (cnt % 256) as u8;
                self.emit_incr_cell(delta);
            } else if c == '-' {
                let m = cnt % 256;
                let delta = ((256 - m) % 256) as u8;
                self.emit_incr_cell(delta);
            } else if c == '>' {
                self.emit_incr_ptr(cnt);
            } else if c == '<' {
                self.emit_incr_ptr(-cnt);
            } else if c == ',' {
                self.emit_getchar();
            } else if c == '.' {
                self.emit_putchar();
            } else if c == '[' {
                self.emit_start_loop();
            } else if c == ']' {
                if self.jump_stack.len() == 0 {
                    proof {
                        assert(gen_fold(old(self)@, cs.take(k as int + 1)) == Result::<
                            GenState,
                            GenError,
                        >::Err(GenError::UnmatchedClosingBracket));
                        lemma_gen_fold_err_persists(old(self)@, cs, k as int + 1);
                    }
                    return Err(GenError::UnmatchedClosingBracket);
                } else {
                    self.emit_end_loop();
                }
            }
            proof {
                assert(gen_step(mid, cs[k as int]) == Result::<GenState, GenError>::Ok(self@));
            }
            k += 1;
        }
        proof {
            assert(cs.take(n as int) =~= cs);
        }
        if self.jump_stack.len() == 0 {
            proof {
                assert(self@.stack.len() == 0);
            }
            Ok(())
        } else {
            Err(GenError::UnmatchedOpeningBracket)
        }
    }

    /// Close the cursor block with a return and hand out the finished
    /// graph.
    fn finalize(self) -> (p: Program)
        requires
            self.wf(),
            self.jump_stack@.len() == 0,
        ensures
            p@ == finalize_state(self@),
            p.mode == self.mode,
            prog_wf(p@),
    {
        let mut g = self;
        let mut closed_ops: Vec<Op> = Vec::new();
        core::mem::swap(&mut closed_ops, &mut g.cur_ops);
        let c = g.cursor;
        g.blocks.set(c, Block { ops: closed_ops, term: Some(Term::Return) });
        let p = Program { mode: g.mode, blocks: g.blocks };
        proof {
            let st = self@;
            assert(p@ =~~= finalize_state(st));
            assert forall|b: int| 0 <= b < p@.len() implies match (#[trigger] p@[b]).term {
                Option::Some(t) => term_targets_ok(t, p@.len() as int),
                Option::None => false,
            } by {
                if b != st.cursor {
                    assert(!open_exit(st, b));
                    assert(p@[b] == st.blocks[b]);
                }
            }
        }
        p
    }

    /// Finish an interactive-mode program: the generated function returns
    /// nothing, and the backend's in-process executor runs it on the
    /// caller's tape.
    pub fn finalize_jit(self) -> (p: Program)
        requires
            self.wf(),
            self.jump_stack@.len() == 0,
            self.mode == Mode::Jit,
        ensures
            p@ == finalize_state(self@),
            p.mode == Mode::Jit,
            prog_wf(p@),
    {
        self.finalize()
    }

    /// Finish a persisted-mode program: the generated function returns a
    /// zero status, and the backend lowers it to an object or assembly
    /// artifact.
    pub fn finalize_comp(self) -> (p: Program)
        requires
            self.wf(),
            self.jump_stack@.len() == 0,
            self.mode matches Mode::Comp { tape_len: _ },
        ensures
            p@ == finalize_state(self@),
            p.mode == self.mode,
            prog_wf(p@),
    {
        self.finalize()
    }
}

/// A finished, fully terminated control-flow graph together with the
/// execution-mode wiring it was generated for.
pub struct Program {
    pub mode: Mode,
    pub blocks: Vec<Block>,
}

impl View for Program {
    type V = Seq<BlockModel>;

    open spec fn view(&self) -> Seq<BlockModel> {
        self.blocks@.map_values(|b: Block| b@)
    }
}

/// Translate source text for interactive use: the finished program's entry
/// function takes the caller's tape.  Returns exactly the structural error
/// that the generation fold over the compacted source produces, if any.
pub fn jit_bf(code: &str) -> (r: Result<Program, GenError>)
    requires
        code@.len() <= isize::MAX as int,
        3 * code@.len() + 4 <= usize::MAX,
    ensures
        match gen_run(compact(code@)) {
            Result::Ok(st) => {
                &&& r is Ok
                &&& r->Ok_0@ == finalize_state(st)
                &&& r->Ok_0.mode == Mode::Jit
                &&& prog_wf(r->Ok_0@)
            },
            Result::Err(e) => r == Result::<Program, GenError>::Err(e),
        },
{
    let mut g = CodeGen::new_jit();
    match g.bf_codegen(code) {
        Ok(_) => Ok(g.finalize_jit()),
        Err(e) => Err(e),
    }
}

/// Translate source text for persisted output: the finished program's
/// entry function owns a tape of `tape_length` bytes and returns a zero
/// status.  Returns exactly the structural error that the generation fold
/// over the compacted source produces, if any.
pub fn compile_bf(code: &str, tape_length: usize) -> (r: Result<Program, GenError>)
    requires
        code@.len() <= isize::MAX as int,
        3 * code@.len() + 4 <= usize::MAX,
    ensures
        match gen_run(compact(code@)) {
            Result::Ok(st) => {
                &&& r is Ok
                &&& r->Ok_0@ == finalize_state(st)
                &&& r->Ok_0.mode == (Mode::Comp { tape_len: tape_length })
                &&& prog_wf(r->Ok_0@)
            },
            Result::Err(e) => r == Result::<Program, GenError>::Err(e),
        },
{
    let mut g = CodeGen::new_comp(tape_length);
    match g.bf_codegen(code) {
        Ok(_) => Ok(g.finalize_comp()),
        Err(e) => Err(e),
    }
}

} // verus!
