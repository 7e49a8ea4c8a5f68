use bfjit::codegen::{compile_bf, jit_bf, GenError, Mode, Op, Program, Term};
use bfjit::compact::{parse_brainfuck, Instruction};
use bfjit::machine::{run_program, RunOutcome};

fn insts(src: &str) -> Vec<(char, isize)> {
    parse_brainfuck(src).iter().map(|i| (i.inst, i.count)).collect()
}

fn expand(insts: &[Instruction]) -> String {
    let mut s = String::new();
    for i in insts {
        for _ in 0..i.count {
            s.push(i.inst);
        }
    }
    s
}

fn generate(src: &str) -> Program {
    match jit_bf(src) {
        Ok(p) => p,
        Err(_) => panic!("generation should succeed for {:?}", src),
    }
}

fn run_ok(src: &str, tape_len: usize, input: Vec<u8>, fuel: u64) -> (Vec<u8>, Vec<u8>) {
    let prog = generate(src);
    match run_program(&prog, tape_len, &input, fuel) {
        RunOutcome::Finished { tape, output } => (tape, output),
        RunOutcome::OutOfFuel => panic!("ran out of fuel"),
        RunOutcome::MemoryFault => panic!("unexpected memory fault"),
    }
}

#[test]
fn compactor_merges_same_kind_runs() {
    assert_eq!(insts("+++>><--"), vec![('+', 3), ('>', 2), ('<', 1), ('-', 2)]);
}

#[test]
fn compactor_never_merges_io_or_brackets() {
    assert_eq!(
        insts("..[[,,"),
        vec![('.', 1), ('.', 1), ('[', 1), ('[', 1), (',', 1), (',', 1)]
    );
}

#[test]
fn compactor_discards_unrecognized_and_breaks_runs() {
    assert_eq!(insts("++a++"), vec![('+', 2), ('+', 2)]);
}

#[test]
fn compactor_keeps_trailing_instruction_after_noise() {
    assert_eq!(insts("abc+"), vec![('+', 1)]);
}

#[test]
fn compactor_empty_and_comment_only_sources() {
    assert_eq!(insts(""), vec![]);
    assert_eq!(insts("hello world"), vec![]);
}

#[test]
fn compactor_roundtrip_expands_to_recognized_subsequence() {
    let src = "++ comment ++>[-.,]<";
    let expanded = expand(&parse_brainfuck(src));
    let filtered: String = src
        .chars()
        .filter(|c| matches!(c, '+' | '-' | '<' | '>' | '.' | ',' | '[' | ']'))
        .collect();
    assert_eq!(expanded, filtered);
}

#[test]
fn compactor_idempotent_over_its_expanded_output() {
    let src = "++a++>><<-[.,]x-";
    let once = expand(&parse_brainfuck(src));
    let twice = expand(&parse_brainfuck(&once));
    assert_eq!(once, twice);
    assert_eq!(insts(&once), insts(&twice));
}

#[test]
fn four_increments_leave_cell_four_and_no_io() {
    let (tape, output) = run_ok("++++", 4, vec![], 100);
    assert_eq!(tape[0], 4);
    assert!(output.is_empty());
}

#[test]
fn clear_loop_enters_once_and_zeroes_the_cell() {
    let (tape, output) = run_ok("+[-]", 4, vec![], 100);
    assert_eq!(tape[0], 0);
    assert!(output.is_empty());
    // one increment, the entry jump, one zero test, one decrement, the jump
    // back, the exit test, and the return: exactly seven steps
    let prog = generate("+[-]");
    assert!(matches!(
        run_program(&prog, 4, &vec![], 7),
        RunOutcome::Finished { .. }
    ));
    assert!(matches!(run_program(&prog, 4, &vec![], 6), RunOutcome::OutOfFuel));
}

#[test]
fn echo_reads_a_byte_and_writes_it_back() {
    let (tape, output) = run_ok(",.", 4, vec![65], 100);
    assert_eq!(output, vec![65]);
    assert_eq!(tape[0], 65);
}

#[test]
fn empty_loop_at_zero_runs_its_body_zero_times() {
    let (tape, output) = run_ok("[]", 4, vec![], 100);
    assert!(tape.iter().all(|&b| b == 0));
    assert!(output.is_empty());
}

#[test]
fn lone_closing_bracket_fails_generation() {
    match jit_bf("]") {
        Err(e) => assert_eq!(e, GenError::UnmatchedClosingBracket),
        Ok(_) => panic!("generation should fail"),
    }
}

#[test]
fn closing_bracket_error_wins_even_with_later_noise() {
    match jit_bf("][") {
        Err(e) => assert_eq!(e, GenError::UnmatchedClosingBracket),
        Ok(_) => panic!("generation should fail"),
    }
}

#[test]
fn unclosed_loop_fails_generation_at_the_end() {
    match jit_bf("[") {
        Err(e) => assert_eq!(e, GenError::UnmatchedOpeningBracket),
        Ok(_) => panic!("generation should fail"),
    }
    match compile_bf("[][", 8) {
        Err(e) => assert_eq!(e, GenError::UnmatchedOpeningBracket),
        Ok(_) => panic!("generation should fail"),
    }
}

#[test]
fn nested_balanced_brackets_generate() {
    assert!(jit_bf("[[][[]]]").is_ok());
}

#[test]
fn decrementing_zero_wraps_to_255() {
    let (tape, _) = run_ok("-", 2, vec![], 100);
    assert_eq!(tape[0], 255);
}

#[test]
fn incrementing_255_by_one_wraps_to_zero() {
    // 255 pluses, a run-breaking comment character, then one more plus
    let mut src = "+".repeat(255);
    src.push('x');
    src.push('+');
    let parsed = insts(&src);
    assert_eq!(parsed, vec![('+', 255), ('+', 1)]);
    let (tape, _) = run_ok(&src, 2, vec![], 100);
    assert_eq!(tape[0], 0);
}

#[test]
fn a_full_run_of_256_increments_is_a_whole_turn() {
    let src = "+".repeat(256);
    let (tape, _) = run_ok(&src, 2, vec![], 100);
    assert_eq!(tape[0], 0);
}

#[test]
fn pointer_moves_address_other_cells() {
    let (tape, output) = run_ok("+>++>+++<.", 4, vec![], 100);
    assert_eq!(&tape[0..3], &[1, 2, 3]);
    assert_eq!(output, vec![2]);
}

#[test]
fn reading_exhausted_input_stores_255() {
    let (tape, _) = run_ok(",", 2, vec![], 100);
    assert_eq!(tape[0], 255);
}

#[test]
fn moving_left_of_the_tape_faults() {
    let prog = generate("<");
    assert!(matches!(run_program(&prog, 4, &vec![], 100), RunOutcome::MemoryFault));
}

#[test]
fn moving_far_right_of_the_tape_faults() {
    let prog = generate(">>");
    assert!(matches!(run_program(&prog, 1, &vec![], 100), RunOutcome::MemoryFault));
}

#[test]
fn touching_the_cell_one_past_the_end_faults() {
    let prog = generate(">+");
    assert!(matches!(run_program(&prog, 1, &vec![], 100), RunOutcome::MemoryFault));
}

#[test]
fn empty_loop_lowers_to_the_pre_tested_block_triple() {
    let prog = generate("[]");
    assert_eq!(prog.blocks.len(), 4);
    assert!(prog.blocks[0].ops.is_empty());
    assert_eq!(prog.blocks[0].term, Some(Term::Jump { target: 1 }));
    assert_eq!(
        prog.blocks[1].term,
        Some(Term::Branch { on_zero: 3, on_nonzero: 2 })
    );
    assert_eq!(prog.blocks[2].term, Some(Term::Jump { target: 1 }));
    assert_eq!(prog.blocks[3].term, Some(Term::Return));
}

#[test]
fn straight_line_code_lowers_to_one_returning_block() {
    let prog = generate("++>-.");
    assert_eq!(prog.blocks.len(), 1);
    assert_eq!(
        prog.blocks[0].ops,
        vec![
            Op::AddCell { delta: 2 },
            Op::MovePtr { delta: 1 },
            Op::AddCell { delta: 255 },
            Op::Output,
        ]
    );
    assert_eq!(prog.blocks[0].term, Some(Term::Return));
}

#[test]
fn countdown_loop_outputs_each_value() {
    let (tape, output) = run_ok("+++[-.]", 2, vec![], 1000);
    assert_eq!(output, vec![2, 1, 0]);
    assert_eq!(tape[0], 0);
}

#[test]
fn loop_with_pointer_moves_multiplies() {
    let (tape, output) = run_ok("++[>+++<-]", 4, vec![], 1000);
    assert_eq!(tape[0], 0);
    assert_eq!(tape[1], 6);
    assert!(output.is_empty());
}

#[test]
fn the_two_wirings_share_the_translation_and_differ_in_mode() {
    let jit = generate("+[-]");
    let comp = match compile_bf("+[-]", 30000) {
        Ok(p) => p,
        Err(_) => panic!("generation should succeed"),
    };
    assert_eq!(jit.mode, Mode::Jit);
    assert_eq!(comp.mode, Mode::Comp { tape_len: 30000 });
    assert_eq!(jit.blocks.len(), comp.blocks.len());
    for (a, b) in jit.blocks.iter().zip(comp.blocks.iter()) {
        assert_eq!(a.ops, b.ops);
        assert_eq!(a.term, b.term);
    }
}
