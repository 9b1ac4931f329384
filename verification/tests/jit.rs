use intcode::decompile::analyze;
use intcode::jit::run_blocks;
use intcode::machine::{Machine, RunState};

/// Drives a machine to halt through the interpreter, feeding `inputs`
/// front to back and collecting every output.
fn interpret(prog: &[i64], inputs: &[i64]) -> (Machine, Vec<i64>) {
    let mut m = Machine::new(prog);
    let mut outs = Vec::new();
    let mut next = 0;
    let mut pending: Option<i64> = None;
    loop {
        match m.run(pending.take()).unwrap() {
            RunState::Halted => break,
            RunState::Output(v) => outs.push(v),
            RunState::NeedInput => {
                assert!(next < inputs.len(), "input underflow");
                pending = Some(inputs[next]);
                next += 1;
            }
        }
    }
    (m, outs)
}

/// Runs the same program through the interpreter and through the analyzed,
/// optimized block form, and demands identical final memory and identical
/// output sequences.
fn differential(prog: &[i64], inputs: &[i64]) {
    let (reference, ref_outs) = interpret(prog, inputs);

    let analysis = analyze(prog).expect("program should be analyzable");
    let mut m = Machine::new(prog);
    let outs = run_blocks(&mut m, &analysis.blocks, &inputs.to_vec()).unwrap();

    assert_eq!(outs, ref_outs);
    assert_eq!(m.sr, reference.sr);
}

#[test]
fn jit_matches_interpreter_on_arithmetic() {
    differential(&[1, 9, 10, 3, 2, 3, 11, 0, 99, 30, 40, 50], &[]);
    differential(&[1, 0, 0, 0, 99], &[]);
    differential(&[2, 3, 0, 3, 99], &[]);
    differential(&[2, 4, 4, 5, 99, 0], &[]);
}

#[test]
fn jit_matches_interpreter_on_io() {
    let prog = &[3, 9, 8, 9, 10, 9, 4, 9, 99, -1, 8];
    differential(prog, &[7]);
    differential(prog, &[8]);
    differential(prog, &[9]);
    differential(&[4, 3, 99, 42], &[]);
}

#[test]
fn jit_matches_interpreter_on_loops() {
    let prog = &[
        101, 1, 14, 14, // cnt = cnt + 1
        4, 14, // OUT cnt
        108, 10, 14, 15, // cond = cnt == 10
        1006, 15, 0, // IF !cond JMP 0
        99, 0, 0,
    ];
    differential(prog, &[]);
}

#[test]
fn jit_matches_interpreter_on_comparisons() {
    let prog = &[3, 3, 1108, -1, 8, 3, 4, 3, 99];
    differential(prog, &[7]);
    differential(prog, &[8]);
    let prog = &[3, 3, 1107, -1, 8, 3, 4, 3, 99];
    differential(prog, &[7]);
    differential(prog, &[9]);
}

#[test]
fn jit_entry_is_reusable() {
    // one analysis serves any number of runs on fresh machines
    let prog = &[
        101, 1, 14, 14, 4, 14, 108, 10, 14, 15, 1006, 15, 0, 99, 0, 0,
    ];
    let analysis = analyze(prog).expect("analyzable");
    for _ in 0..3 {
        let mut m = Machine::new(prog);
        let outs = run_blocks(&mut m, &analysis.blocks, &Vec::new()).unwrap();
        assert_eq!(outs, vec![1, 2, 3, 4, 5, 6, 7, 8, 9, 10]);
    }
}

#[test]
fn dynamic_jump_is_fatal_to_the_analyzer_only() {
    // the input instruction writes into the jump's own operand cell, so the
    // jump's condition cannot be resolved statically: the analyzer refuses,
    // while the interpreter runs the same program fine
    let prog = &[3, 3, 1105, -1, 9, 1101, 0, 0, 12, 4, 12, 99, 1];
    match analyze(prog) {
        Err(intcode::decompile::AnalysisError::UnresolvedControlFlow(pc)) => assert_eq!(pc, 2),
        Ok(_) => panic!("analysis should refuse a dynamic jump"),
    }
    let (_, outs) = interpret(prog, &[5]);
    assert_eq!(outs, vec![1]);
    let (_, outs) = interpret(prog, &[0]);
    assert_eq!(outs, vec![0]);
}

#[test]
fn jit_reports_input_underflow() {
    let prog = &[3, 5, 4, 5, 99, 0];
    let analysis = analyze(prog).expect("analyzable");
    let mut m = Machine::new(prog);
    assert_eq!(
        run_blocks(&mut m, &analysis.blocks, &Vec::new()),
        Err(intcode::jit::JitError::InputUnderflow)
    );
}

#[test]
fn jit_reports_missing_block() {
    // an always-taken jump to an address past the program: the walk never
    // reaches it, so no block carries that label
    let prog = &[1105, 1, 5000, 99];
    let analysis = analyze(prog).expect("analyzable");
    let mut m = Machine::new(prog);
    assert_eq!(
        run_blocks(&mut m, &analysis.blocks, &Vec::new()),
        Err(intcode::jit::JitError::MissingBlock(5000))
    );
}

#[test]
fn jit_refuses_dynamic_io() {
    // the first instruction rewrites the input instruction's operand cell,
    // so the input instruction compiles as dynamic; the fallback path has
    // no input capability and must refuse rather than guess
    let prog = &[1101, 0, 4, 5, 3, 0, 99];
    let analysis = analyze(prog).expect("analyzable");
    let mut m = Machine::new(prog);
    assert_eq!(
        run_blocks(&mut m, &analysis.blocks, &vec![1]),
        Err(intcode::jit::JitError::Unsupported)
    );
}
