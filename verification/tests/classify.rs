use intcode::intcode::{CellUse, Computer, IoComputer, NoStream, VecInput};

fn blank(n: usize) -> Vec<CellUse> {
    (0..n).map(|_| CellUse::default()).collect()
}

fn classify_run(prog: &[i64], input: &[i64]) -> Vec<CellUse> {
    let mut c = IoComputer::with_io(prog, VecInput::from_vec(input.to_vec()), vec![]);
    let mut cls = blank(prog.len());
    while c.classify_step(&mut cls).unwrap() {}
    cls
}

fn union(a: &[CellUse], b: &[CellUse]) -> Vec<CellUse> {
    a.iter()
        .zip(b.iter())
        .map(|(x, y)| CellUse {
            op: x.op || y.op,
            param: x.param || y.param,
            write: x.write || y.write,
            read: x.read || y.read,
            immediate: x.immediate || y.immediate,
        })
        .collect()
}

#[test]
fn classify_marks_roles() {
    let mut c = Computer::new(&[1101, 2, 3, 5, 99, 0]);
    let mut cls = blank(6);
    assert!(c.classify_step(&mut cls).unwrap());
    assert!(!c.classify_step(&mut cls).unwrap());
    assert_eq!(c.sr, vec![1101, 2, 3, 5, 99, 5]);
    // instruction word, two immediates, the target parameter word
    assert!(cls[0].op && !cls[0].write);
    assert!(cls[1].immediate && !cls[1].param);
    assert!(cls[2].immediate);
    assert!(cls[3].param && !cls[3].immediate);
    assert!(cls[4].op);
    assert!(cls[5].write && !cls[5].read);
}

#[test]
fn classify_reads_and_writes() {
    let cls = classify_run(&[1, 5, 6, 0, 99, 30, 40], &[]);
    assert!(cls[0].op && cls[0].write); // cell 0 is the opcode and the write target
    assert!(cls[5].read);
    assert!(cls[6].read);
    assert!(cls[1].param && cls[2].param && cls[3].param);
}

#[test]
fn classify_two_runs_union_to_one() {
    let prog = &[3, 9, 8, 9, 10, 9, 4, 9, 99, -1, 8];
    let first = classify_run(prog, &[8]);
    let second = classify_run(prog, &[8]);
    // the same deterministic program classifies identically on every run,
    // and unioning the flags of two runs adds nothing
    assert_eq!(first, second);
    assert_eq!(union(&first, &second), first);
}

#[test]
fn classify_does_not_disturb_execution() {
    let prog = &[1, 9, 10, 3, 2, 3, 11, 0, 99, 30, 40, 50];
    let mut plain = Computer::new(prog);
    while plain.step().unwrap() {}

    let mut traced: IoComputer<NoStream, NoStream> = Computer::new(prog);
    let mut cls = blank(prog.len());
    while traced.classify_step(&mut cls).unwrap() {}

    assert_eq!(plain.sr, traced.sr);
    assert_eq!(plain.sr[0], 3500);
}
