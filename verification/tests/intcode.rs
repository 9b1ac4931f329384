use intcode::intcode::{Computer, IoComputer, NoStream, VecInput};

fn run_program(prog: &[i64], input: &[i64], expected_output: &[i64]) {
    let mut c = IoComputer::with_io(prog, VecInput::from_vec(input.to_vec()), vec![]);
    while c.step().unwrap() {}
    assert_eq!(c.output, expected_output);
}

#[test]
fn looping1() {
    let prog = &[
        101, 1, 14, 14, //  0 : cnt = cnt + 1
        4, 14, //  4 : OUT cnt
        108, 10, 14, 15, //  6 : cond = cnt == 10
        1006, 15, 0, // 10 : IF !cond JMP 0
        99, // 13 : HALT
        0,  // 14 : cnt
        0,  // 15 : cond
    ];
    let mut c = IoComputer::with_io(prog, NoStream, vec![]);
    while c.step().unwrap() {}
    assert_eq!(c.output, vec![1, 2, 3, 4, 5, 6, 7, 8, 9, 10]);
}

#[test]
fn intcode_simple_example() {
    let mut c = Computer::new(&[1, 9, 10, 3, 2, 3, 11, 0, 99, 30, 40, 50]);
    assert!(c.step().unwrap());
    assert_eq!(c.sr, vec![1, 9, 10, 70, 2, 3, 11, 0, 99, 30, 40, 50]);
    assert!(c.step().unwrap());
    assert_eq!(c.sr, vec![3500, 9, 10, 70, 2, 3, 11, 0, 99, 30, 40, 50]);
    assert!(!c.step().unwrap());
}

#[test]
fn intcode_example1() {
    let mut c = Computer::new(&[1, 0, 0, 0, 99]);
    while c.step().unwrap() {}
    assert_eq!(c.sr, vec![2, 0, 0, 0, 99]);
}

#[test]
fn intcode_example2() {
    let mut c = Computer::new(&[2, 3, 0, 3, 99]);
    while c.step().unwrap() {}
    assert_eq!(c.sr, vec![2, 3, 0, 6, 99]);
}

#[test]
fn intcode_example3() {
    let mut c = Computer::new(&[2, 4, 4, 5, 99, 0]);
    while c.step().unwrap() {}
    assert_eq!(c.sr, vec![2, 4, 4, 5, 99, 9801]);
}

#[test]
fn intcode_example4() {
    let mut c = Computer::new(&[1, 1, 1, 4, 99, 5, 6, 0, 99]);
    while c.step().unwrap() {}
    assert_eq!(c.sr, vec![30, 1, 1, 4, 2, 5, 6, 0, 99]);
}

#[test]
fn example5_1_1() {
    let mut c = Computer::new(&[1002, 4, 3, 4, 33]);
    while c.step().unwrap() {}
    assert_eq!(c.sr, vec![1002, 4, 3, 4, 99]);
}

#[test]
fn example5_1_2() {
    let mut c = Computer::new(&[102, 3, 4, 4, 33]);
    while c.step().unwrap() {}
    assert_eq!(c.sr, vec![102, 3, 4, 4, 99]);
}

#[test]
fn example5_input() {
    let mut c = IoComputer::with_io(&[3, 3, 99, 0], VecInput::from_vec(vec![42]), NoStream);
    while c.step().unwrap() {}
    assert_eq!(c.sr, vec![3, 3, 99, 42]);
}

#[test]
fn example5_output() {
    run_program(&[4, 3, 99, 42], &[], &[42])
}

#[test]
fn example5_2_1() {
    let prog = vec![3, 9, 8, 9, 10, 9, 4, 9, 99, -1, 8];
    run_program(&prog, &[7], &[0]);
    run_program(&prog, &[8], &[1]);
    run_program(&prog, &[9], &[0]);
}

#[test]
fn example5_2_2() {
    let prog = vec![3, 9, 7, 9, 10, 9, 4, 9, 99, -1, 8];
    run_program(&prog, &[7], &[1]);
    run_program(&prog, &[8], &[0]);
    run_program(&prog, &[9], &[0]);
}

#[test]
fn example5_2_3() {
    let prog = vec![3, 3, 1108, -1, 8, 3, 4, 3, 99];
    run_program(&prog, &[7], &[0]);
    run_program(&prog, &[8], &[1]);
    run_program(&prog, &[9], &[0]);
}

#[test]
fn example5_2_4() {
    let prog = vec![3, 3, 1107, -1, 8, 3, 4, 3, 99];
    run_program(&prog, &[7], &[1]);
    run_program(&prog, &[8], &[0]);
    run_program(&prog, &[9], &[0]);
}

#[test]
fn example5_2_5() {
    let prog = vec![3, 12, 6, 12, 15, 1, 13, 14, 13, 4, 13, 99, -1, 0, 1, 9];
    run_program(&prog, &[-1], &[1]);
    run_program(&prog, &[0], &[0]);
    run_program(&prog, &[1], &[1]);
    run_program(&prog, &[2], &[1]);
}

#[test]
fn example5_2_6() {
    let prog = vec![3, 3, 1105, -1, 9, 1101, 0, 0, 12, 4, 12, 99, 1];
    run_program(&prog, &[-1], &[1]);
    run_program(&prog, &[0], &[0]);
    run_program(&prog, &[1], &[1]);
    run_program(&prog, &[2], &[1]);
}

#[test]
fn example5_2_7() {
    let prog = vec![
        3, 21, 1008, 21, 8, 20, 1005, 20, 22, 107, 8, 21, 20, 1006, 20, 31, 1106, 0, 36, 98, 0,
        0, 1002, 21, 125, 20, 4, 20, 1105, 1, 46, 104, 999, 1105, 1, 46, 1101, 1000, 1, 20, 4,
        20, 1105, 1, 46, 98, 99,
    ];
    run_program(&prog, &[7], &[999]);
    run_program(&prog, &[8], &[1000]);
    run_program(&prog, &[9], &[1001]);
}
