use intcode::machine::{Machine, RunState, VmError, MEMORY_SIZE};

/// Drives a machine to halt, feeding `inputs` front to back and collecting
/// every output.
fn interpret(prog: &[i64], inputs: &[i64]) -> (Machine, Vec<i64>) {
    let mut m = Machine::new(prog);
    let mut outs = Vec::new();
    let mut next = 0;
    let mut pending: Option<i64> = None;
    loop {
        match m.run(pending.take()).unwrap() {
            RunState::Halted => break,
            RunState::Output(v) => outs.push(v),
            RunState::NeedInput => {
                assert!(next < inputs.len(), "input underflow");
                pending = Some(inputs[next]);
                next += 1;
            }
        }
    }
    (m, outs)
}

#[test]
fn machine_pads_memory() {
    let m = Machine::new(&[99]);
    assert_eq!(m.sr.len(), MEMORY_SIZE);
    assert_eq!(m.sr[0], 99);
    assert_eq!(m.sr[MEMORY_SIZE - 1], 0);
    assert_eq!(m.pc, 0);
    assert_eq!(m.rel_base, 0);
}

#[test]
fn machine_halts_without_touching_state() {
    let mut m = Machine::new(&[99, 7, 8]);
    let before = m.sr.clone();
    assert_eq!(m.run(None).unwrap(), RunState::Halted);
    assert_eq!(m.sr, before);
    assert_eq!(m.pc, 0);
    // a halted machine stays halted
    assert_eq!(m.run(None).unwrap(), RunState::Halted);
    assert_eq!(m.sr, before);
}

#[test]
fn machine_equality_program() {
    let prog = &[3, 9, 8, 9, 10, 9, 4, 9, 99, -1, 8];
    let (_, outs) = interpret(prog, &[8]);
    assert_eq!(outs, vec![1]);
    let (_, outs) = interpret(prog, &[7]);
    assert_eq!(outs, vec![0]);
    let (_, outs) = interpret(prog, &[9]);
    assert_eq!(outs, vec![0]);
}

#[test]
fn machine_needs_input_then_resumes() {
    let mut m = Machine::new(&[3, 9, 8, 9, 10, 9, 4, 9, 99, -1, 8]);
    assert_eq!(m.run(None).unwrap(), RunState::NeedInput);
    assert_eq!(m.run(Some(8)).unwrap(), RunState::Output(1));
    assert_eq!(m.run(None).unwrap(), RunState::Halted);
}

#[test]
fn machine_relative_base() {
    // move the base to 5, then output the cell 5 below it (cell 0)
    let (_, outs) = interpret(&[109, 5, 204, -5, 99], &[]);
    assert_eq!(outs, vec![109]);
}

#[test]
fn machine_relative_write() {
    // move the base to 10, write 7 through a relative operand, output it
    let (m, outs) = interpret(&[109, 10, 21101, 3, 4, 0, 4, 10, 99], &[]);
    assert_eq!(outs, vec![7]);
    assert_eq!(m.sr[10], 7);
}

#[test]
fn machine_decode_fault_on_unknown_opcode() {
    let mut m = Machine::new(&[98]);
    assert_eq!(m.run(None).unwrap_err(), VmError::DecodeFault);
}

#[test]
fn machine_decode_fault_on_bad_mode() {
    let mut m = Machine::new(&[301, 0, 0, 0, 99]);
    assert_eq!(m.run(None).unwrap_err(), VmError::DecodeFault);
}

#[test]
fn machine_decode_fault_on_jump_out_of_memory() {
    let mut m = Machine::new(&[1105, 1, 5000, 99]);
    assert_eq!(m.run(None).unwrap_err(), VmError::DecodeFault);
}

#[test]
fn machine_address_fault_on_write_to_literal() {
    let mut m = Machine::new(&[11101, 1, 1, 0, 99]);
    assert_eq!(m.run(None).unwrap_err(), VmError::AddressFault);
}

#[test]
fn machine_address_fault_on_negative_relative_cell() {
    // base stays 0; writing through a negative relative offset names no cell
    let mut m = Machine::new(&[21101, 1, 1, -7, 99]);
    assert_eq!(m.run(None).unwrap_err(), VmError::AddressFault);
}

#[test]
fn machine_arithmetic_wraps() {
    // adds use two's-complement wraparound, never a panic
    let (m, _) = interpret(&[1101, i64::MAX, 1, 5, 99, 0], &[]);
    assert_eq!(m.sr[5], i64::MIN);
    let (m, _) = interpret(&[1102, i64::MAX, 2, 5, 99, 0], &[]);
    assert_eq!(m.sr[5], i64::MAX.wrapping_mul(2));
}
