use vstd::prelude::*;
use crate::decompile::{Block, FixOp};
use crate::machine::{Machine, MState, StepRes, VmError, Operand};

verus! {

/// The state the lowered form runs on: the machine memory, the relative
/// base, the input not yet consumed, and the output collected so far.
pub struct FState {
    pub sr: Seq<i64>,
    pub rel: i64,
    pub ins: Seq<i64>,
    pub outs: Seq<i64>,
}

/// Where control goes after one lowered instruction.
pub enum FixFlow {
    Ahead,
    Goto(usize),
}

/// The outcome of one lowered instruction on one state.
pub enum FixOut {
    /// An operand named no allocated cell, or a write went to a literal.
    Fault(VmError),
    /// A halt.
    Halted,
    /// An input instruction found the input exhausted.
    Underflow,
    /// The instruction cannot run inside the lowered form (a jump through
    /// the relative base, or a dynamic instruction for the fallback path).
    Escape,
    /// Anything else: the state after the instruction and where control
    /// continues.
    Next(FState, FixFlow),
}

/// The meaning of one lowered instruction, on any state. This is the
/// semantics the compiled code must implement for everything it does not
/// hand back to the interpreter.
pub open spec fn fix_step(s: FState, op: FixOp) -> FixOut {
    match op {
        FixOp::Halt => FixOut::Halted,
        FixOp::Invalid => FixOut::Fault(VmError::DecodeFault),
        FixOp::Jr0 => FixOut::Escape,
        FixOp::Dynamic(_) => FixOut::Escape,
        FixOp::Mov(a, c) => match crate::machine::spec_read(s.sr, s.rel, a) {
            Some(x) => fix_write(s, c, x),
            None => FixOut::Fault(VmError::AddressFault),
        },
        FixOp::Add(a, b, c) => fix_arith(s, a, b, c, true),
        FixOp::Mul(a, b, c) => fix_arith(s, a, b, c, false),
        FixOp::Ltn(a, b, c) => fix_compare(s, a, b, c, true),
        FixOp::Equ(a, b, c) => fix_compare(s, a, b, c, false),
        FixOp::Inp(c) => if s.ins.len() > 0 {
            match crate::machine::spec_write(s.sr, s.rel, c, s.ins[0]) {
                Some(sr2) => FixOut::Next(
                    FState { sr: sr2, rel: s.rel, ins: s.ins.skip(1), outs: s.outs },
                    FixFlow::Ahead,
                ),
                None => FixOut::Fault(VmError::AddressFault),
            }
        } else {
            FixOut::Underflow
        },
        FixOp::Out(a) => match crate::machine::spec_read(s.sr, s.rel, a) {
            Some(v) => FixOut::Next(
                FState { sr: s.sr, rel: s.rel, ins: s.ins, outs: s.outs.push(v) },
                FixFlow::Ahead,
            ),
            None => FixOut::Fault(VmError::AddressFault),
        },
        FixOp::Jit(a, b) => fix_jump(s, a, b, true),
        FixOp::Jif(a, b) => fix_jump(s, a, b, false),
        FixOp::Jmp(l) => FixOut::Next(s, FixFlow::Goto(l)),
        FixOp::Crb(a) => match crate::machine::spec_read(s.sr, s.rel, a) {
            Some(v) => FixOut::Next(
                FState {
                    sr: s.sr,
                    rel: vstd::wrapping::i64_specs::wrapping_add(s.rel, v),
                    ins: s.ins,
                    outs: s.outs,
                },
                FixFlow::Ahead,
            ),
            None => FixOut::Fault(VmError::AddressFault),
        },
    }
}

/// Writing a value through an operand, falling through on success.
pub open spec fn fix_write(s: FState, c: Operand, v: i64) -> FixOut {
    match crate::machine::spec_write(s.sr, s.rel, c, v) {
        Some(sr2) => FixOut::Next(
            FState { sr: sr2, rel: s.rel, ins: s.ins, outs: s.outs },
            FixFlow::Ahead,
        ),
        None => FixOut::Fault(VmError::AddressFault),
    }
}

/// An add or multiply of the lowered form.
pub open spec fn fix_arith(s: FState, a: Operand, b: Operand, c: Operand, is_add: bool) -> FixOut {
    match (crate::machine::spec_read(s.sr, s.rel, a), crate::machine::spec_read(s.sr, s.rel, b)) {
        (Some(x), Some(y)) => fix_write(
            s,
            c,
            if is_add {
                vstd::wrapping::i64_specs::wrapping_add(x, y)
            } else {
                vstd::wrapping::i64_specs::wrapping_mul(x, y)
            },
        ),
        _ => FixOut::Fault(VmError::AddressFault),
    }
}

/// A comparison of the lowered form.
pub open spec fn fix_compare(s: FState, a: Operand, b: Operand, c: Operand, is_less: bool) -> FixOut {
    match (crate::machine::spec_read(s.sr, s.rel, a), crate::machine::spec_read(s.sr, s.rel, b)) {
        (Some(x), Some(y)) => fix_write(
            s,
            c,
            if (if is_less {
                x < y
            } else {
                x == y
            }) {
                1i64
            } else {
                0i64
            },
        ),
        _ => FixOut::Fault(VmError::AddressFault),
    }
}

/// A conditional jump of the lowered form.
pub open spec fn fix_jump(s: FState, a: Operand, b: Operand, when_nonzero: bool) -> FixOut {
    match crate::machine::spec_read(s.sr, s.rel, a) {
        Some(v) => if (v != 0) == when_nonzero {
            match crate::machine::spec_read(s.sr, s.rel, b) {
                Some(t) => FixOut::Next(s, FixFlow::Goto(crate::machine::pos_index(t))),
                None => FixOut::Fault(VmError::AddressFault),
            }
        } else {
            FixOut::Next(s, FixFlow::Ahead)
        },
        None => FixOut::Fault(VmError::AddressFault),
    }
}

/// Multiplying by one gives the number back, under wrapped multiplication.
proof fn lemma_mul_one(x: i64)
    ensures
        vstd::wrapping::i64_specs::wrapping_mul(x, 1i64) == x,
{
    let range = 0x1_0000_0000_0000_0000int;
    assert(x as int * 1 == x as int);
    if x >= 0 {
        vstd::arithmetic::div_mod::lemma_small_mod(x as nat, range as nat);
    } else {
        vstd::arithmetic::div_mod::lemma_mod_multiples_vanish(1, x as int, range);
        vstd::arithmetic::div_mod::lemma_small_mod((x + range) as nat, range as nat);
    }
}

/// One times a number gives the number back, under wrapped multiplication.
proof fn lemma_one_mul(x: i64)
    ensures
        vstd::wrapping::i64_specs::wrapping_mul(1i64, x) == x,
{
    let range = 0x1_0000_0000_0000_0000int;
    assert(1 * (x as int) == x as int);
    if x >= 0 {
        vstd::arithmetic::div_mod::lemma_small_mod(x as nat, range as nat);
    } else {
        vstd::arithmetic::div_mod::lemma_mod_multiples_vanish(1, x as int, range);
        vstd::arithmetic::div_mod::lemma_small_mod((x + range) as nat, range as nat);
    }
}

/// The peephole rewrites preserve meaning: on every state, the rewritten
/// instruction does exactly what the original instruction does. Together
/// with the interpreter fallback for dynamic instructions, this is what
/// keeps the optimized form faithful to the program it was derived from.
pub proof fn lemma_transform_preserves_semantics(s: FState, op: FixOp)
    ensures
        fix_step(s, crate::decompile::spec_transform(op)) == fix_step(s, op),
{
    let t = crate::decompile::spec_transform(op);
    match op {
        FixOp::Add(a, b, c) => {
            if a is Imm && b is Imm {
            } else if b == Operand::Imm(0i64) {
                match crate::machine::spec_read(s.sr, s.rel, a) {
                    Some(x) => {
                        assert(vstd::wrapping::i64_specs::wrapping_add(x, 0i64) == x);
                    },
                    None => {},
                }
            } else if a == Operand::Imm(0i64) {
                match crate::machine::spec_read(s.sr, s.rel, b) {
                    Some(x) => {
                        assert(vstd::wrapping::i64_specs::wrapping_add(0i64, x) == x);
                    },
                    None => {},
                }
            }
        },
        FixOp::Mul(a, b, c) => {
            if a is Imm && b is Imm {
            } else if b == Operand::Imm(1i64) {
                match crate::machine::spec_read(s.sr, s.rel, a) {
                    Some(x) => {
                        lemma_mul_one(x);
                    },
                    None => {},
                }
            } else if a == Operand::Imm(1i64) {
                match crate::machine::spec_read(s.sr, s.rel, b) {
                    Some(x) => {
                        lemma_one_mul(x);
                    },
                    None => {},
                }
            }
        },
        _ => {},
    }
}

/// Away from input and output, one lowered instruction agrees with the
/// machine's own transition function: it faults, halts, or computes the
/// same memory and relative base, and where it falls through or jumps, the
/// machine's counter moves past the instruction or to the same label. A
/// jump through the relative base is the one form the lowered code defers.
pub proof fn lemma_lowered_agrees_with_machine(
    sr: Seq<i64>,
    pc: usize,
    rel: i64,
    ins: Seq<i64>,
    outs: Seq<i64>,
    op: crate::machine::Op,
    delta: usize,
)
    requires
        crate::machine::spec_decode(sr, pc as int) == Some::<(crate::machine::Op, usize)>(
            (op, delta),
        ),
        !(op is Inp),
        !(op is Out),
    ensures
        ({
            let ms = crate::machine::mstep(MState { sr, pc: pc as int, rel, inp: None });
            let fs = fix_step(FState { sr, rel, ins, outs }, crate::decompile::fix_of(op));
            match fs {
                FixOut::Halted => ms == StepRes::Halted,
                FixOut::Fault(e) => ms == StepRes::Fault(e),
                FixOut::Escape => true,
                FixOut::Next(f2, flow) => f2.ins == ins && f2.outs == outs && (match ms {
                    StepRes::Next(m2) => m2.sr == f2.sr && m2.rel == f2.rel && (match flow {
                        FixFlow::Ahead => m2.pc == pc + delta,
                        FixFlow::Goto(l) => m2.pc == l as int,
                    }),
                    _ => false,
                }),
                FixOut::Underflow => false,
            }
        }),
{
    reveal(crate::machine::mstep);
}

/// Why running the lowered form stopped short of a halt.
#[derive(Debug, Clone, Copy, PartialEq, Eq)]
pub enum JitError {
    /// A memory access faulted, in lowered code or in the fallback path.
    Vm(VmError),
    /// An input instruction found the input exhausted.
    InputUnderflow,
    /// An instruction the lowered form cannot run and the fallback cannot
    /// absorb: a jump through the relative base, or a dynamic instruction
    /// that wanted input or output.
    Unsupported,
    /// A jump named a label that no block carries.
    MissingBlock(usize),
    /// The step budget ran out.
    StepLimit,
}

/// What running the lowered form comes to.
pub enum JitRun {
    /// The program halted; the final state.
    Done(FState),
    /// The program stopped short, for the given reason; no state is
    /// promised.
    Fail(JitError),
}

/// The index of the block carrying `label`, if any.
pub open spec fn spec_find_block(blocks: Seq<Block>, label: usize) -> Option<int>
    decreases blocks.len(),
{
    if blocks.len() == 0 {
        None
    } else if blocks[0].label == label {
        Some(0int)
    } else {
        match spec_find_block(blocks.skip(1), label) {
            Some(i) => Some(i + 1),
            None => None,
        }
    }
}

/// The reference executor of the lowered form, one instruction per unit of
/// fuel: starting inside block `bi` at instruction `oi`, every instruction
/// runs as `fix_step` says; a dynamic instruction runs through the
/// machine's own transition function at its recorded address (the
/// deoptimization path); control falls through the end of a block into the
/// next one.
pub open spec fn spec_run_blocks(blocks: Seq<Block>, s: FState, bi: int, oi: int, fuel: nat) -> JitRun
    decreases fuel,
{
    if fuel == 0 {
        JitRun::Fail(JitError::StepLimit)
    } else if !(0 <= bi < blocks.len()) {
        JitRun::Fail(JitError::MissingBlock(0))
    } else if oi >= blocks[bi].ops@.len() {
        spec_run_blocks(blocks, s, bi + 1, 0, (fuel - 1) as nat)
    } else {
        let op = blocks[bi].ops@[oi].1;
        match op {
            FixOp::Dynamic(pc) => {
                let m = MState { sr: s.sr, pc: pc as int, rel: s.rel, inp: None };
                match crate::machine::mstep(m) {
                    StepRes::Next(m2) => spec_run_blocks(
                        blocks,
                        FState { sr: m2.sr, rel: m2.rel, ins: s.ins, outs: s.outs },
                        bi,
                        oi + 1,
                        (fuel - 1) as nat,
                    ),
                    StepRes::Fault(e) => JitRun::Fail(JitError::Vm(e)),
                    _ => JitRun::Fail(JitError::Unsupported),
                }
            },
            _ => match fix_step(s, op) {
                FixOut::Halted => JitRun::Done(s),
                FixOut::Fault(e) => JitRun::Fail(JitError::Vm(e)),
                FixOut::Underflow => JitRun::Fail(JitError::InputUnderflow),
                FixOut::Escape => JitRun::Fail(JitError::Unsupported),
                FixOut::Next(s2, FixFlow::Ahead) => spec_run_blocks(
                    blocks,
                    s2,
                    bi,
                    oi + 1,
                    (fuel - 1) as nat,
                ),
                FixOut::Next(s2, FixFlow::Goto(l)) => match spec_find_block(blocks, l) {
                    Some(bj) => spec_run_blocks(blocks, s2, bj, 0, (fuel - 1) as nat),
                    None => JitRun::Fail(JitError::MissingBlock(l)),
                },
            },
        }
    }
}

/// Finds the block carrying `label`.
fn find_block(blocks: &Vec<Block>, label: usize) -> (r: Option<usize>)
    ensures
        match r {
            Some(i) => spec_find_block(blocks@, label) == Some(i as int) && i < blocks@.len(),
            None => spec_find_block(blocks@, label) is None,
        },
{
    proof {
        assert(blocks@.skip(0) =~= blocks@);
    }
    let mut i: usize = 0;
    while i < blocks.len()
        invariant
            i <= blocks@.len(),
            forall|j: int| 0 <= j < i ==> blocks@[j].label != label,
            spec_find_block(blocks@, label) == (match spec_find_block(blocks@.skip(i as int), label) {
                Some(k) => Some(k + i),
                None => None::<int>,
            }),
        decreases blocks@.len() - i,
    {
        if blocks[i].label == label {
            proof {
                assert(blocks@.skip(i as int)[0] == blocks@[i as int]);
            }
            return Some(i);
        }
        proof {
            assert(blocks@.skip(i as int).skip(1) =~= blocks@.skip(i as int + 1));
            assert(blocks@.skip(i as int)[0] == blocks@[i as int]);
        }
        i += 1;
    }
    proof {
        assert(blocks@.skip(i as int) =~= Seq::<Block>::empty());
    }
    None
}

/// Runs the lowered block form to completion against the machine's live
/// memory and relative base, consuming `inputs` front to back and
/// collecting every output: exactly what `spec_run_blocks` prescribes from
/// the entry block. This is the semantic reference that native code
/// emission must preserve, fallback path included.
#[verifier::rlimit(100)]
pub fn run_blocks(m: &mut Machine, blocks: &Vec<Block>, inputs: &Vec<i64>) -> (r: Result<
    Vec<i64>,
    JitError,
>)
    requires
        old(m).sr@.len() + 4 <= usize::MAX,
    ensures
        ({
            let s0 = FState {
                sr: old(m).sr@,
                rel: old(m).rel_base,
                ins: inputs@,
                outs: Seq::<i64>::empty(),
            };
            match spec_run_blocks(blocks@, s0, 0, 0, crate::machine::STEP_LIMIT as nat) {
                JitRun::Done(fs) => r matches Ok(outs) && outs@ == fs.outs && final(m).sr@ == fs.sr
                    && final(m).rel_base == fs.rel,
                JitRun::Fail(e) => r == Err::<Vec<i64>, JitError>(e),
            }
        }),
{
    let ghost s0 = FState {
        sr: m.sr@,
        rel: m.rel_base,
        ins: inputs@,
        outs: Seq::<i64>::empty(),
    };
    let ghost limit = crate::machine::STEP_LIMIT as nat;
    let mut outs: Vec<i64> = Vec::new();
    let mut ii: usize = 0;
    let mut bi: usize = 0;
    let mut oi: usize = 0;
    let mut fuel: u64 = crate::machine::STEP_LIMIT;
    proof {
        assert(inputs@.skip(0) =~= inputs@);
    }
    loop
        invariant
            s0 == (FState {
                sr: old(m).sr@,
                rel: old(m).rel_base,
                ins: inputs@,
                outs: Seq::<i64>::empty(),
            }),
            limit == crate::machine::STEP_LIMIT as nat,
            m.sr@.len() + 4 <= usize::MAX,
            ii <= inputs@.len(),
            spec_run_blocks(blocks@, s0, 0, 0, limit) == spec_run_blocks(
                blocks@,
                FState { sr: m.sr@, rel: m.rel_base, ins: inputs@.skip(ii as int), outs: outs@ },
                bi as int,
                oi as int,
                fuel as nat,
            ),
        decreases fuel,
    {
        let ghost cur = FState {
            sr: m.sr@,
            rel: m.rel_base,
            ins: inputs@.skip(ii as int),
            outs: outs@,
        };
        let ghost obi = bi as int;
        let ghost ooi = oi as int;
        let ghost ofuel = fuel as nat;
        if fuel == 0 {
            proof {
                assert(spec_run_blocks(blocks@, cur, obi, ooi, 0) == JitRun::Fail(
                    JitError::StepLimit,
                ));
            }
            return Err(JitError::StepLimit);
        }
        if bi >= blocks.len() {
            proof {
                assert(spec_run_blocks(blocks@, cur, obi, ooi, ofuel) == JitRun::Fail(
                    JitError::MissingBlock(0),
                ));
            }
            return Err(JitError::MissingBlock(0));
        }
        let blen = block_len(blocks, bi);
        if oi >= blen {
            proof {
                assert(spec_run_blocks(blocks@, cur, obi, ooi, ofuel) == spec_run_blocks(
                    blocks@,
                    cur,
                    obi + 1,
                    0,
                    (ofuel - 1) as nat,
                ));
            }
            bi = bi + 1;
            oi = 0;
            fuel = fuel - 1;
            continue;
        }
        let op = block_op(blocks, bi, oi);
        let ghost fres = fix_step(cur, op);
        match op {
            FixOp::Halt => {
                proof {
                    assert(spec_run_blocks(blocks@, cur, obi, ooi, ofuel) == JitRun::Done(cur));
                }
                return Ok(outs);
            },
            FixOp::Invalid => {
                proof {
                    assert(spec_run_blocks(blocks@, cur, obi, ooi, ofuel) == JitRun::Fail(
                        JitError::Vm(VmError::DecodeFault),
                    ));
                }
                return Err(JitError::Vm(VmError::DecodeFault));
            },
            FixOp::Jr0 => {
                proof {
                    assert(spec_run_blocks(blocks@, cur, obi, ooi, ofuel) == JitRun::Fail(
                        JitError::Unsupported,
                    ));
                }
                return Err(JitError::Unsupported);
            },
            FixOp::Dynamic(pc) => {
                m.pc = pc;
                let ghost dm = MState { sr: cur.sr, pc: pc as int, rel: cur.rel, inp: None };
                let (dop, delta) = match m.peek() {
                    Some(x) => x,
                    None => {
                        proof {
                            crate::machine::lemma_mstep_decode_fault(dm);
                            assert(spec_run_blocks(blocks@, cur, obi, ooi, ofuel) == JitRun::Fail(
                                JitError::Vm(VmError::DecodeFault),
                            ));
                        }
                        return Err(JitError::Vm(VmError::DecodeFault));
                    },
                };
                match m.apply(dop, delta) {
                    Ok(None) => {
                        proof {
                            assert(spec_run_blocks(blocks@, cur, obi, ooi, ofuel)
                                == spec_run_blocks(
                                blocks@,
                                FState {
                                    sr: m.sr@,
                                    rel: m.rel_base,
                                    ins: cur.ins,
                                    outs: cur.outs,
                                },
                                obi,
                                ooi + 1,
                                (ofuel - 1) as nat,
                            ));
                        }
                        oi = oi + 1;
                        fuel = fuel - 1;
                    },
                    Ok(Some(_)) => {
                        proof {
                            assert(spec_run_blocks(blocks@, cur, obi, ooi, ofuel) == JitRun::Fail(
                                JitError::Unsupported,
                            ));
                        }
                        return Err(JitError::Unsupported);
                    },
                    Err(e) => {
                        proof {
                            assert(spec_run_blocks(blocks@, cur, obi, ooi, ofuel) == JitRun::Fail(
                                JitError::Vm(e),
                            ));
                        }
                        return Err(JitError::Vm(e));
                    },
                }
            },
            FixOp::Mov(a, c) => {
                let ok = match m.get(a) {
                    Some(x) => m.set(c, x),
                    None => None,
                };
                match ok {
                    Some(_) => {
                        proof {
                            step_ahead(blocks@, cur, obi, ooi, ofuel, op, m.sr@, m.rel_base);
                        }
                        oi = oi + 1;
                        fuel = fuel - 1;
                    },
                    None => {
                        proof {
                            assert(spec_run_blocks(blocks@, cur, obi, ooi, ofuel) == JitRun::Fail(
                                JitError::Vm(VmError::AddressFault),
                            ));
                        }
                        return Err(JitError::Vm(VmError::AddressFault));
                    },
                }
            },
            FixOp::Add(a, b, c) => {
                match exec_arith(m, a, b, c, true) {
                    Some(_) => {
                        proof {
                            step_ahead(blocks@, cur, obi, ooi, ofuel, op, m.sr@, m.rel_base);
                        }
                        oi = oi + 1;
                        fuel = fuel - 1;
                    },
                    None => {
                        proof {
                            assert(spec_run_blocks(blocks@, cur, obi, ooi, ofuel) == JitRun::Fail(
                                JitError::Vm(VmError::AddressFault),
                            ));
                        }
                        return Err(JitError::Vm(VmError::AddressFault));
                    },
                }
            },
            FixOp::Mul(a, b, c) => {
                match exec_arith(m, a, b, c, false) {
                    Some(_) => {
                        proof {
                            step_ahead(blocks@, cur, obi, ooi, ofuel, op, m.sr@, m.rel_base);
                        }
                        oi = oi + 1;
                        fuel = fuel - 1;
                    },
                    None => {
                        proof {
                            assert(spec_run_blocks(blocks@, cur, obi, ooi, ofuel) == JitRun::Fail(
                                JitError::Vm(VmError::AddressFault),
                            ));
                        }
                        return Err(JitError::Vm(VmError::AddressFault));
                    },
                }
            },
            FixOp::Ltn(a, b, c) => {
                match exec_compare(m, a, b, c, true) {
                    Some(_) => {
                        proof {
                            step_ahead(blocks@, cur, obi, ooi, ofuel, op, m.sr@, m.rel_base);
                        }
                        oi = oi + 1;
                        fuel = fuel - 1;
                    },
                    None => {
                        proof {
                            assert(spec_run_blocks(blocks@, cur, obi, ooi, ofuel) == JitRun::Fail(
                                JitError::Vm(VmError::AddressFault),
                            ));
                        }
                        return Err(JitError::Vm(VmError::AddressFault));
                    },
                }
            },
            FixOp::Equ(a, b, c) => {
                match exec_compare(m, a, b, c, false) {
                    Some(_) => {
                        proof {
                            step_ahead(blocks@, cur, obi, ooi, ofuel, op, m.sr@, m.rel_base);
                        }
                        oi = oi + 1;
                        fuel = fuel - 1;
                    },
                    None => {
                        proof {
                            assert(spec_run_blocks(blocks@, cur, obi, ooi, ofuel) == JitRun::Fail(
                                JitError::Vm(VmError::AddressFault),
                            ));
                        }
                        return Err(JitError::Vm(VmError::AddressFault));
                    },
                }
            },
            FixOp::Inp(c) => {
                if ii >= inputs.len() {
                    proof {
                        assert(cur.ins.len() == 0);
                        assert(spec_run_blocks(blocks@, cur, obi, ooi, ofuel) == JitRun::Fail(
                            JitError::InputUnderflow,
                        ));
                    }
                    return Err(JitError::InputUnderflow);
                }
                let v = inputs[ii];
                match m.set(c, v) {
                    Some(_) => {
                        proof {
                            assert(inputs@.skip(ii as int)[0] == inputs@[ii as int]);
                            assert(inputs@.skip(ii as int).skip(1) =~= inputs@.skip(ii + 1));
                            assert(spec_run_blocks(blocks@, cur, obi, ooi, ofuel)
                                == spec_run_blocks(
                                blocks@,
                                FState {
                                    sr: m.sr@,
                                    rel: m.rel_base,
                                    ins: inputs@.skip(ii + 1),
                                    outs: outs@,
                                },
                                obi,
                                ooi + 1,
                                (ofuel - 1) as nat,
                            ));
                        }
                        ii = ii + 1;
                        oi = oi + 1;
                        fuel = fuel - 1;
                    },
                    None => {
                        proof {
                            assert(cur.ins.len() > 0);
                            assert(spec_run_blocks(blocks@, cur, obi, ooi, ofuel) == JitRun::Fail(
                                JitError::Vm(VmError::AddressFault),
                            ));
                        }
                        return Err(JitError::Vm(VmError::AddressFault));
                    },
                }
            },
            FixOp::Out(a) => {
                let v = match m.get(a) {
                    Some(v) => v,
                    None => {
                        proof {
                            assert(spec_run_blocks(blocks@, cur, obi, ooi, ofuel) == JitRun::Fail(
                                JitError::Vm(VmError::AddressFault),
                            ));
                        }
                        return Err(JitError::Vm(VmError::AddressFault));
                    },
                };
                outs.push(v);
                proof {
                    assert(spec_run_blocks(blocks@, cur, obi, ooi, ofuel) == spec_run_blocks(
                        blocks@,
                        FState { sr: m.sr@, rel: m.rel_base, ins: cur.ins, outs: outs@ },
                        obi,
                        ooi + 1,
                        (ofuel - 1) as nat,
                    ));
                }
                oi = oi + 1;
                fuel = fuel - 1;
            },
            FixOp::Jmp(l) => {
                match find_block(blocks, l) {
                    Some(bj) => {
                        proof {
                            assert(spec_run_blocks(blocks@, cur, obi, ooi, ofuel)
                                == spec_run_blocks(blocks@, cur, bj as int, 0, (ofuel - 1) as nat));
                        }
                        bi = bj;
                        oi = 0;
                        fuel = fuel - 1;
                    },
                    None => {
                        proof {
                            assert(spec_run_blocks(blocks@, cur, obi, ooi, ofuel) == JitRun::Fail(
                                JitError::MissingBlock(l),
                            ));
                        }
                        return Err(JitError::MissingBlock(l));
                    },
                }
            },
            FixOp::Jit(a, b) => {
                match exec_jump(m, blocks, a, b, true, bi, oi) {
                    Ok((nbi, noi)) => {
                        proof {
                            assert(spec_run_blocks(blocks@, cur, obi, ooi, ofuel)
                                == spec_run_blocks(
                                blocks@,
                                cur,
                                nbi as int,
                                noi as int,
                                (ofuel - 1) as nat,
                            ));
                        }
                        bi = nbi;
                        oi = noi;
                        fuel = fuel - 1;
                    },
                    Err(e) => {
                        proof {
                            assert(spec_run_blocks(blocks@, cur, obi, ooi, ofuel) == JitRun::Fail(
                                e,
                            ));
                        }
                        return Err(e);
                    },
                }
            },
            FixOp::Jif(a, b) => {
                match exec_jump(m, blocks, a, b, false, bi, oi) {
                    Ok((nbi, noi)) => {
                        proof {
                            assert(spec_run_blocks(blocks@, cur, obi, ooi, ofuel)
                                == spec_run_blocks(
                                blocks@,
                                cur,
                                nbi as int,
                                noi as int,
                                (ofuel - 1) as nat,
                            ));
                        }
                        bi = nbi;
                        oi = noi;
                        fuel = fuel - 1;
                    },
                    Err(e) => {
                        proof {
                            assert(spec_run_blocks(blocks@, cur, obi, ooi, ofuel) == JitRun::Fail(
                                e,
                            ));
                        }
                        return Err(e);
                    },
                }
            },
            FixOp::Crb(a) => {
                let v = match m.get(a) {
                    Some(v) => v,
                    None => {
                        proof {
                            assert(spec_run_blocks(blocks@, cur, obi, ooi, ofuel) == JitRun::Fail(
                                JitError::Vm(VmError::AddressFault),
                            ));
                        }
                        return Err(JitError::Vm(VmError::AddressFault));
                    },
                };
                m.rel_base = m.rel_base.wrapping_add(v);
                proof {
                    assert(spec_run_blocks(blocks@, cur, obi, ooi, ofuel) == spec_run_blocks(
                        blocks@,
                        FState { sr: m.sr@, rel: m.rel_base, ins: cur.ins, outs: cur.outs },
                        obi,
                        ooi + 1,
                        (ofuel - 1) as nat,
                    ));
                }
                oi = oi + 1;
                fuel = fuel - 1;
            },
        }
    }
}

/// Running on from the state one fall-through instruction leaves behind.
proof fn step_ahead(
    blocks: Seq<Block>,
    cur: FState,
    obi: int,
    ooi: int,
    ofuel: nat,
    op: FixOp,
    sr2: Seq<i64>,
    rel2: i64,
)
    requires
        ofuel > 0,
        0 <= obi < blocks.len(),
        0 <= ooi < blocks[obi].ops@.len(),
        blocks[obi].ops@[ooi].1 == op,
        !(op is Dynamic),
        fix_step(cur, op) == FixOut::Next(
            FState { sr: sr2, rel: rel2, ins: cur.ins, outs: cur.outs },
            FixFlow::Ahead,
        ),
    ensures
        spec_run_blocks(blocks, cur, obi, ooi, ofuel) == spec_run_blocks(
            blocks,
            FState { sr: sr2, rel: rel2, ins: cur.ins, outs: cur.outs },
            obi,
            ooi + 1,
            (ofuel - 1) as nat,
        ),
{
}

/// The number of instructions in block `bi`.
fn block_len(blocks: &Vec<Block>, bi: usize) -> (r: usize)
    requires
        bi < blocks@.len(),
    ensures
        r == blocks@[bi as int].ops@.len(),
{
    blocks[bi].ops.len()
}

/// The instruction at position `oi` of block `bi`.
fn block_op(blocks: &Vec<Block>, bi: usize, oi: usize) -> (r: FixOp)
    requires
        bi < blocks@.len(),
        oi < blocks@[bi as int].ops@.len(),
    ensures
        r == blocks@[bi as int].ops@[oi as int].1,
{
    blocks[bi].ops[oi].1
}

/// An add or multiply against the live memory; fails without touching
/// anything on an address fault.
fn exec_arith(m: &mut Machine, a: Operand, b: Operand, c: Operand, is_add: bool) -> (r: Option<()>)
    ensures
        final(m).pc == old(m).pc,
        final(m).rel_base == old(m).rel_base,
        ({
            let s = FState {
                sr: old(m).sr@,
                rel: old(m).rel_base,
                ins: Seq::<i64>::empty(),
                outs: Seq::<i64>::empty(),
            };
            match fix_arith(s, a, b, c, is_add) {
                FixOut::Next(s2, _) => r == Some(()) && final(m).sr@ == s2.sr,
                _ => r == None::<()> && final(m).sr@ == old(m).sr@,
            }
        }),
{
    let x = match m.get(a) {
        Some(x) => x,
        None => { return None; },
    };
    let y = match m.get(b) {
        Some(y) => y,
        None => { return None; },
    };
    let v = if is_add {
        x.wrapping_add(y)
    } else {
        x.wrapping_mul(y)
    };
    m.set(c, v)
}

/// A comparison against the live memory.
fn exec_compare(m: &mut Machine, a: Operand, b: Operand, c: Operand, is_less: bool) -> (r: Option<
    (),
>)
    ensures
        final(m).pc == old(m).pc,
        final(m).rel_base == old(m).rel_base,
        ({
            let s = FState {
                sr: old(m).sr@,
                rel: old(m).rel_base,
                ins: Seq::<i64>::empty(),
                outs: Seq::<i64>::empty(),
            };
            match fix_compare(s, a, b, c, is_less) {
                FixOut::Next(s2, _) => r == Some(()) && final(m).sr@ == s2.sr,
                _ => r == None::<()> && final(m).sr@ == old(m).sr@,
            }
        }),
{
    let x = match m.get(a) {
        Some(x) => x,
        None => { return None; },
    };
    let y = match m.get(b) {
        Some(y) => y,
        None => { return None; },
    };
    let hit = if is_less {
        x < y
    } else {
        x == y
    };
    m.set(c, if hit { 1 } else { 0 })
}

/// A conditional jump: resolves where control continues, as block and
/// instruction indices.
fn exec_jump(
    m: &Machine,
    blocks: &Vec<Block>,
    a: Operand,
    b: Operand,
    when_nonzero: bool,
    bi: usize,
    oi: usize,
) -> (r: Result<(usize, usize), JitError>)
    requires
        oi < usize::MAX,
    ensures
        ({
            let s = FState {
                sr: m.sr@,
                rel: m.rel_base,
                ins: Seq::<i64>::empty(),
                outs: Seq::<i64>::empty(),
            };
            match fix_jump(s, a, b, when_nonzero) {
                FixOut::Next(s2, FixFlow::Ahead) => r == Ok::<(usize, usize), JitError>(
                    (bi, (oi + 1) as usize),
                ),
                FixOut::Next(s2, FixFlow::Goto(l)) => match spec_find_block(blocks@, l) {
                    Some(bj) => r == Ok::<(usize, usize), JitError>((bj as usize, 0usize)) && 0
                        <= bj < blocks@.len(),
                    None => r == Err::<(usize, usize), JitError>(JitError::MissingBlock(l)),
                },
                _ => r == Err::<(usize, usize), JitError>(JitError::Vm(VmError::AddressFault)),
            }
        }),
{
    let v = match m.get(a) {
        Some(v) => v,
        None => { return Err(JitError::Vm(VmError::AddressFault)); },
    };
    let taken = if when_nonzero {
        v != 0
    } else {
        v == 0
    };
    if taken {
        let t = match m.get(b) {
            Some(t) => t,
            None => { return Err(JitError::Vm(VmError::AddressFault)); },
        };
        let l = to_index(t);
        match find_block(blocks, l) {
            Some(bj) => Ok((bj, 0)),
            None => Err(JitError::MissingBlock(l)),
        }
    } else {
        Ok((bi, oi + 1))
    }
}

/// Converts a word to a cell index, clamping anything unaddressable to the
/// largest (never allocatable) index.
fn to_index(x: i64) -> (r: usize)
    ensures
        r == crate::machine::pos_index(x),
{
    if 0 <= x && (x as u64) <= (usize::MAX as u64) {
        x as usize
    } else {
        usize::MAX
    }
}

} // verus!
