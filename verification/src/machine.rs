use vstd::prelude::*;

verus! {

/// Memory images are padded with zero cells up to this size, so programs
/// can use scratch space past the end of their own code.
pub const MEMORY_SIZE: usize = 4096;

/// The machine gives up and reports a fault after this many instructions
/// without an input request, an output, or a halt.
pub const STEP_LIMIT: u64 = 0xffff_ffff_ffff_ffff;

/// The full machine: flat signed 64-bit memory, a program counter, and a
/// relative-base register that relative operands are offset against. It is
/// driven through `run`, which executes until the program needs input,
/// produces output, halts, or faults.
pub struct Machine {
    pub sr: Vec<i64>,
    pub pc: usize,
    pub rel_base: i64,
}

/// An operand of the full machine: an absolute cell index, a literal, or an
/// offset against the relative base.
#[derive(Debug, Clone, Copy, PartialEq, Eq)]
pub enum Operand {
    Pos(usize),
    Imm(i64),
    Rel(i64),
}

/// One decoded instruction of the full machine. `Invalid` stands for a
/// well-formed word whose opcode is unknown, so a caller can tell running
/// off the program from a real halt.
#[derive(Debug, Clone, Copy, PartialEq, Eq)]
pub enum Op {
    Add(Operand, Operand, Operand),
    Mul(Operand, Operand, Operand),
    Inp(Operand),
    Out(Operand),
    Jit(Operand, Operand),
    Jif(Operand, Operand),
    Ltn(Operand, Operand, Operand),
    Equ(Operand, Operand, Operand),
    Crb(Operand),
    Halt,
    Invalid,
}

/// Why a run stopped making progress.
#[derive(Debug, Clone, Copy, PartialEq, Eq)]
pub enum VmError {
    /// Unknown opcode, unknown mode digit, negative instruction word, or a
    /// program counter outside memory.
    DecodeFault,
    /// A read or write through an operand that names no allocated cell, or
    /// a write to a literal.
    AddressFault,
    /// The step budget ran out before the program did anything observable.
    StepLimit,
}

/// What a `run` call reports back: the machine wants a value, has produced
/// one, or has executed a halt.
#[derive(Debug, Clone, Copy, PartialEq, Eq)]
pub enum RunState {
    NeedInput,
    Output(i64),
    Halted,
}

/// The machine state the specification speaks of: memory, program counter,
/// relative base, and the not-yet-consumed input handed to `run`.
pub struct MState {
    pub sr: Seq<i64>,
    pub pc: int,
    pub rel: i64,
    pub inp: Option<i64>,
}

/// A word used as a cell index, clamped so that anything unaddressable
/// faults on use.
pub open spec fn pos_index(x: i64) -> usize {
    if 0 <= x <= usize::MAX {
        x as usize
    } else {
        usize::MAX
    }
}

/// The raw word at cell `i`, or a large sentinel beyond memory.
pub open spec fn word_at(sr: Seq<i64>, i: int) -> i64 {
    if 0 <= i < sr.len() {
        sr[i]
    } else {
        999999
    }
}

/// What a mode digit and a raw word decode to: positional, immediate, or
/// relative; any other digit is a decode fault.
pub open spec fn spec_operand(flag: int, x: i64) -> Option<Operand> {
    if flag == 0 {
        Some(Operand::Pos(pos_index(x)))
    } else if flag == 1 {
        Some(Operand::Imm(x))
    } else if flag == 2 {
        Some(Operand::Rel(x))
    } else {
        None
    }
}

/// Decoding one instruction of the full machine at cell `i`. A cell outside
/// memory, a negative word, or an unknown mode digit decodes to nothing; an
/// unknown opcode decodes to `Invalid` with length 1.
pub open spec fn spec_decode(sr: Seq<i64>, i: int) -> Option<(Op, usize)> {
    if !(0 <= i < sr.len()) {
        None
    } else if sr[i] < 0 {
        None
    } else {
        let w = sr[i] as int;
        let o = w % 100;
        let fa = (w / 100) % 10;
        let fb = (w / 1000) % 10;
        let fc = (w / 10000) % 10;
        let ra = word_at(sr, i + 1);
        let rb = word_at(sr, i + 2);
        let rc = word_at(sr, i + 3);
        match (spec_operand(fa, ra), spec_operand(fb, rb), spec_operand(fc, rc)) {
            (Some(a), Some(b), Some(c)) => if o == 1 {
                Some((Op::Add(a, b, c), 4))
            } else if o == 2 {
                Some((Op::Mul(a, b, c), 4))
            } else if o == 3 {
                Some((Op::Inp(a), 2))
            } else if o == 4 {
                Some((Op::Out(a), 2))
            } else if o == 5 {
                Some((Op::Jit(a, b), 3))
            } else if o == 6 {
                Some((Op::Jif(a, b), 3))
            } else if o == 7 {
                Some((Op::Ltn(a, b, c), 4))
            } else if o == 8 {
                Some((Op::Equ(a, b, c), 4))
            } else if o == 9 {
                Some((Op::Crb(a), 2))
            } else if o == 99 {
                Some((Op::Halt, 1))
            } else {
                Some((Op::Invalid, 1))
            },
            _ => None,
        }
    }
}

/// The cell a relative operand names: the relative base plus the offset,
/// if that lands on an addressable index.
pub open spec fn rel_index(rel: i64, off: i64) -> Option<usize> {
    if 0 <= rel + off <= i64::MAX && rel + off <= usize::MAX {
        Some((rel + off) as usize)
    } else {
        None
    }
}

/// Reading through an operand of the full machine.
pub open spec fn spec_read(sr: Seq<i64>, rel: i64, o: Operand) -> Option<i64> {
    match o {
        Operand::Imm(v) => Some(v),
        Operand::Pos(p) => if p < sr.len() {
            Some(sr[p as int])
        } else {
            None
        },
        Operand::Rel(off) => match rel_index(rel, off) {
            Some(p) => if p < sr.len() {
                Some(sr[p as int])
            } else {
                None
            },
            None => None,
        },
    }
}

/// Writing through an operand of the full machine; writing to a literal is
/// always illegal.
pub open spec fn spec_write(sr: Seq<i64>, rel: i64, o: Operand, v: i64) -> Option<Seq<i64>> {
    match o {
        Operand::Imm(_) => None,
        Operand::Pos(p) => if p < sr.len() {
            Some(sr.update(p as int, v))
        } else {
            None
        },
        Operand::Rel(off) => match rel_index(rel, off) {
            Some(p) => if p < sr.len() {
                Some(sr.update(p as int, v))
            } else {
                None
            },
            None => None,
        },
    }
}

/// One step of the full machine, as a relation on specification states.
pub enum StepRes {
    /// The instruction could not be decoded or touched an unaddressable
    /// cell; the state is unchanged.
    Fault(VmError),
    /// A halt was executed; the state is unchanged.
    Halted,
    /// The instruction wants input and none is pending; the state is
    /// unchanged.
    NeedInput,
    /// The instruction produced a value; the state after it.
    Emit(i64, MState),
    /// Any other instruction; the state after it.
    Next(MState),
}

/// The transition function of the full machine. Every fault leaves the
/// state exactly as it was.
#[verifier::opaque]
pub open spec fn mstep(s: MState) -> StepRes {
    match spec_decode(s.sr, s.pc) {
        None => StepRes::Fault(VmError::DecodeFault),
        Some((op, delta)) => {
            let pc2 = s.pc + delta;
            match op {
                Op::Invalid => StepRes::Fault(VmError::DecodeFault),
                Op::Halt => StepRes::Halted,
                Op::Add(a, b, c) => arith_step(s, pc2, a, b, c, true),
                Op::Mul(a, b, c) => arith_step(s, pc2, a, b, c, false),
                Op::Ltn(a, b, c) => compare_step(s, pc2, a, b, c, true),
                Op::Equ(a, b, c) => compare_step(s, pc2, a, b, c, false),
                Op::Jit(a, b) => jump_step(s, pc2, a, b, true),
                Op::Jif(a, b) => jump_step(s, pc2, a, b, false),
                Op::Crb(a) => match spec_read(s.sr, s.rel, a) {
                    Some(v) => StepRes::Next(
                        MState {
                            sr: s.sr,
                            pc: pc2,
                            rel: vstd::wrapping::i64_specs::wrapping_add(s.rel, v),
                            inp: s.inp,
                        },
                    ),
                    None => StepRes::Fault(VmError::AddressFault),
                },
                Op::Inp(a) => match s.inp {
                    Some(v) => match spec_write(s.sr, s.rel, a, v) {
                        Some(sr2) => StepRes::Next(
                            MState { sr: sr2, pc: pc2, rel: s.rel, inp: None },
                        ),
                        None => StepRes::Fault(VmError::AddressFault),
                    },
                    None => StepRes::NeedInput,
                },
                Op::Out(a) => match spec_read(s.sr, s.rel, a) {
                    Some(v) => StepRes::Emit(
                        v,
                        MState { sr: s.sr, pc: pc2, rel: s.rel, inp: s.inp },
                    ),
                    None => StepRes::Fault(VmError::AddressFault),
                },
            }
        },
    }
}

/// An add or multiply of the full machine: both sources read, the wrapped
/// result written.
pub open spec fn arith_step(s: MState, pc2: int, a: Operand, b: Operand, c: Operand, is_add: bool) -> StepRes {
    match (spec_read(s.sr, s.rel, a), spec_read(s.sr, s.rel, b)) {
        (Some(x), Some(y)) => {
            let v = if is_add {
                vstd::wrapping::i64_specs::wrapping_add(x, y)
            } else {
                vstd::wrapping::i64_specs::wrapping_mul(x, y)
            };
            match spec_write(s.sr, s.rel, c, v) {
                Some(sr2) => StepRes::Next(MState { sr: sr2, pc: pc2, rel: s.rel, inp: s.inp }),
                None => StepRes::Fault(VmError::AddressFault),
            }
        },
        _ => StepRes::Fault(VmError::AddressFault),
    }
}

/// A comparison of the full machine: writes 1 or 0.
pub open spec fn compare_step(s: MState, pc2: int, a: Operand, b: Operand, c: Operand, is_less: bool) -> StepRes {
    match (spec_read(s.sr, s.rel, a), spec_read(s.sr, s.rel, b)) {
        (Some(x), Some(y)) => {
            let hit = if is_less {
                x < y
            } else {
                x == y
            };
            match spec_write(s.sr, s.rel, c, if hit { 1i64 } else { 0i64 }) {
                Some(sr2) => StepRes::Next(MState { sr: sr2, pc: pc2, rel: s.rel, inp: s.inp }),
                None => StepRes::Fault(VmError::AddressFault),
            }
        },
        _ => StepRes::Fault(VmError::AddressFault),
    }
}

/// A conditional jump of the full machine.
pub open spec fn jump_step(s: MState, pc2: int, a: Operand, b: Operand, when_nonzero: bool) -> StepRes {
    match spec_read(s.sr, s.rel, a) {
        Some(v) => if (v != 0) == when_nonzero {
            match spec_read(s.sr, s.rel, b) {
                Some(t) => StepRes::Next(
                    MState { sr: s.sr, pc: pos_index(t) as int, rel: s.rel, inp: s.inp },
                ),
                None => StepRes::Fault(VmError::AddressFault),
            }
        } else {
            StepRes::Next(MState { sr: s.sr, pc: pc2, rel: s.rel, inp: s.inp })
        },
        None => StepRes::Fault(VmError::AddressFault),
    }
}

/// `s2` lies exactly `n` quiet steps after `s1`.
pub open spec fn reach_n(s1: MState, s2: MState, n: nat) -> bool
    decreases n,
{
    if n == 0 {
        s1 == s2
    } else {
        exists|mid: MState|
            mstep(s1) == StepRes::Next(mid) && reach_n(mid, s2, (n - 1) as nat)
    }
}

/// `s2` lies some number of quiet steps after `s1`.
pub open spec fn reaches(s1: MState, s2: MState) -> bool {
    exists|n: nat| reach_n(s1, s2, n)
}

/// A quiet-step chain can be extended by one more quiet step on the right.
pub proof fn lemma_reach_extend(s0: MState, s1: MState, s2: MState, n: nat)
    requires
        reach_n(s0, s1, n),
        mstep(s1) == StepRes::Next(s2),
    ensures
        reach_n(s0, s2, n + 1),
    decreases n,
{
    if n == 0 {
        assert(reach_n(s2, s2, 0));
    } else {
        let mid = choose|mid: MState|
            mstep(s0) == StepRes::Next(mid) && reach_n(mid, s1, (n - 1) as nat);
        lemma_reach_extend(mid, s1, s2, (n - 1) as nat);
        assert(mstep(s0) == StepRes::Next(mid) && reach_n(mid, s2, n));
    }
}

/// A state whose current instruction cannot be decoded steps to a decode
/// fault.
pub proof fn lemma_mstep_decode_fault(s: MState)
    requires
        spec_decode(s.sr, s.pc) is None,
    ensures
        mstep(s) == StepRes::Fault(VmError::DecodeFault),
{
    reveal(crate::machine::mstep);
}

/// The memory image `s`, zero-padded up to `MEMORY_SIZE` cells.
pub open spec fn padded(s: Seq<i64>) -> Seq<i64> {
    if s.len() >= MEMORY_SIZE {
        s
    } else {
        s + Seq::new((MEMORY_SIZE - s.len()) as nat, |i: int| 0i64)
    }
}

impl Machine {
    /// The specification state of this machine, with `inp` pending input.
    pub open spec fn st(&self, inp: Option<i64>) -> MState {
        MState { sr: self.sr@, pc: self.pc as int, rel: self.rel_base, inp }
    }

    /// Builds a machine over a zero-padded copy of the memory image, with
    /// the counter at the first cell and the relative base at zero.
    pub fn new(input: &[i64]) -> (m: Self)
        ensures
            m.sr@ == padded(input@),
            m.pc == 0,
            m.rel_base == 0,
    {
        let mut sr = crate::copy_cells(input);
        while sr.len() < MEMORY_SIZE
            invariant
                input@.len() <= sr@.len() ==> sr@ == padded(input@).subrange(0, sr@.len() as int),
            sr@.len() >= input@.len(),
            sr@.len() <= padded(input@).len() || sr@ == input@,
            decreases MEMORY_SIZE - sr@.len(),
        {
            sr.push(0);
        }
        proof {
            assert(sr@ =~= padded(input@));
        }
        Machine { sr, pc: 0, rel_base: 0 }
    }

    /// Decodes the instruction at the program counter without touching
    /// anything.
    pub fn peek(&self) -> (r: Option<(Op, usize)>)
        ensures
            r == spec_decode(self.sr@, self.pc as int),
    {
        self.peek_at(self.pc)
    }

    /// Decodes the instruction at cell `i` without touching anything.
    pub fn peek_at(&self, i: usize) -> (r: Option<(Op, usize)>)
        ensures
            r == spec_decode(self.sr@, i as int),
    {
        if i >= self.sr.len() {
            return None;
        }
        let w = self.sr[i];
        if w < 0 {
            return None;
        }
        let o = w % 100;
        let fa = (w / 100) % 10;
        let fb = (w / 1000) % 10;
        let fc = (w / 10000) % 10;
        let ra = self.word(i, 1);
        let rb = self.word(i, 2);
        let rc = self.word(i, 3);
        let a = match operand_of(fa, ra) {
            Some(a) => a,
            None => { return None; },
        };
        let b = match operand_of(fb, rb) {
            Some(b) => b,
            None => { return None; },
        };
        let c = match operand_of(fc, rc) {
            Some(c) => c,
            None => { return None; },
        };
        match o {
            1 => Some((Op::Add(a, b, c), 4)),
            2 => Some((Op::Mul(a, b, c), 4)),
            3 => Some((Op::Inp(a), 2)),
            4 => Some((Op::Out(a), 2)),
            5 => Some((Op::Jit(a, b), 3)),
            6 => Some((Op::Jif(a, b), 3)),
            7 => Some((Op::Ltn(a, b, c), 4)),
            8 => Some((Op::Equ(a, b, c), 4)),
            9 => Some((Op::Crb(a), 2)),
            99 => Some((Op::Halt, 1)),
            _ => Some((Op::Invalid, 1)),
        }
    }

    /// The raw word `off` cells past `i`, or the sentinel beyond memory.
    fn word(&self, i: usize, off: usize) -> (r: i64)
        ensures
            r == word_at(self.sr@, i + off),
    {
        let n = self.sr.len();
        match i.checked_add(off) {
            Some(j) => if j < n {
                self.sr[j]
            } else {
                999999
            },
            None => 999999,
        }
    }

    /// Reads through an operand.
    pub(crate) fn get(&self, o: Operand) -> (r: Option<i64>)
        ensures
            r == spec_read(self.sr@, self.rel_base, o),
    {
        match o {
            Operand::Imm(v) => Some(v),
            Operand::Pos(p) => if p < self.sr.len() {
                Some(self.sr[p])
            } else {
                None
            },
            Operand::Rel(off) => match self.rel_base.checked_add(off) {
                Some(s) => if 0 <= s && (s as u64) <= (usize::MAX as u64) {
                    let p = s as usize;
                    if p < self.sr.len() {
                        Some(self.sr[p])
                    } else {
                        None
                    }
                } else {
                    None
                },
                None => None,
            },
        }
    }

    /// Writes through an operand; on failure nothing changes.
    pub(crate) fn set(&mut self, o: Operand, val: i64) -> (r: Option<()>)
        ensures
            final(self).pc == old(self).pc,
            final(self).rel_base == old(self).rel_base,
            match spec_write(old(self).sr@, old(self).rel_base, o, val) {
                Some(sr2) => r == Some(()) && final(self).sr@ == sr2,
                None => r == None::<()> && final(self).sr@ == old(self).sr@,
            },
    {
        match o {
            Operand::Imm(_) => None,
            Operand::Pos(p) => if p < self.sr.len() {
                self.sr.set(p, val);
                Some(())
            } else {
                None
            },
            Operand::Rel(off) => match self.rel_base.checked_add(off) {
                Some(s) => if 0 <= s && (s as u64) <= (usize::MAX as u64) {
                    let p = s as usize;
                    if p < self.sr.len() {
                        self.sr.set(p, val);
                        Some(())
                    } else {
                        None
                    }
                } else {
                    None
                },
                None => None,
            },
        }
    }

    /// Executes the single instruction at the program counter, with `inp`
    /// as the pending input. Mirrors `mstep` exactly; every fault, the halt
    /// and the input request leave the machine untouched.
    fn step_core(&mut self, inp: &mut Option<i64>) -> (r: StepOutcome)
        requires
            old(self).sr@.len() + 4 <= usize::MAX,
        ensures
            final(self).sr@.len() == old(self).sr@.len(),
            *old(inp) == None::<i64> ==> *final(inp) == None::<i64>,
            match mstep(old(self).st(*old(inp))) {
                StepRes::Next(s2) => r == StepOutcome::Quiet && final(self).st(*final(inp))
                    == s2,
                StepRes::NeedInput => r == StepOutcome::NeedIn && *old(inp) == None::<i64>
                    && final(self).st(*final(inp)) == old(self).st(*old(inp)),
                StepRes::Emit(v, s2) => r == StepOutcome::Emitted(v) && *final(inp) == *old(inp)
                    && final(self).st(*final(inp)) == s2,
                StepRes::Halted => r == StepOutcome::Stopped && final(self).st(*final(inp))
                    == old(self).st(*old(inp)),
                StepRes::Fault(e) => r == StepOutcome::Failed(e) && e != VmError::StepLimit
                    && final(self).st(*final(inp)) == old(self).st(*old(inp)),
            },
    {
        proof {
            reveal(crate::machine::mstep);
        }
        let (op, delta) = match self.peek() {
            Some(x) => x,
            None => { return StepOutcome::Failed(VmError::DecodeFault); },
        };
        let pc2 = self.pc + delta;
        match op {
            Op::Invalid => StepOutcome::Failed(VmError::DecodeFault),
            Op::Halt => StepOutcome::Stopped,
            Op::Add(a, b, c) => self.arith(a, b, c, pc2, true),
            Op::Mul(a, b, c) => self.arith(a, b, c, pc2, false),
            Op::Ltn(a, b, c) => self.compare(a, b, c, pc2, true),
            Op::Equ(a, b, c) => self.compare(a, b, c, pc2, false),
            Op::Jit(a, b) => self.jump(a, b, pc2, true),
            Op::Jif(a, b) => self.jump(a, b, pc2, false),
            Op::Crb(a) => {
                let v = match self.get(a) {
                    Some(v) => v,
                    None => { return StepOutcome::Failed(VmError::AddressFault); },
                };
                self.rel_base = self.rel_base.wrapping_add(v);
                self.pc = pc2;
                StepOutcome::Quiet
            },
            Op::Inp(a) => {
                let v = match *inp {
                    Some(v) => v,
                    None => { return StepOutcome::NeedIn; },
                };
                match self.set(a, v) {
                    Some(_) => {
                        *inp = None;
                        self.pc = pc2;
                        StepOutcome::Quiet
                    },
                    None => StepOutcome::Failed(VmError::AddressFault),
                }
            },
            Op::Out(a) => {
                let v = match self.get(a) {
                    Some(v) => v,
                    None => { return StepOutcome::Failed(VmError::AddressFault); },
                };
                self.pc = pc2;
                StepOutcome::Emitted(v)
            },
        }
    }

    /// An add or multiply.
    fn arith(&mut self, a: Operand, b: Operand, c: Operand, pc2: usize, is_add: bool) -> (r:
        StepOutcome)
        requires
            spec_decode(old(self).sr@, old(self).pc as int) matches Some((op, delta)) && (if is_add {
                op == Op::Add(a, b, c)
            } else {
                op == Op::Mul(a, b, c)
            }) && pc2 == old(self).pc + delta,
        ensures
            forall|inp: Option<i64>| #![trigger old(self).st(inp)]
                match mstep(old(self).st(inp)) {
                    StepRes::Next(s2) => r == StepOutcome::Quiet && final(self).st(inp) == s2,
                    StepRes::Fault(e) => r == StepOutcome::Failed(e) && final(self).st(inp)
                        == old(self).st(inp),
                    _ => false,
                },
    {
        proof {
            reveal(crate::machine::mstep);
        }
        let x = match self.get(a) {
            Some(x) => x,
            None => { return StepOutcome::Failed(VmError::AddressFault); },
        };
        let y = match self.get(b) {
            Some(y) => y,
            None => { return StepOutcome::Failed(VmError::AddressFault); },
        };
        let v = if is_add {
            x.wrapping_add(y)
        } else {
            x.wrapping_mul(y)
        };
        match self.set(c, v) {
            Some(_) => {
                self.pc = pc2;
                StepOutcome::Quiet
            },
            None => StepOutcome::Failed(VmError::AddressFault),
        }
    }

    /// A less-than or equals comparison.
    fn compare(&mut self, a: Operand, b: Operand, c: Operand, pc2: usize, is_less: bool) -> (r:
        StepOutcome)
        requires
            spec_decode(old(self).sr@, old(self).pc as int) matches Some((op, delta)) && (if is_less {
                op == Op::Ltn(a, b, c)
            } else {
                op == Op::Equ(a, b, c)
            }) && pc2 == old(self).pc + delta,
        ensures
            forall|inp: Option<i64>| #![trigger old(self).st(inp)]
                match mstep(old(self).st(inp)) {
                    StepRes::Next(s2) => r == StepOutcome::Quiet && final(self).st(inp) == s2,
                    StepRes::Fault(e) => r == StepOutcome::Failed(e) && final(self).st(inp)
                        == old(self).st(inp),
                    _ => false,
                },
    {
        proof {
            reveal(crate::machine::mstep);
        }
        let x = match self.get(a) {
            Some(x) => x,
            None => { return StepOutcome::Failed(VmError::AddressFault); },
        };
        let y = match self.get(b) {
            Some(y) => y,
            None => { return StepOutcome::Failed(VmError::AddressFault); },
        };
        let hit = if is_less {
            x < y
        } else {
            x == y
        };
        match self.set(c, if hit { 1 } else { 0 }) {
            Some(_) => {
                self.pc = pc2;
                StepOutcome::Quiet
            },
            None => StepOutcome::Failed(VmError::AddressFault),
        }
    }

    /// A conditional jump.
    fn jump(&mut self, a: Operand, b: Operand, pc2: usize, when_nonzero: bool) -> (r: StepOutcome)
        requires
            spec_decode(old(self).sr@, old(self).pc as int) matches Some((op, delta)) && (if
                when_nonzero {
                op == Op::Jit(a, b)
            } else {
                op == Op::Jif(a, b)
            }) && pc2 == old(self).pc + delta,
        ensures
            forall|inp: Option<i64>| #![trigger old(self).st(inp)]
                match mstep(old(self).st(inp)) {
                    StepRes::Next(s2) => r == StepOutcome::Quiet && final(self).st(inp) == s2,
                    StepRes::Fault(e) => r == StepOutcome::Failed(e) && final(self).st(inp)
                        == old(self).st(inp),
                    _ => false,
                },
    {
        proof {
            reveal(crate::machine::mstep);
        }
        let v = match self.get(a) {
            Some(v) => v,
            None => { return StepOutcome::Failed(VmError::AddressFault); },
        };
        let taken = if when_nonzero {
            v != 0
        } else {
            v == 0
        };
        if taken {
            let t = match self.get(b) {
                Some(t) => t,
                None => { return StepOutcome::Failed(VmError::AddressFault); },
            };
            self.pc = to_index(t);
        } else {
            self.pc = pc2;
        }
        StepOutcome::Quiet
    }

    /// Executes instructions until the program asks for input it does not
    /// have, produces an output, halts, or faults. A pending `input` value
    /// is consumed by the first input instruction executed. The result is
    /// exactly what `mstep` prescribes for the first non-quiet state
    /// reachable from the starting state.
    #[verifier::rlimit(100)]
    pub fn run(&mut self, input: Option<i64>) -> (r: Result<RunState, VmError>)
        requires
            old(self).sr@.len() + 4 <= usize::MAX,
        ensures
            ({
                let s0 = old(self).st(input);
                match r {
                    Ok(RunState::NeedInput) => reaches(s0, final(self).st(None)) && mstep(
                        final(self).st(None),
                    ) == StepRes::NeedInput,
                    Ok(RunState::Output(v)) => exists|s2: MState, s3: MState|
                        reaches(s0, s2) && mstep(s2) == StepRes::Emit(v, s3) && final(self).st(
                            s3.inp,
                        ) == s3,
                    Ok(RunState::Halted) => exists|s2: MState|
                        reaches(s0, s2) && mstep(s2) == StepRes::Halted && final(self).st(s2.inp)
                            == s2,
                    Err(VmError::StepLimit) => exists|s2: MState|
                        reach_n(s0, s2, STEP_LIMIT as nat) && final(self).st(s2.inp) == s2,
                    Err(e) => exists|s2: MState|
                        reaches(s0, s2) && mstep(s2) == StepRes::Fault(e)
                            && (final(self).st(s2.inp) == s2),
                }
            }),
    {
        let ghost s0 = old(self).st(input);
        let mut inp = input;
        let mut fuel: u64 = STEP_LIMIT;
        let ghost mut steps: nat = 0;
        loop
            invariant
                s0 == old(self).st(input),
                self.sr@.len() + 4 <= usize::MAX,
                1 <= fuel <= STEP_LIMIT,
                steps == STEP_LIMIT - fuel,
                reach_n(s0, self.st(inp), steps),
            decreases fuel,
        {
            let ghost cur = self.st(inp);
            match self.step_core(&mut inp) {
                StepOutcome::Quiet => {
                    proof {
                        lemma_reach_extend(s0, cur, self.st(inp), steps);
                        steps = steps + 1;
                    }
                },
                StepOutcome::NeedIn => {
                    proof {
                        assert(self.st(inp) == cur);
                        assert(cur.inp == None::<i64>);
                        assert(cur == self.st(None));
                        assert(reach_n(s0, self.st(None), steps));
                        assert(reaches(s0, self.st(None)));
                        assert(mstep(self.st(None)) == StepRes::NeedInput);
                    }
                    return Ok(RunState::NeedInput);
                },
                StepOutcome::Emitted(v) => {
                    proof {
                        assert(reach_n(s0, cur, steps));
                        assert(reaches(s0, cur));
                    }
                    return Ok(RunState::Output(v));
                },
                StepOutcome::Stopped => {
                    proof {
                        assert(reach_n(s0, cur, steps));
                        assert(reaches(s0, cur));
                        assert(self.st(inp) == cur);
                        assert(self.st(cur.inp) == cur);
                    }
                    return Ok(RunState::Halted);
                },
                StepOutcome::Failed(e) => {
                    proof {
                        assert(reach_n(s0, cur, steps));
                        assert(reaches(s0, cur));
                        assert(self.st(inp) == cur);
                        assert(self.st(cur.inp) == cur);
                    }
                    return Err(e);
                },
            }
            fuel = fuel - 1;
            if fuel == 0 {
                proof {
                    assert(steps == STEP_LIMIT as nat);
                    assert(reach_n(s0, self.st(inp), STEP_LIMIT as nat));
                    assert(self.st(self.st(inp).inp) == self.st(inp));
                }
                return Err(VmError::StepLimit);
            }
        }
    }

    /// Executes one already-decoded instruction for the fallback path of
    /// compiled code: quiet instructions run against the live memory;
    /// input, output and halt are reported back unexecuted, since this path
    /// has no capabilities of its own.
    pub fn apply(&mut self, op: Op, delta: usize) -> (r: Result<Option<RunState>, VmError>)
        requires
            old(self).sr@.len() + 4 <= usize::MAX,
            spec_decode(old(self).sr@, old(self).pc as int) == Some::<(Op, usize)>((op, delta)),
        ensures
            final(self).sr@.len() == old(self).sr@.len(),
            match mstep(old(self).st(None)) {
                StepRes::Next(s2) => r == Ok::<Option<RunState>, VmError>(None)
                    && final(self).st(None) == s2,
                StepRes::NeedInput => r == Ok::<Option<RunState>, VmError>(
                    Some(RunState::NeedInput),
                ) && final(self).st(None) == old(self).st(None),
                StepRes::Emit(v, s2) => r == Ok::<Option<RunState>, VmError>(
                    Some(RunState::Output(v)),
                ) && final(self).st(None) == s2,
                StepRes::Halted => r == Ok::<Option<RunState>, VmError>(Some(RunState::Halted))
                    && final(self).st(None) == old(self).st(None),
                StepRes::Fault(e) => r == Err::<Option<RunState>, VmError>(e)
                    && final(self).st(None) == old(self).st(None),
            },
    {
        let mut inp: Option<i64> = None;
        match self.step_core(&mut inp) {
            StepOutcome::Quiet => Ok(None),
            StepOutcome::NeedIn => Ok(Some(RunState::NeedInput)),
            StepOutcome::Emitted(v) => Ok(Some(RunState::Output(v))),
            StepOutcome::Stopped => Ok(Some(RunState::Halted)),
            StepOutcome::Failed(e) => Err(e),
        }
    }
}

/// The result of one executed instruction, as `step_core` reports it.
#[derive(Debug, Clone, Copy, PartialEq, Eq)]
pub enum StepOutcome {
    Quiet,
    NeedIn,
    Emitted(i64),
    Stopped,
    Failed(VmError),
}

/// Decodes one mode digit and its raw word for the full machine.
fn operand_of(flag: i64, x: i64) -> (r: Option<Operand>)
    ensures
        r == spec_operand(flag as int, x),
{
    match flag {
        0 => Some(Operand::Pos(to_index(x))),
        1 => Some(Operand::Imm(x)),
        2 => Some(Operand::Rel(x)),
        _ => None,
    }
}

/// Converts a word to a cell index, clamping anything unaddressable to the
/// largest (never allocatable) index.
fn to_index(x: i64) -> (r: usize)
    ensures
        r == pos_index(x),
{
    if 0 <= x && (x as u64) <= (usize::MAX as u64) {
        x as usize
    } else {
        usize::MAX
    }
}

} // verus!
