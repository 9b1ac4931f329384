use vstd::prelude::*;

verus! {

/// The machine with addressing modes and pluggable input/output capabilities.
/// Nine opcodes: add, multiply, input, output, two conditional jumps, two
/// comparisons, and halt. Each instruction word carries its opcode in the two
/// low decimal digits and one addressing-mode digit per operand above them.
pub struct IoComputer<I: Input, O: Output> {
    pub sr: Vec<i64>,
    pub pc: usize,
    pub input: I,
    pub output: O,
}

/// A machine wired to capabilities that fault on use: purely computational
/// programs only.
pub type Computer = IoComputer<NoStream, NoStream>;

/// A source of input values. `remaining` is the sequence of values the
/// source will still produce, front to back.
pub trait Input: Sized {
    spec fn remaining(&self) -> Seq<i64>;

    fn init() -> (r: Self)
        ensures
            r.remaining() == Seq::<i64>::empty(),
    ;

    fn read(&mut self) -> (r: i64)
        requires
            old(self).remaining().len() > 0,
        ensures
            r == old(self).remaining()[0],
            final(self).remaining() == old(self).remaining().skip(1),
    ;
}

/// A sink for output values. `collected` is the sequence of values accepted
/// so far, in order.
pub trait Output: Sized {
    spec fn collected(&self) -> Seq<i64>;

    /// Whether the sink can accept values at all; writing to one that
    /// cannot is a caller bug, not a machine fault.
    spec fn accepts(&self) -> bool;

    fn init() -> (r: Self)
        ensures
            r.collected() == Seq::<i64>::empty(),
    ;

    fn write(&mut self, val: i64)
        requires
            old(self).accepts(),
        ensures
            final(self).collected() == old(self).collected().push(val),
            final(self).accepts(),
    ;
}

/// One decoded instruction.
#[derive(Debug, Clone, Copy, PartialEq, Eq)]
pub enum Op {
    Add(Operand, Operand, Operand),
    Mul(Operand, Operand, Operand),
    Inp(Operand),
    Out(Operand),
    Jit(Operand, Operand),
    Jif(Operand, Operand),
    Ltn(Operand, Operand, Operand),
    Equ(Operand, Operand, Operand),
    Halt,
}

/// An operand: either an absolute cell index or a literal value.
#[derive(Debug, Clone, Copy, PartialEq, Eq)]
pub enum Operand {
    Pos(usize),
    Imm(i64),
}

/// A word used as a cell index. A negative word wraps far past any
/// allocatable memory; so does a word too large for an index. Using such an
/// index faults.
pub open spec fn pos_index(x: i64) -> usize {
    if 0 <= x <= usize::MAX {
        x as usize
    } else {
        usize::MAX
    }
}

/// The raw word at cell `i`, or a large sentinel for cells beyond the end of
/// memory; any error is deferred to actual use.
pub open spec fn word_at(sr: Seq<i64>, i: int) -> i64 {
    if 0 <= i < sr.len() {
        sr[i]
    } else {
        999999
    }
}

/// What a mode digit and a raw word decode to: mode 0 is positional, mode 1
/// is immediate, and any other digit is a decode fault.
pub open spec fn spec_operand(flag: int, x: i64) -> Option<Operand> {
    if flag == 0 {
        Some(Operand::Pos(pos_index(x)))
    } else if flag == 1 {
        Some(Operand::Imm(x))
    } else {
        None
    }
}

/// Decoding one instruction at cell `i`: the opcode is the instruction word
/// modulo 100 and the mode digits sit above it, one decimal digit per
/// operand. Yields the instruction and its encoded length, or nothing on a
/// decode fault (index out of memory, negative instruction word, unknown
/// mode digit, or unknown opcode).
pub open spec fn spec_decode(sr: Seq<i64>, i: int) -> Option<(Op, usize)> {
    if !(0 <= i < sr.len()) {
        None
    } else if sr[i] < 0 {
        None
    } else {
        let w = sr[i] as int;
        let o = w % 100;
        let fa = (w / 100) % 10;
        let fb = (w / 1000) % 10;
        let fc = (w / 10000) % 10;
        let ra = word_at(sr, i + 1);
        let rb = word_at(sr, i + 2);
        let rc = word_at(sr, i + 3);
        match (spec_operand(fa, ra), spec_operand(fb, rb), spec_operand(fc, rc)) {
            (Some(a), Some(b), Some(c)) => if o == 1 {
                Some((Op::Add(a, b, c), 4))
            } else if o == 2 {
                Some((Op::Mul(a, b, c), 4))
            } else if o == 3 {
                Some((Op::Inp(a), 2))
            } else if o == 4 {
                Some((Op::Out(a), 2))
            } else if o == 5 {
                Some((Op::Jit(a, b), 3))
            } else if o == 6 {
                Some((Op::Jif(a, b), 3))
            } else if o == 7 {
                Some((Op::Ltn(a, b, c), 4))
            } else if o == 8 {
                Some((Op::Equ(a, b, c), 4))
            } else if o == 99 {
                Some((Op::Halt, 1))
            } else {
                None
            },
            _ => None,
        }
    }
}

/// Reading through an operand: a literal yields itself; a cell index yields
/// the cell, or faults outside memory.
pub open spec fn spec_get(sr: Seq<i64>, o: Operand) -> Option<i64> {
    match o {
        Operand::Imm(v) => Some(v),
        Operand::Pos(p) => if p < sr.len() {
            Some(sr[p as int])
        } else {
            None
        },
    }
}

/// Writing through an operand: writing to a literal is always illegal;
/// writing to a cell index outside memory faults.
pub open spec fn spec_set(sr: Seq<i64>, o: Operand, v: i64) -> Option<Seq<i64>> {
    match o {
        Operand::Imm(_) => None,
        Operand::Pos(p) => if p < sr.len() {
            Some(sr.update(p as int, v))
        } else {
            None
        },
    }
}

/// Everything one `step` call does, as a function of the memory, the program
/// counter, and the remaining input: the step result, the memory, counter
/// and input afterwards, and the value written to the output, if any.
pub struct StepEffect {
    pub result: Option<bool>,
    pub sr: Seq<i64>,
    pub pc: int,
    pub input: Seq<i64>,
    pub out: Option<i64>,
}

/// The transition relation of the machine, one instruction at a time.
/// Faults (`result` none) happen after the counter has advanced past the
/// instruction, with memory, input and output untouched; a taken jump moves
/// the counter to the target instead.
pub open spec fn step_effect(sr: Seq<i64>, pc: int, input: Seq<i64>) -> StepEffect {
    match spec_decode(sr, pc) {
        None => StepEffect { result: None, sr, pc, input, out: None },
        Some((op, delta)) => {
            let pc2 = pc + delta;
            match op {
                Op::Halt => StepEffect { result: Some(false), sr, pc: pc2, input, out: None },
                Op::Add(a, b, c) => arith_effect(sr, pc2, input, a, b, c, true),
                Op::Mul(a, b, c) => arith_effect(sr, pc2, input, a, b, c, false),
                Op::Inp(a) => if input.len() > 0 {
                    match spec_set(sr, a, input[0]) {
                        Some(sr2) => StepEffect {
                            result: Some(true),
                            sr: sr2,
                            pc: pc2,
                            input: input.skip(1),
                            out: None,
                        },
                        None => StepEffect {
                            result: None,
                            sr,
                            pc: pc2,
                            input: input.skip(1),
                            out: None,
                        },
                    }
                } else {
                    StepEffect { result: None, sr, pc: pc2, input, out: None }
                },
                Op::Out(a) => match spec_get(sr, a) {
                    Some(v) => StepEffect { result: Some(true), sr, pc: pc2, input, out: Some(v) },
                    None => StepEffect { result: None, sr, pc: pc2, input, out: None },
                },
                Op::Jit(a, b) => jump_effect(sr, pc2, input, a, b, true),
                Op::Jif(a, b) => jump_effect(sr, pc2, input, a, b, false),
                Op::Ltn(a, b, c) => compare_effect(sr, pc2, input, a, b, c, true),
                Op::Equ(a, b, c) => compare_effect(sr, pc2, input, a, b, c, false),
            }
        },
    }
}

/// Effect of an add or multiply: both sources read, the wrapped result
/// written to the destination.
pub open spec fn arith_effect(
    sr: Seq<i64>,
    pc2: int,
    input: Seq<i64>,
    a: Operand,
    b: Operand,
    c: Operand,
    is_add: bool,
) -> StepEffect {
    match (spec_get(sr, a), spec_get(sr, b)) {
        (Some(x), Some(y)) => {
            let v = if is_add {
                vstd::wrapping::i64_specs::wrapping_add(x, y)
            } else {
                vstd::wrapping::i64_specs::wrapping_mul(x, y)
            };
            match spec_set(sr, c, v) {
                Some(sr2) => StepEffect { result: Some(true), sr: sr2, pc: pc2, input, out: None },
                None => StepEffect { result: None, sr, pc: pc2, input, out: None },
            }
        },
        _ => StepEffect { result: None, sr, pc: pc2, input, out: None },
    }
}

/// Effect of a conditional jump: the counter moves to the target exactly
/// when the condition value compares against zero as the variant asks.
pub open spec fn jump_effect(
    sr: Seq<i64>,
    pc2: int,
    input: Seq<i64>,
    a: Operand,
    b: Operand,
    when_nonzero: bool,
) -> StepEffect {
    match spec_get(sr, a) {
        Some(v) => if (v != 0) == when_nonzero {
            match spec_get(sr, b) {
                Some(t) => StepEffect {
                    result: Some(true),
                    sr,
                    pc: pos_index(t) as int,
                    input,
                    out: None,
                },
                None => StepEffect { result: None, sr, pc: pc2, input, out: None },
            }
        } else {
            StepEffect { result: Some(true), sr, pc: pc2, input, out: None }
        },
        None => StepEffect { result: None, sr, pc: pc2, input, out: None },
    }
}

/// Effect of a comparison: writes 1 when the sources compare as the variant
/// asks, else 0.
pub open spec fn compare_effect(
    sr: Seq<i64>,
    pc2: int,
    input: Seq<i64>,
    a: Operand,
    b: Operand,
    c: Operand,
    is_less: bool,
) -> StepEffect {
    match (spec_get(sr, a), spec_get(sr, b)) {
        (Some(x), Some(y)) => {
            let hit = if is_less {
                x < y
            } else {
                x == y
            };
            match spec_set(sr, c, if hit { 1i64 } else { 0i64 }) {
                Some(sr2) => StepEffect { result: Some(true), sr: sr2, pc: pc2, input, out: None },
                None => StepEffect { result: None, sr, pc: pc2, input, out: None },
            }
        },
        _ => StepEffect { result: None, sr, pc: pc2, input, out: None },
    }
}

impl Operand {
    /// Decodes one mode digit and its raw word.
    pub fn new(flag: i64, x: i64) -> (r: Option<Self>)
        ensures
            r == spec_operand(flag as int, x),
    {
        match flag {
            0 => Some(Operand::Pos(to_index(x))),
            1 => Some(Operand::Imm(x)),
            _ => None,
        }
    }
}

/// Converts a word to a cell index, clamping anything unaddressable to the
/// largest (never allocatable) index.
fn to_index(x: i64) -> (r: usize)
    ensures
        r == pos_index(x),
{
    if 0 <= x && (x as u64) <= (usize::MAX as u64) {
        x as usize
    } else {
        usize::MAX
    }
}

impl<I: Input, O: Output> IoComputer<I, O> {
    /// Builds a machine over a copy of the given memory image, with freshly
    /// initialised capabilities.
    pub fn new(input: &[i64]) -> (c: Self)
        ensures
            c.sr@ == input@,
            c.pc == 0,
            c.input.remaining() == Seq::<i64>::empty(),
            c.output.collected() == Seq::<i64>::empty(),
    {
        IoComputer { sr: crate::copy_cells(input), pc: 0, input: Input::init(), output: Output::init() }
    }

    /// Builds a machine over a copy of the given program, wired to the given
    /// capabilities.
    pub fn with_io(program: &[i64], input: I, output: O) -> (c: Self)
        ensures
            c.sr@ == program@,
            c.pc == 0,
            c.input == input,
            c.output == output,
    {
        IoComputer { sr: crate::copy_cells(program), pc: 0, input, output }
    }

    /// Decodes the instruction at the program counter without touching
    /// anything.
    pub fn peek(&self) -> (r: Option<(Op, usize)>)
        ensures
            r == spec_decode(self.sr@, self.pc as int),
    {
        self.peek_at(self.pc)
    }

    /// Decodes the instruction at cell `i` without touching anything.
    /// Decoding is total: every failure is reported as a decode fault.
    pub fn peek_at(&self, i: usize) -> (r: Option<(Op, usize)>)
        ensures
            r == spec_decode(self.sr@, i as int),
    {
        if i >= self.sr.len() {
            return None;
        }
        let w = self.sr[i];
        if w < 0 {
            return None;
        }
        let o = w % 100;
        let fa = (w / 100) % 10;
        let fb = (w / 1000) % 10;
        let fc = (w / 10000) % 10;
        let ra = self.word(i, 1);
        let rb = self.word(i, 2);
        let rc = self.word(i, 3);
        let a = match Operand::new(fa, ra) {
            Some(a) => a,
            None => { return None; },
        };
        let b = match Operand::new(fb, rb) {
            Some(b) => b,
            None => { return None; },
        };
        let c = match Operand::new(fc, rc) {
            Some(c) => c,
            None => { return None; },
        };
        match o {
            1 => Some((Op::Add(a, b, c), 4)),
            2 => Some((Op::Mul(a, b, c), 4)),
            3 => Some((Op::Inp(a), 2)),
            4 => Some((Op::Out(a), 2)),
            5 => Some((Op::Jit(a, b), 3)),
            6 => Some((Op::Jif(a, b), 3)),
            7 => Some((Op::Ltn(a, b, c), 4)),
            8 => Some((Op::Equ(a, b, c), 4)),
            99 => Some((Op::Halt, 1)),
            _ => None,
        }
    }

    /// The raw word `off` cells past `i`, or the sentinel beyond memory.
    fn word(&self, i: usize, off: usize) -> (r: i64)
        ensures
            r == word_at(self.sr@, i + off),
    {
        let n = self.sr.len();
        match i.checked_add(off) {
            Some(j) => if j < n {
                self.sr[j]
            } else {
                999999
            },
            None => 999999,
        }
    }

    /// Reads through an operand.
    fn get(&self, o: Operand) -> (r: Option<i64>)
        ensures
            r == spec_get(self.sr@, o),
    {
        match o {
            Operand::Imm(v) => Some(v),
            Operand::Pos(p) => if p < self.sr.len() {
                Some(self.sr[p])
            } else {
                None
            },
        }
    }

    /// Writes through an operand; fails on a literal destination or a cell
    /// outside memory, leaving everything untouched.
    fn set(&mut self, o: Operand, val: i64) -> (r: Option<()>)
        ensures
            match spec_set(old(self).sr@, o, val) {
                Some(sr2) => r == Some(()) && final(self).sr@ == sr2,
                None => r == None::<()> && final(self).sr@ == old(self).sr@,
            },
            final(self).pc == old(self).pc,
            final(self).input == old(self).input,
            final(self).output == old(self).output,
    {
        match o {
            Operand::Imm(_) => None,
            Operand::Pos(p) => if p < self.sr.len() {
                self.sr.set(p, val);
                Some(())
            } else {
                None
            },
        }
    }

    /// Decodes the instruction at the program counter and advances the
    /// counter past it.
    fn fetch(&mut self) -> (r: Option<Op>)
        requires
            old(self).sr@.len() + 4 <= usize::MAX,
        ensures
            final(self).sr@ == old(self).sr@,
            final(self).input == old(self).input,
            final(self).output == old(self).output,
            match spec_decode(old(self).sr@, old(self).pc as int) {
                Some((op, delta)) => r == Some(op) && final(self).pc == old(self).pc + delta,
                None => r == None::<Op> && final(self).pc == old(self).pc,
            },
    {
        match self.peek() {
            Some((op, delta)) => {
                self.pc = self.pc + delta;
                Some(op)
            },
            None => None,
        }
    }

    /// Executes exactly one instruction, as `step_effect` describes:
    /// `Some(false)` on a halt, `Some(true)` after any other successful
    /// instruction, and `None` on a decode fault, an address fault, or a
    /// write to a literal.
    pub fn step(&mut self) -> (r: Option<bool>)
        requires
            old(self).sr@.len() + 4 <= usize::MAX,
            (match spec_decode(old(self).sr@, old(self).pc as int) {
                Some((op, delta)) => (op matches Op::Inp(_) ==> old(self).input.remaining().len()
                    > 0) && (op matches Op::Out(_) ==> old(self).output.accepts()),
                None => true,
            }),
        ensures
            ({
                let e = step_effect(old(self).sr@, old(self).pc as int, old(self).input.remaining());
                r == e.result && final(self).sr@ == e.sr && final(self).pc as int == e.pc
                    && final(self).input.remaining() == e.input
                    && final(self).output.collected() == (match e.out {
                    Some(v) => old(self).output.collected().push(v),
                    None => old(self).output.collected(),
                })
            }),
    {
        let op = match self.fetch() {
            Some(op) => op,
            None => { return None; },
        };
        match op {
            Op::Halt => Some(false),
            Op::Add(a, b, c) => {
                let x = match self.get(a) {
                    Some(x) => x,
                    None => { return None; },
                };
                let y = match self.get(b) {
                    Some(y) => y,
                    None => { return None; },
                };
                match self.set(c, x.wrapping_add(y)) {
                    Some(_) => Some(true),
                    None => None,
                }
            },
            Op::Mul(a, b, c) => {
                let x = match self.get(a) {
                    Some(x) => x,
                    None => { return None; },
                };
                let y = match self.get(b) {
                    Some(y) => y,
                    None => { return None; },
                };
                match self.set(c, x.wrapping_mul(y)) {
                    Some(_) => Some(true),
                    None => None,
                }
            },
            Op::Inp(a) => {
                let x = self.input.read();
                match self.set(a, x) {
                    Some(_) => Some(true),
                    None => None,
                }
            },
            Op::Out(a) => {
                let v = match self.get(a) {
                    Some(v) => v,
                    None => { return None; },
                };
                self.output.write(v);
                Some(true)
            },
            Op::Jit(a, b) => {
                let v = match self.get(a) {
                    Some(v) => v,
                    None => { return None; },
                };
                if v != 0 {
                    let t = match self.get(b) {
                        Some(t) => t,
                        None => { return None; },
                    };
                    self.pc = to_index(t);
                }
                Some(true)
            },
            Op::Jif(a, b) => {
                let v = match self.get(a) {
                    Some(v) => v,
                    None => { return None; },
                };
                if v == 0 {
                    let t = match self.get(b) {
                        Some(t) => t,
                        None => { return None; },
                    };
                    self.pc = to_index(t);
                }
                Some(true)
            },
            Op::Ltn(a, b, c) => {
                let x = match self.get(a) {
                    Some(x) => x,
                    None => { return None; },
                };
                let y = match self.get(b) {
                    Some(y) => y,
                    None => { return None; },
                };
                match self.set(c, if x < y { 1 } else { 0 }) {
                    Some(_) => Some(true),
                    None => None,
                }
            },
            Op::Equ(a, b, c) => {
                let x = match self.get(a) {
                    Some(x) => x,
                    None => { return None; },
                };
                let y = match self.get(b) {
                    Some(y) => y,
                    None => { return None; },
                };
                match self.set(c, if x == y { 1 } else { 0 }) {
                    Some(_) => Some(true),
                    None => None,
                }
            },
        }
    }
}

/// Per-cell usage flags accumulated by the classifier: whether the cell has
/// served as an opcode word, a parameter word, a write target, a read
/// source, or an immediate operand.
#[derive(Debug, Copy, Clone, Eq, PartialEq)]
pub struct CellUse {
    pub op: bool,
    pub param: bool,
    pub write: bool,
    pub read: bool,
    pub immediate: bool,
}

impl Default for CellUse {
    /// All flags clear.
    fn default() -> (r: Self)
        ensures
            r == cell_unused(),
    {
        CellUse { op: false, param: false, write: false, read: false, immediate: false }
    }
}

/// A cell that no instruction has touched yet.
pub open spec fn cell_unused() -> CellUse {
    CellUse { op: false, param: false, write: false, read: false, immediate: false }
}

/// `u` with the opcode flag set.
pub open spec fn with_op(u: CellUse) -> CellUse {
    CellUse { op: true, param: u.param, write: u.write, read: u.read, immediate: u.immediate }
}

/// `u` with the parameter flag set.
pub open spec fn with_param(u: CellUse) -> CellUse {
    CellUse { op: u.op, param: true, write: u.write, read: u.read, immediate: u.immediate }
}

/// `u` with the write flag set.
pub open spec fn with_write(u: CellUse) -> CellUse {
    CellUse { op: u.op, param: u.param, write: true, read: u.read, immediate: u.immediate }
}

/// `u` with the read flag set.
pub open spec fn with_read(u: CellUse) -> CellUse {
    CellUse { op: u.op, param: u.param, write: u.write, read: true, immediate: u.immediate }
}

/// `u` with the immediate flag set.
pub open spec fn with_immediate(u: CellUse) -> CellUse {
    CellUse { op: u.op, param: u.param, write: u.write, read: u.read, immediate: true }
}

impl CellUse {
    pub fn set_op(&mut self)
        ensures
            *final(self) == with_op(*old(self)),
    {
        self.op = true;
    }

    pub fn set_param(&mut self)
        ensures
            *final(self) == with_param(*old(self)),
    {
        self.param = true;
    }

    pub fn set_write(&mut self)
        ensures
            *final(self) == with_write(*old(self)),
    {
        self.write = true;
    }

    pub fn set_read(&mut self)
        ensures
            *final(self) == with_read(*old(self)),
    {
        self.read = true;
    }

    pub fn set_immediate(&mut self)
        ensures
            *final(self) == with_immediate(*old(self)),
    {
        self.immediate = true;
    }
}

/// How one operand of the instruction classifies cells: its own word is a
/// parameter or an immediate; a positional operand additionally marks the
/// named cell read or written.
pub open spec fn classify_operand_effect(
    c: Seq<CellUse>,
    write_mode: bool,
    idx: int,
    o: Operand,
) -> Seq<CellUse> {
    match o {
        Operand::Imm(_) => c.update(idx, with_immediate(c[idx])),
        Operand::Pos(p) => {
            let c1 = c.update(idx, with_param(c[idx]));
            if write_mode {
                c1.update(p as int, with_write(c1[p as int]))
            } else {
                c1.update(p as int, with_read(c1[p as int]))
            }
        },
    }
}

/// How one whole instruction classifies cells: the instruction word is an
/// opcode, then each operand contributes as `classify_operand_effect` says.
pub open spec fn classify_effect(sr: Seq<i64>, pc: int, c: Seq<CellUse>) -> Seq<CellUse> {
    match spec_decode(sr, pc) {
        None => c,
        Some((op, delta)) => {
            let c0 = c.update(pc, with_op(c[pc]));
            match op {
                Op::Halt => c0,
                Op::Add(a, b, cc) => three_operand_effect(c0, pc, a, b, cc),
                Op::Mul(a, b, cc) => three_operand_effect(c0, pc, a, b, cc),
                Op::Ltn(a, b, cc) => three_operand_effect(c0, pc, a, b, cc),
                Op::Equ(a, b, cc) => three_operand_effect(c0, pc, a, b, cc),
                Op::Jit(a, b) => classify_operand_effect(
                    classify_operand_effect(c0, false, pc + 1, a),
                    false,
                    pc + 2,
                    b,
                ),
                Op::Jif(a, b) => classify_operand_effect(
                    classify_operand_effect(c0, false, pc + 1, a),
                    false,
                    pc + 2,
                    b,
                ),
                Op::Inp(a) => classify_operand_effect(c0, true, pc + 1, a),
                Op::Out(a) => classify_operand_effect(c0, false, pc + 1, a),
            }
        },
    }
}

/// The two sources are reads, the destination is a write.
pub open spec fn three_operand_effect(
    c0: Seq<CellUse>,
    pc: int,
    a: Operand,
    b: Operand,
    cc: Operand,
) -> Seq<CellUse> {
    classify_operand_effect(
        classify_operand_effect(classify_operand_effect(c0, false, pc + 1, a), false, pc + 2, b),
        true,
        pc + 3,
        cc,
    )
}

/// Whether every cell this operand classifies lies inside a classification
/// table of length `n`.
pub open spec fn operand_class_ok(o: Operand, idx: int, n: int) -> bool {
    idx < n && (o matches Operand::Pos(p) ==> p < n)
}

/// Whether every cell the instruction at `pc` classifies lies inside a
/// classification table of length `n`.
pub open spec fn instr_class_ok(sr: Seq<i64>, pc: int, n: int) -> bool {
    match spec_decode(sr, pc) {
        None => true,
        Some((op, delta)) => pc < n && match op {
            Op::Halt => true,
            Op::Add(a, b, cc) => operand_class_ok(a, pc + 1, n) && operand_class_ok(b, pc + 2, n)
                && operand_class_ok(cc, pc + 3, n),
            Op::Mul(a, b, cc) => operand_class_ok(a, pc + 1, n) && operand_class_ok(b, pc + 2, n)
                && operand_class_ok(cc, pc + 3, n),
            Op::Ltn(a, b, cc) => operand_class_ok(a, pc + 1, n) && operand_class_ok(b, pc + 2, n)
                && operand_class_ok(cc, pc + 3, n),
            Op::Equ(a, b, cc) => operand_class_ok(a, pc + 1, n) && operand_class_ok(b, pc + 2, n)
                && operand_class_ok(cc, pc + 3, n),
            Op::Jit(a, b) => operand_class_ok(a, pc + 1, n) && operand_class_ok(b, pc + 2, n),
            Op::Jif(a, b) => operand_class_ok(a, pc + 1, n) && operand_class_ok(b, pc + 2, n),
            Op::Inp(a) => operand_class_ok(a, pc + 1, n),
            Op::Out(a) => operand_class_ok(a, pc + 1, n),
        },
    }
}

/// Records which cells the operand word at `idx` touches, then which cell
/// it names, if any.
fn classify_operand(write_mode: bool, idx: usize, o: Operand, classification: &mut Vec<CellUse>)
    requires
        operand_class_ok(o, idx as int, old(classification)@.len() as int),
    ensures
        final(classification)@ == classify_operand_effect(
            old(classification)@,
            write_mode,
            idx as int,
            o,
        ),
{
    match o {
        Operand::Imm(_) => {
            let mut u = classification[idx];
            u.set_immediate();
            classification.set(idx, u);
        },
        Operand::Pos(p) => {
            let mut u = classification[idx];
            u.set_param();
            classification.set(idx, u);
            let mut v = classification[p];
            if write_mode {
                v.set_write();
            } else {
                v.set_read();
            }
            classification.set(p, v);
        },
    }
}

impl<I: Input, O: Output> IoComputer<I, O> {
    /// Records, in the classification table, every cell the next instruction
    /// touches - opcode word, parameter words, read and write targets,
    /// immediate operands - then executes it through `step`. Purely
    /// diagnostic: the machine runs exactly as it would without the table.
    pub fn classify_step(&mut self, classification: &mut Vec<CellUse>) -> (r: Option<bool>)
        requires
            old(self).sr@.len() + 4 <= usize::MAX,
            instr_class_ok(
                old(self).sr@,
                old(self).pc as int,
                old(classification)@.len() as int,
            ),
            (match spec_decode(old(self).sr@, old(self).pc as int) {
                Some((op, delta)) => (op matches Op::Inp(_) ==> old(self).input.remaining().len()
                    > 0) && (op matches Op::Out(_) ==> old(self).output.accepts()),
                None => true,
            }),
        ensures
            final(classification)@ == classify_effect(
                old(self).sr@,
                old(self).pc as int,
                old(classification)@,
            ),
            ({
                let e = step_effect(old(self).sr@, old(self).pc as int, old(self).input.remaining());
                r == e.result && final(self).sr@ == e.sr && final(self).pc as int == e.pc
                    && final(self).input.remaining() == e.input
                    && final(self).output.collected() == (match e.out {
                    Some(v) => old(self).output.collected().push(v),
                    None => old(self).output.collected(),
                })
            }),
    {
        let (op, _delta) = match self.peek() {
            Some(x) => x,
            None => { return None; },
        };
        let pc = self.pc;
        let mut u = classification[pc];
        u.set_op();
        classification.set(pc, u);
        match op {
            Op::Halt => {},
            Op::Add(a, b, c) => {
                classify_operand(false, pc + 1, a, classification);
                classify_operand(false, pc + 2, b, classification);
                classify_operand(true, pc + 3, c, classification);
            },
            Op::Mul(a, b, c) => {
                classify_operand(false, pc + 1, a, classification);
                classify_operand(false, pc + 2, b, classification);
                classify_operand(true, pc + 3, c, classification);
            },
            Op::Ltn(a, b, c) => {
                classify_operand(false, pc + 1, a, classification);
                classify_operand(false, pc + 2, b, classification);
                classify_operand(true, pc + 3, c, classification);
            },
            Op::Equ(a, b, c) => {
                classify_operand(false, pc + 1, a, classification);
                classify_operand(false, pc + 2, b, classification);
                classify_operand(true, pc + 3, c, classification);
            },
            Op::Jit(a, b) => {
                classify_operand(false, pc + 1, a, classification);
                classify_operand(false, pc + 2, b, classification);
            },
            Op::Jif(a, b) => {
                classify_operand(false, pc + 1, a, classification);
                classify_operand(false, pc + 2, b, classification);
            },
            Op::Inp(a) => {
                classify_operand(true, pc + 1, a, classification);
            },
            Op::Out(a) => {
                classify_operand(false, pc + 1, a, classification);
            },
        }
        self.step()
    }
}

/// `b` has every flag `a` has.
pub open spec fn cell_leq(a: CellUse, b: CellUse) -> bool {
    (a.op ==> b.op) && (a.param ==> b.param) && (a.write ==> b.write) && (a.read ==> b.read) && (
    a.immediate ==> b.immediate)
}

/// The union of two flag sets.
pub open spec fn cell_union(a: CellUse, b: CellUse) -> CellUse {
    CellUse {
        op: a.op || b.op,
        param: a.param || b.param,
        write: a.write || b.write,
        read: a.read || b.read,
        immediate: a.immediate || b.immediate,
    }
}

/// One operand's classification never clears a flag.
proof fn lemma_operand_monotone(c: Seq<CellUse>, write_mode: bool, idx: int, o: Operand)
    requires
        operand_class_ok(o, idx, c.len() as int),
        0 <= idx,
        (o matches Operand::Pos(p) ==> 0 <= p),
    ensures
        classify_operand_effect(c, write_mode, idx, o).len() == c.len(),
        forall|j: int|
            0 <= j < c.len() ==> cell_leq(c[j], classify_operand_effect(c, write_mode, idx, o)[j]),
{
}

/// Classifier flags are monotonic: classifying one instruction never clears
/// a flag, it only adds flags. Together with `classify_effect` being a
/// function of the memory, counter and table alone, re-running the same
/// deterministic program and unioning per-cell flags can only reproduce the
/// flags of a single run.
pub proof fn lemma_classify_monotone(sr: Seq<i64>, pc: int, c: Seq<CellUse>)
    requires
        0 <= pc,
        instr_class_ok(sr, pc, c.len() as int),
    ensures
        classify_effect(sr, pc, c).len() == c.len(),
        forall|j: int| 0 <= j < c.len() ==> cell_leq(c[j], classify_effect(sr, pc, c)[j]),
{
    match spec_decode(sr, pc) {
        None => {},
        Some((op, delta)) => {
            let c0 = c.update(pc, with_op(c[pc]));
            assert(forall|j: int| 0 <= j < c.len() ==> cell_leq(c[j], c0[j]));
            match op {
                Op::Halt => {},
                Op::Add(a, b, cc) => {
                    lemma_three_monotone(c0, pc, a, b, cc);
                },
                Op::Mul(a, b, cc) => {
                    lemma_three_monotone(c0, pc, a, b, cc);
                },
                Op::Ltn(a, b, cc) => {
                    lemma_three_monotone(c0, pc, a, b, cc);
                },
                Op::Equ(a, b, cc) => {
                    lemma_three_monotone(c0, pc, a, b, cc);
                },
                Op::Jit(a, b) => {
                    let c1 = classify_operand_effect(c0, false, pc + 1, a);
                    lemma_operand_monotone(c0, false, pc + 1, a);
                    lemma_operand_monotone(c1, false, pc + 2, b);
                },
                Op::Jif(a, b) => {
                    let c1 = classify_operand_effect(c0, false, pc + 1, a);
                    lemma_operand_monotone(c0, false, pc + 1, a);
                    lemma_operand_monotone(c1, false, pc + 2, b);
                },
                Op::Inp(a) => {
                    lemma_operand_monotone(c0, true, pc + 1, a);
                },
                Op::Out(a) => {
                    lemma_operand_monotone(c0, false, pc + 1, a);
                },
            }
        },
    }
}

/// The three operands of an arithmetic or comparison instruction only add
/// flags.
proof fn lemma_three_monotone(c0: Seq<CellUse>, pc: int, a: Operand, b: Operand, cc: Operand)
    requires
        0 <= pc,
        operand_class_ok(a, pc + 1, c0.len() as int),
        operand_class_ok(b, pc + 2, c0.len() as int),
        operand_class_ok(cc, pc + 3, c0.len() as int),
    ensures
        three_operand_effect(c0, pc, a, b, cc).len() == c0.len(),
        forall|j: int| 0 <= j < c0.len() ==> cell_leq(c0[j], three_operand_effect(c0, pc, a, b, cc)[j]),
{
    let c1 = classify_operand_effect(c0, false, pc + 1, a);
    let c2 = classify_operand_effect(c1, false, pc + 2, b);
    lemma_operand_monotone(c0, false, pc + 1, a);
    lemma_operand_monotone(c1, false, pc + 2, b);
    lemma_operand_monotone(c2, true, pc + 3, cc);
}

/// Unioning a flag table with itself changes nothing: the flags of two
/// identical classifier runs union to the flags of one run.
pub proof fn lemma_union_self(c: Seq<CellUse>)
    ensures
        forall|j: int| 0 <= j < c.len() ==> cell_union(c[j], c[j]) == c[j],
{
}

/// Classification is repeatable and order-independent: over the same
/// memory, counter and starting table it always produces the same flags,
/// and unioning the flag tables of two such runs gives back the flags of a
/// single run.
pub proof fn lemma_classify_repeatable(sr: Seq<i64>, pc: int, c: Seq<CellUse>)
    requires
        0 <= pc,
        instr_class_ok(sr, pc, c.len() as int),
    ensures
        classify_effect(sr, pc, c) == classify_effect(sr, pc, c),
        forall|j: int|
            0 <= j < classify_effect(sr, pc, c).len() ==> cell_union(
                #[trigger] classify_effect(sr, pc, c)[j],
                classify_effect(sr, pc, c)[j],
            ) == classify_effect(sr, pc, c)[j],
{
    lemma_classify_monotone(sr, pc, c);
    lemma_union_self(classify_effect(sr, pc, c));
}

/// Decoding is pure: it is a function of the memory and the index alone, so
/// decoding the same memory at the same index twice yields identical
/// results, and decoding mutates nothing.
pub proof fn lemma_decode_deterministic(sr1: Seq<i64>, sr2: Seq<i64>, i: int)
    requires
        sr1 == sr2,
    ensures
        spec_decode(sr1, i) == spec_decode(sr2, i),
{
}

/// A machine whose current instruction is a halt steps to the halt result
/// with memory, input and output untouched.
pub proof fn lemma_halt_preserves_state(sr: Seq<i64>, pc: int, input: Seq<i64>)
    requires
        spec_decode(sr, pc) matches Some((op, delta)) && op == Op::Halt,
    ensures
        step_effect(sr, pc, input).result == Some(false),
        step_effect(sr, pc, input).sr == sr,
        step_effect(sr, pc, input).input == input,
        step_effect(sr, pc, input).out == None::<i64>,
{
}


/// A capability that faults on any use; for programs that do no input or
/// output.
pub struct NoStream;

impl Input for NoStream {
    open spec fn remaining(&self) -> Seq<i64> {
        Seq::empty()
    }

    fn init() -> (r: Self) {
        NoStream
    }

    fn read(&mut self) -> (r: i64) {
        proof {
            assert(old(self).remaining() =~= Seq::<i64>::empty());
        }
        vstd::pervasive::unreached()
    }
}

impl Output for NoStream {
    open spec fn collected(&self) -> Seq<i64> {
        Seq::empty()
    }

    open spec fn accepts(&self) -> bool {
        false
    }

    fn init() -> (r: Self) {
        NoStream
    }

    fn write(&mut self, val: i64) {
        vstd::pervasive::unreached()
    }
}

/// An in-memory input sequence, consumed front to back.
pub struct VecInput {
    vals: Vec<i64>,
    pos: usize,
}

impl VecInput {
    /// A source that yields exactly `vals`, front to back.
    pub fn from_vec(vals: Vec<i64>) -> (r: Self)
        ensures
            r.remaining() == vals@,
    {
        VecInput { vals, pos: 0 }
    }
}

impl Input for VecInput {
    closed spec fn remaining(&self) -> Seq<i64> {
        if self.pos <= self.vals@.len() {
            self.vals@.skip(self.pos as int)
        } else {
            Seq::empty()
        }
    }

    fn init() -> (r: Self) {
        VecInput { vals: Vec::new(), pos: 0 }
    }

    fn read(&mut self) -> (r: i64) {
        let n = self.vals.len();
        proof {
            assert(old(self).pos < old(self).vals@.len());
        }
        let r = self.vals[self.pos];
        self.pos = self.pos + 1;
        proof {
            assert(final(self).remaining() =~= old(self).remaining().skip(1));
        }
        r
    }
}

impl Output for Vec<i64> {
    open spec fn collected(&self) -> Seq<i64> {
        self@
    }

    open spec fn accepts(&self) -> bool {
        true
    }

    fn init() -> (r: Self) {
        Vec::new()
    }

    fn write(&mut self, val: i64) {
        self.push(val);
    }
}

/// Writes every value to both sinks.
impl<A: Output, B: Output> Output for (A, B) {
    open spec fn collected(&self) -> Seq<i64> {
        self.0.collected()
    }

    open spec fn accepts(&self) -> bool {
        self.0.accepts() && self.1.accepts()
    }

    fn init() -> (r: Self) {
        (A::init(), B::init())
    }

    fn write(&mut self, val: i64) {
        self.0.write(val);
        self.1.write(val);
    }
}

} // verus!
