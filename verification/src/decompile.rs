use vstd::prelude::*;
use crate::machine::{Machine, Op, Operand, MEMORY_SIZE};

verus! {

/// What the analyzer believes about one memory cell: never seen, only ever
/// read as code or as a literal target, or written to.
#[derive(Debug, Copy, Clone, Eq, PartialEq, Structural)]
pub enum CellType {
    Unknown,
    Constant,
    Mutable,
}

/// An instruction of the optimized intermediate form: the machine's own
/// instructions, plus the rewritten forms the peephole pass introduces
/// (`Mov`, `Jmp`), a jump through the relative base (`Jr0`), and
/// `Dynamic`, an instruction whose operands the analyzer could not resolve,
/// carrying the address it was found at for the interpreter fallback.
#[derive(Debug, Copy, Clone, Eq, PartialEq)]
pub enum FixOp {
    Invalid,
    Halt,
    Add(Operand, Operand, Operand),
    Mul(Operand, Operand, Operand),
    Inp(Operand),
    Out(Operand),
    Jit(Operand, Operand),
    Jif(Operand, Operand),
    Ltn(Operand, Operand, Operand),
    Equ(Operand, Operand, Operand),
    Crb(Operand),
    Mov(Operand, Operand),
    Jmp(usize),
    Jr0,
    Dynamic(usize),
}

/// The one fatality of the analyzer: a conditional jump, or a relative-base
/// adjustment, whose operand is not a literal, found at the given address.
/// The interpreter handles such programs fine; the analyzer refuses them.
#[derive(Debug, Copy, Clone, Eq, PartialEq)]
pub enum AnalysisError {
    UnresolvedControlFlow(usize),
}

/// One basic block: a maximal straight-line run of optimized instructions,
/// each with the address it came from, keyed by the address of its first
/// instruction.
pub struct Block {
    pub label: usize,
    pub ops: Vec<(usize, FixOp)>,
}

/// Everything one analysis pass produces: the optimized instructions in
/// address order, the basic blocks cut at the labels jumps actually use,
/// and the addresses of cells flagged both constant and mutable.
pub struct Analysis {
    pub ops: Vec<(usize, FixOp)>,
    pub blocks: Vec<Block>,
    pub inconsistencies: Vec<usize>,
}

/// What the peephole pass makes of one instruction: additions and
/// multiplications of two literals fold to a `Set` of the folded value;
/// adding a literal zero or multiplying by a literal one reduces to a `Mov`
/// of the other operand; a conditional jump on a literally true or false
/// condition with a literal target becomes an unconditional `Jmp`.
/// Everything else stays as it is.
pub open spec fn spec_transform(op: FixOp) -> FixOp {
    match op {
        FixOp::Add(a, b, c) => match (a, b) {
            (Operand::Imm(x), Operand::Imm(y)) => FixOp::Mov(
                Operand::Imm(vstd::wrapping::i64_specs::wrapping_add(x, y)),
                c,
            ),
            _ => if b == Operand::Imm(0i64) {
                FixOp::Mov(a, c)
            } else if a == Operand::Imm(0i64) {
                FixOp::Mov(b, c)
            } else {
                op
            },
        },
        FixOp::Mul(a, b, c) => match (a, b) {
            (Operand::Imm(x), Operand::Imm(y)) => FixOp::Mov(
                Operand::Imm(vstd::wrapping::i64_specs::wrapping_mul(x, y)),
                c,
            ),
            _ => if b == Operand::Imm(1i64) {
                FixOp::Mov(a, c)
            } else if a == Operand::Imm(1i64) {
                FixOp::Mov(b, c)
            } else {
                op
            },
        },
        FixOp::Jit(a, b) => match (a, b) {
            (Operand::Imm(x), Operand::Imm(t)) => if x == 1i64 {
                FixOp::Jmp(crate::machine::pos_index(t))
            } else {
                op
            },
            _ => op,
        },
        FixOp::Jif(a, b) => match (a, b) {
            (Operand::Imm(x), Operand::Imm(t)) => if x == 0i64 {
                FixOp::Jmp(crate::machine::pos_index(t))
            } else {
                op
            },
            _ => op,
        },
        _ => op,
    }
}

/// Applies the local rewrites of `spec_transform` to one instruction.
pub fn transform_op(op: FixOp) -> (r: FixOp)
    ensures
        r == spec_transform(op),
{
    match op {
        FixOp::Add(Operand::Imm(x), Operand::Imm(y), c) => FixOp::Mov(
            Operand::Imm(x.wrapping_add(y)),
            c,
        ),
        FixOp::Add(a, Operand::Imm(0i64), c) => FixOp::Mov(a, c),
        FixOp::Add(Operand::Imm(0i64), b, c) => FixOp::Mov(b, c),
        FixOp::Mul(Operand::Imm(x), Operand::Imm(y), c) => FixOp::Mov(
            Operand::Imm(x.wrapping_mul(y)),
            c,
        ),
        FixOp::Mul(a, Operand::Imm(1i64), c) => FixOp::Mov(a, c),
        FixOp::Mul(Operand::Imm(1i64), b, c) => FixOp::Mov(b, c),
        FixOp::Jit(Operand::Imm(1i64), Operand::Imm(t)) => FixOp::Jmp(to_index(t)),
        FixOp::Jif(Operand::Imm(0i64), Operand::Imm(t)) => FixOp::Jmp(to_index(t)),
        _ => op,
    }
}

/// Applies the local rewrites to every instruction of the stream, in place
/// of the instruction it rewrites.
pub fn transform(ops: Vec<(usize, FixOp)>) -> (r: Vec<(usize, FixOp)>)
    ensures
        r@.len() == ops@.len(),
        forall|i: int|
            0 <= i < ops@.len() ==> r@[i].0 == ops@[i].0 && r@[i].1 == spec_transform(ops@[i].1),
{
    let mut r: Vec<(usize, FixOp)> = Vec::new();
    let mut i: usize = 0;
    while i < ops.len()
        invariant
            i <= ops@.len(),
            r@.len() == i,
            forall|j: int|
                0 <= j < i ==> r@[j].0 == ops@[j].0 && r@[j].1 == spec_transform(ops@[j].1),
        decreases ops@.len() - i,
    {
        let (addr, op) = ops[i];
        r.push((addr, transform_op(op)));
        i += 1;
    }
    r
}

/// Converts a word to a cell index, clamping anything unaddressable to the
/// largest (never allocatable) index.
fn to_index(x: i64) -> (r: usize)
    ensures
        r == crate::machine::pos_index(x),
{
    if 0 <= x && (x as u64) <= (usize::MAX as u64) {
        x as usize
    } else {
        usize::MAX
    }
}

/// The number of empty slots in the arena; the analyzer's termination
/// measure.
spec fn count_none(s: Seq<Option<FixOp>>) -> nat
    decreases s.len(),
{
    if s.len() == 0 {
        0
    } else {
        count_none(s.drop_last()) + (if s.last() is None {
            1nat
        } else {
            0nat
        })
    }
}

/// Filling an empty slot of the arena shrinks the measure by one.
proof fn lemma_count_none_fill(s: Seq<Option<FixOp>>, i: int, op: FixOp)
    requires
        0 <= i < s.len(),
        s[i] is None,
    ensures
        count_none(s) == count_none(s.update(i, Some(op))) + 1,
    decreases s.len(),
{
    let t = s.update(i, Some(op));
    if i == s.len() - 1 {
        assert(t.drop_last() =~= s.drop_last());
    } else {
        assert(t.drop_last() =~= s.drop_last().update(i, Some(op)));
        assert(t.last() == s.last());
        lemma_count_none_fill(s.drop_last(), i, op);
    }
}

/// The direct image of one machine instruction in the intermediate form,
/// before any peephole rewriting: a conditional jump on a literally true or
/// false condition whose target sits right at the relative base becomes a
/// jump through the base; everything else maps one to one.
pub open spec fn fix_of(op: Op) -> FixOp {
    match op {
        Op::Jit(a, b) => if a == Operand::Imm(1i64) && b == Operand::Rel(0i64) {
            FixOp::Jr0
        } else {
            FixOp::Jit(a, b)
        },
        Op::Jif(a, b) => if a == Operand::Imm(0i64) && b == Operand::Rel(0i64) {
            FixOp::Jr0
        } else {
            FixOp::Jif(a, b)
        },
        Op::Halt => FixOp::Halt,
        Op::Invalid => FixOp::Invalid,
        Op::Add(a, b, c) => FixOp::Add(a, b, c),
        Op::Mul(a, b, c) => FixOp::Mul(a, b, c),
        Op::Inp(c) => FixOp::Inp(c),
        Op::Out(a) => FixOp::Out(a),
        Op::Equ(a, b, c) => FixOp::Equ(a, b, c),
        Op::Ltn(a, b, c) => FixOp::Ltn(a, b, c),
        Op::Crb(a) => FixOp::Crb(a),
    }
}

/// What the analyzer is allowed to record for the address `addr`: the
/// peephole-transformed image of the instruction the program decodes to
/// there, the dynamic marker for an instruction whose operand cells are
/// also written, or the invalid marker where nothing decodes.
pub open spec fn faithful_at(sr: Seq<i64>, addr: usize, fop: FixOp) -> bool {
    match crate::machine::spec_decode(sr, addr as int) {
        Some((op, delta)) => fop == spec_transform(fix_of(op)) || (fop == FixOp::Dynamic(addr)
            && !(op is Jit) && !(op is Jif)),
        None => fop == FixOp::Invalid,
    }
}

/// Same, for the untransformed record the walk keeps.
pub open spec fn recorded_at(sr: Seq<i64>, addr: usize, fop: FixOp) -> bool {
    match crate::machine::spec_decode(sr, addr as int) {
        Some((op, delta)) => fop == fix_of(op) || (fop == FixOp::Dynamic(addr) && !(op is Jit)
            && !(op is Jif)),
        None => fop == FixOp::Invalid,
    }
}

struct Analyzer {
    mem: Vec<CellType>,
    compiled: Vec<Option<FixOp>>,
    vm: Machine,
    inconsistencies: Vec<usize>,
}

impl Analyzer {
    spec fn wf(&self) -> bool {
        &&& self.mem@.len() == self.vm.sr@.len()
        &&& self.compiled@.len() == self.vm.sr@.len()
        &&& self.vm.sr@.len() + 4 <= usize::MAX
    }

    /// Notes that a cell holds code or a literal operand. Reports back
    /// whether the cell was already known writable - the instruction owning
    /// it cannot be resolved statically.
    fn mark_constant(&mut self, p: usize) -> (dynamic: bool)
        requires
            p < old(self).mem@.len(),
        ensures
            final(self).mem@.len() == old(self).mem@.len(),
            final(self).compiled == old(self).compiled,
            final(self).vm == old(self).vm,
            final(self).inconsistencies == old(self).inconsistencies,
            dynamic == (old(self).mem@[p as int] == CellType::Mutable),
            final(self).mem@ == (if dynamic {
                old(self).mem@
            } else {
                old(self).mem@.update(p as int, CellType::Constant)
            }),
    {
        if self.mem[p] == CellType::Mutable {
            true
        } else {
            self.mem.set(p, CellType::Constant);
            false
        }
    }

    /// Notes that a cell is written to. A cell already classified constant
    /// is an analysis inconsistency: it is recorded as a diagnostic and the
    /// cell is conservatively treated as mutable from here on.
    fn mark_mutable(&mut self, p: usize)
        requires
            p < old(self).mem@.len(),
        ensures
            final(self).mem@.len() == old(self).mem@.len(),
            final(self).compiled == old(self).compiled,
            final(self).vm == old(self).vm,
            final(self).mem@ == old(self).mem@.update(p as int, CellType::Mutable),
            final(self).inconsistencies@ == (if old(self).mem@[p as int] == CellType::Constant {
                old(self).inconsistencies@.push(p)
            } else {
                old(self).inconsistencies@
            }),
    {
        if self.mem[p] == CellType::Constant {
            self.inconsistencies.push(p);
        }
        self.mem.set(p, CellType::Mutable);
    }

    /// The cell a write operand names under the relative base the walk has
    /// tracked for this path, if it lies in memory.
    fn write_target(&self, o: Operand, rel: i64) -> (r: Option<usize>)
        ensures
            r == spec_target(self.mem@.len() as int, rel, o),
            match r {
                Some(p) => p < self.mem@.len(),
                None => true,
            },
    {
        let n = self.mem.len();
        match o {
            Operand::Imm(_) => None,
            Operand::Pos(p) => if p < n {
                Some(p)
            } else {
                None
            },
            Operand::Rel(off) => match rel.checked_add(off) {
                Some(s) => if 0 <= s && (s as u64) <= (usize::MAX as u64) && (s as usize) < n {
                    Some(s as usize)
                } else {
                    None
                },
                None => None,
            },
        }
    }
}

/// Marks the `delta` cells of the instruction at `pc` as code, reporting
/// whether any of them was already known writable.
fn mark_code(alz: &mut Analyzer, pc: usize, delta: usize) -> (dynamic: bool)
    requires
        old(alz).wf(),
        pc < old(alz).compiled@.len(),
        pc + delta <= usize::MAX,
    ensures
        final(alz).wf(),
        final(alz).compiled == old(alz).compiled,
        final(alz).vm == old(alz).vm,
        final(alz).inconsistencies == old(alz).inconsistencies,
        final(alz).mem@ == spec_mark_code(old(alz).mem@, pc as int, delta as int).0,
        dynamic == spec_mark_code(old(alz).mem@, pc as int, delta as int).1,
{
    let mut dynamic = false;
    let mut i: usize = 0;
    while i < delta
        invariant
            alz.wf(),
            alz.compiled == old(alz).compiled,
            alz.vm == old(alz).vm,
            alz.inconsistencies == old(alz).inconsistencies,
            pc < alz.compiled@.len(),
            pc + delta <= usize::MAX,
            i <= delta,
            ({
                let r = spec_mark_code(alz.mem@, pc + i, (delta - i) as int);
                spec_mark_code(old(alz).mem@, pc as int, delta as int) == (
                    r.0,
                    dynamic || r.1,
                )
            }),
        decreases delta - i,
    {
        if pc + i < alz.mem.len() {
            if alz.mark_constant(pc + i) {
                dynamic = true;
            }
        }
        i += 1;
    }
    dynamic
}

/// The intermediate-form image of one decoded instruction: the dynamic
/// marker where its cells are also written, the direct image otherwise; a
/// conditional jump that cannot be resolved is the analyzer's one fatality.
fn lower_op(op: Op, pc: usize, dynamic: bool) -> (r: Result<FixOp, AnalysisError>)
    ensures
        match r {
            Ok(f) => if dynamic {
                f == FixOp::Dynamic(pc) && !(op is Jit) && !(op is Jif)
            } else {
                f == fix_of(op)
            },
            Err(e) => dynamic && (op is Jit || op is Jif) && e
                == AnalysisError::UnresolvedControlFlow(pc),
        },
{
    if dynamic {
        match op {
            Op::Jit(_, _) => Err(AnalysisError::UnresolvedControlFlow(pc)),
            Op::Jif(_, _) => Err(AnalysisError::UnresolvedControlFlow(pc)),
            _ => Ok(FixOp::Dynamic(pc)),
        }
    } else {
        match op {
            Op::Jit(Operand::Imm(1i64), Operand::Rel(0i64)) => Ok(FixOp::Jr0),
            Op::Jif(Operand::Imm(0i64), Operand::Rel(0i64)) => Ok(FixOp::Jr0),
            Op::Halt => Ok(FixOp::Halt),
            Op::Invalid => Ok(FixOp::Invalid),
            Op::Add(a, b, c) => Ok(FixOp::Add(a, b, c)),
            Op::Mul(a, b, c) => Ok(FixOp::Mul(a, b, c)),
            Op::Inp(c) => Ok(FixOp::Inp(c)),
            Op::Out(a) => Ok(FixOp::Out(a)),
            Op::Equ(a, b, c) => Ok(FixOp::Equ(a, b, c)),
            Op::Ltn(a, b, c) => Ok(FixOp::Ltn(a, b, c)),
            Op::Jit(a, b) => Ok(FixOp::Jit(a, b)),
            Op::Jif(a, b) => Ok(FixOp::Jif(a, b)),
            Op::Crb(a) => Ok(FixOp::Crb(a)),
        }
    }
}

/// The analyzer's complete state between two worklist steps: the per-cell
/// classification, the recorded instructions, the inconsistency diagnostics,
/// and the pending (address, relative base) pairs still to walk.
pub struct WalkState {
    pub mem: Seq<CellType>,
    pub compiled: Seq<Option<FixOp>>,
    pub incons: Seq<usize>,
    pub work: Seq<(usize, i64)>,
}

/// The analyzer's starting state for a memory of `len` cells: nothing
/// classified, nothing recorded, the entry address pending with a zero
/// relative base.
pub open spec fn walk_init(len: int) -> WalkState {
    WalkState {
        mem: Seq::new(len as nat, |i: int| CellType::Unknown),
        compiled: Seq::new(len as nat, |i: int| None),
        incons: Seq::empty(),
        work: seq![(0usize, 0i64)],
    }
}

/// What one worklist step comes to: the next state, or the analyzer's one
/// fatality.
pub enum WalkStep {
    Next(WalkState),
    Fail(AnalysisError),
}

/// How the walk ends: the final state once the worklist is empty, the
/// fatality, or nothing yet within the given number of steps.
pub enum WalkRes {
    Done(WalkState),
    Fail(AnalysisError),
    Stalled,
}

/// The code cells of the instruction at `pc`, marked constant, together
/// with whether any of them was already known writable - then the
/// instruction's operands cannot be resolved statically and it is dynamic.
/// A writable cell keeps its classification; cells beyond the table are
/// ignored.
pub open spec fn spec_mark_code(mem: Seq<CellType>, pc: int, k: int) -> (Seq<CellType>, bool)
    decreases k,
{
    if k <= 0 {
        (mem, false)
    } else if pc < mem.len() && mem[pc] == CellType::Mutable {
        let r = spec_mark_code(mem, pc + 1, k - 1);
        (r.0, true)
    } else {
        let m1 = if 0 <= pc < mem.len() {
            mem.update(pc, CellType::Constant)
        } else {
            mem
        };
        spec_mark_code(m1, pc + 1, k - 1)
    }
}

/// The cell a write operand names under the path's relative base, if it
/// lies inside the classified range.
pub open spec fn spec_target(len: int, rel: i64, c: Operand) -> Option<usize> {
    match c {
        Operand::Imm(_) => None,
        Operand::Pos(p) => if (p as int) < len {
            Some(p)
        } else {
            None
        },
        Operand::Rel(off) => match crate::machine::rel_index(rel, off) {
            Some(p) => if (p as int) < len {
                Some(p)
            } else {
                None
            },
            None => None,
        },
    }
}

/// Marking a write: the cell becomes mutable; a cell that was classified
/// constant - code being overwritten - is reported as an inconsistency and
/// analysis continues.
pub open spec fn spec_mark_write(s: WalkState, rel: i64, c: Operand) -> WalkState {
    match spec_target(s.mem.len() as int, rel, c) {
        Some(p) => WalkState {
            mem: s.mem.update(p as int, CellType::Mutable),
            compiled: s.compiled,
            incons: if s.mem[p as int] == CellType::Constant {
                s.incons.push(p)
            } else {
                s.incons
            },
            work: s.work,
        },
        None => s,
    }
}

/// What happens after an instruction is recorded: write instructions mark
/// their target mutable; every instruction that falls through queues the
/// next address; a resolvable conditional jump queues both its target and
/// its fall-through; a relative-base adjustment carries the new base; a
/// halt, a jump through the base or an invalid word ends the path; and a
/// conditional jump or base adjustment without a literal operand is the
/// analyzer's fatality.
pub open spec fn walk_after(s: WalkState, pc: usize, rel: i64, delta: usize, fop: FixOp) -> WalkStep {
    let fall = ((pc + delta) as usize, rel);
    match fop {
        FixOp::Halt => WalkStep::Next(s),
        FixOp::Jr0 => WalkStep::Next(s),
        FixOp::Invalid => WalkStep::Next(s),
        FixOp::Out(_) => WalkStep::Next(
            WalkState { mem: s.mem, compiled: s.compiled, incons: s.incons, work: s.work.push(fall) },
        ),
        FixOp::Dynamic(_) => WalkStep::Next(
            WalkState { mem: s.mem, compiled: s.compiled, incons: s.incons, work: s.work.push(fall) },
        ),
        FixOp::Add(_, _, c) => WalkStep::Next(push_fall(spec_mark_write(s, rel, c), fall)),
        FixOp::Mul(_, _, c) => WalkStep::Next(push_fall(spec_mark_write(s, rel, c), fall)),
        FixOp::Ltn(_, _, c) => WalkStep::Next(push_fall(spec_mark_write(s, rel, c), fall)),
        FixOp::Equ(_, _, c) => WalkStep::Next(push_fall(spec_mark_write(s, rel, c), fall)),
        FixOp::Inp(c) => WalkStep::Next(push_fall(spec_mark_write(s, rel, c), fall)),
        FixOp::Jit(_, b) => match b {
            Operand::Imm(t) => WalkStep::Next(
                push_fall(
                    WalkState {
                        mem: s.mem,
                        compiled: s.compiled,
                        incons: s.incons,
                        work: s.work.push((crate::machine::pos_index(t), rel)),
                    },
                    fall,
                ),
            ),
            _ => WalkStep::Fail(AnalysisError::UnresolvedControlFlow(pc)),
        },
        FixOp::Jif(_, b) => match b {
            Operand::Imm(t) => WalkStep::Next(
                push_fall(
                    WalkState {
                        mem: s.mem,
                        compiled: s.compiled,
                        incons: s.incons,
                        work: s.work.push((crate::machine::pos_index(t), rel)),
                    },
                    fall,
                ),
            ),
            _ => WalkStep::Fail(AnalysisError::UnresolvedControlFlow(pc)),
        },
        FixOp::Crb(a) => match a {
            Operand::Imm(v) => WalkStep::Next(
                WalkState {
                    mem: s.mem,
                    compiled: s.compiled,
                    incons: s.incons,
                    work: s.work.push(
                        (
                            (pc + delta) as usize,
                            vstd::wrapping::i64_specs::wrapping_add(rel, v),
                        ),
                    ),
                },
            ),
            _ => WalkStep::Fail(AnalysisError::UnresolvedControlFlow(pc)),
        },
        FixOp::Mov(_, _) => WalkStep::Next(s),
        FixOp::Jmp(_) => WalkStep::Next(s),
    }
}

/// Queues the fall-through address.
pub open spec fn push_fall(s: WalkState, fall: (usize, i64)) -> WalkState {
    WalkState { mem: s.mem, compiled: s.compiled, incons: s.incons, work: s.work.push(fall) }
}

/// One worklist step of the analyzer over the program image `sr`: take the
/// most recently queued address; drop it if it lies outside memory or is
/// already recorded; record `Invalid` where nothing decodes; otherwise mark
/// the instruction's own cells constant, record the instruction - or its
/// dynamic marker where a cell was already written, unless it is a
/// conditional jump, the analyzer's one fatality - and continue as
/// `walk_after` says.
pub open spec fn walk_step(sr: Seq<i64>, s: WalkState) -> WalkStep {
    let pc = s.work.last().0;
    let rel = s.work.last().1;
    let s1 = WalkState {
        mem: s.mem,
        compiled: s.compiled,
        incons: s.incons,
        work: s.work.drop_last(),
    };
    if !((pc as int) < s1.compiled.len()) {
        WalkStep::Next(s1)
    } else if s1.compiled[pc as int] is Some {
        WalkStep::Next(s1)
    } else {
        match crate::machine::spec_decode(sr, pc as int) {
            None => WalkStep::Next(
                WalkState {
                    mem: s1.mem,
                    compiled: s1.compiled.update(pc as int, Some(FixOp::Invalid)),
                    incons: s1.incons,
                    work: s1.work,
                },
            ),
            Some((op, delta)) => {
                let dynamic = spec_mark_code(s1.mem, pc as int, delta as int).1;
                let mem2 = spec_mark_code(s1.mem, pc as int, delta as int).0;
                if dynamic && (op is Jit || op is Jif) {
                    WalkStep::Fail(AnalysisError::UnresolvedControlFlow(pc))
                } else {
                    let fop = if dynamic {
                        FixOp::Dynamic(pc)
                    } else {
                        fix_of(op)
                    };
                    walk_after(
                        WalkState {
                            mem: mem2,
                            compiled: s1.compiled.update(pc as int, Some(fop)),
                            incons: s1.incons,
                            work: s1.work,
                        },
                        pc,
                        rel,
                        delta,
                        fop,
                    )
                }
            },
        }
    }
}

/// The whole walk: steps until the worklist is empty or the fatality, or
/// reports nothing yet if the step budget does not reach that far. The walk
/// of any program ends within some budget; `analyze` exhibits one.
#[verifier::opaque]
pub open spec fn spec_walk(sr: Seq<i64>, s: WalkState, fuel: nat) -> WalkRes
    decreases fuel,
{
    if s.work.len() == 0 {
        WalkRes::Done(s)
    } else if fuel == 0 {
        WalkRes::Stalled
    } else {
        match walk_step(sr, s) {
            WalkStep::Next(s2) => spec_walk(sr, s2, (fuel - 1) as nat),
            WalkStep::Fail(e) => WalkRes::Fail(e),
        }
    }
}

/// Advancing the walk by one real step shifts the budget by one.
proof fn lemma_walk_advance(sr: Seq<i64>, init: WalkState, cur: WalkState, cur2: WalkState, steps: nat)
    requires
        cur.work.len() > 0,
        walk_step(sr, cur) == WalkStep::Next(cur2),
        forall|m: nat| #[trigger] spec_walk(sr, cur, m) == spec_walk(sr, init, (steps + m) as nat),
    ensures
        forall|m: nat| #[trigger] spec_walk(sr, cur2, m) == spec_walk(sr, init, (steps + 1 + m) as nat),
{
    assert forall|m: nat| #[trigger] spec_walk(sr, cur2, m) == spec_walk(
        sr,
        init,
        (steps + 1 + m) as nat,
    ) by {
        assert(spec_walk(sr, cur, (m + 1) as nat) == spec_walk(sr, init, (steps + m + 1) as nat));
        assert(spec_walk(sr, cur, (m + 1) as nat) == spec_walk(sr, cur2, m)) by {
            reveal(spec_walk);
        }
    }
}

/// A failing step settles the whole walk.
proof fn lemma_walk_fail(sr: Seq<i64>, init: WalkState, cur: WalkState, steps: nat, e: AnalysisError)
    requires
        cur.work.len() > 0,
        walk_step(sr, cur) == WalkStep::Fail(e),
        forall|m: nat| #[trigger] spec_walk(sr, cur, m) == spec_walk(sr, init, (steps + m) as nat),
    ensures
        spec_walk(sr, init, (steps + 1) as nat) == WalkRes::Fail(e),
{
    assert(spec_walk(sr, cur, 1nat) == WalkRes::Fail(e)) by {
        reveal(spec_walk);
    }
    assert(spec_walk(sr, cur, 1nat) == spec_walk(sr, init, (steps + 1) as nat));
}

/// The walk's verdict does not depend on the budget: any two budgets that
/// settle it settle it the same way. In particular the walk cannot both
/// succeed and fail.
pub proof fn lemma_walk_determined(sr: Seq<i64>, s: WalkState, f1: nat, f2: nat)
    requires
        spec_walk(sr, s, f1) != WalkRes::Stalled,
        spec_walk(sr, s, f2) != WalkRes::Stalled,
    ensures
        spec_walk(sr, s, f1) == spec_walk(sr, s, f2),
    decreases f1,
{
    reveal(crate::decompile::spec_walk);
    if s.work.len() == 0 {
    } else {
        match walk_step(sr, s) {
            WalkStep::Next(s2) => {
                lemma_walk_determined(sr, s2, (f1 - 1) as nat, (f2 - 1) as nat);
            },
            WalkStep::Fail(e) => {},
        }
    }
}

/// An empty worklist settles the whole walk.
proof fn lemma_walk_done(sr: Seq<i64>, init: WalkState, cur: WalkState, steps: nat)
    requires
        cur.work.len() == 0,
        forall|m: nat| #[trigger] spec_walk(sr, cur, m) == spec_walk(sr, init, (steps + m) as nat),
    ensures
        spec_walk(sr, init, steps) == WalkRes::Done(cur),
{
    assert(spec_walk(sr, cur, 0nat) == WalkRes::Done(cur)) by {
        reveal(spec_walk);
    }
    assert(spec_walk(sr, cur, 0nat) == spec_walk(sr, init, (steps + 0) as nat));
}

/// Runs the symbolic walk from address 0, following both branches of every
/// resolvable conditional jump, classifying every touched cell as constant
/// (code, literal) or mutable (written), and recording one optimized
/// instruction per visited address. Each address is visited at most once;
/// paths end at a halt, a jump through the relative base, a decode fault,
/// or on falling into already-analyzed code. Instructions whose cells are
/// both code and written are recorded as `Dynamic` for the interpreter
/// fallback - unless they are conditional jumps, the one case the analyzer
/// gives up on.
///
/// On success the instruction stream is in strictly ascending address
/// order, the block set is cut at the labels surviving jumps use, and a
/// block labelled 0 always exists and comes first.
///
/// Both arms are pinned to `spec_walk`: on success some budget settles the
/// walk on a final state whose diagnostics are returned verbatim and whose
/// arena the returned stream mirrors address for address, rewritten by
/// `spec_transform`; on failure some budget settles the walk on exactly the
/// returned error, which names a decoded conditional jump or a
/// relative-base adjustment without a literal operand.
#[verifier::rlimit(100)]
pub fn analyze(intcode: &[i64]) -> (r: Result<Analysis, AnalysisError>)
    requires
        intcode@.len() + 4 <= usize::MAX,
    ensures
        match r {
            Ok(a) => a.blocks@.len() > 0 && a.blocks@[0].label == 0 && a.ops@.len() > 0
                && a.ops@[0].0 == 0 && (forall|i: int|
                0 <= i < a.ops@.len() ==> faithful_at(
                    crate::machine::padded(intcode@),
                    #[trigger] a.ops@[i].0,
                    a.ops@[i].1,
                )) && (forall|i: int, j: int|
                0 <= i < j < a.ops@.len() ==> #[trigger] a.ops@[i].0 < #[trigger] a.ops@[j].0)
                && (forall|i: int, j: int|
                0 <= i < j < a.blocks@.len() ==> #[trigger] a.blocks@[i].label
                    < #[trigger] a.blocks@[j].label) && flat_ops(a.blocks@) == a.ops@ && (forall|j: int|
                1 <= j < a.blocks@.len() ==> #[trigger] a.blocks@[j].ops@.len() > 0
                    && a.blocks@[j].label == a.blocks@[j].ops@[0].0) && (exists|f: nat|
                #![trigger spec_walk(crate::machine::padded(intcode@), walk_init(crate::machine::padded(intcode@).len() as int), f)]
                spec_walk(
                    crate::machine::padded(intcode@),
                    walk_init(crate::machine::padded(intcode@).len() as int),
                    f,
                ) matches WalkRes::Done(w) && a.inconsistencies@ == w.incons && w.compiled.len()
                    == crate::machine::padded(intcode@).len() && (forall|k: int|
                    0 <= k < a.ops@.len() ==> (a.ops@[k].0 as int) < w.compiled.len() && (
                    match w.compiled[a.ops@[k].0 as int] {
                        Some(f0) => (#[trigger] a.ops@[k]).1 == spec_transform(f0),
                        None => false,
                    })) && (forall|ad: int|
                    0 <= ad < w.compiled.len() ==> (#[trigger] w.compiled[ad] is Some
                        <==> exists|k: int|
                        0 <= k < a.ops@.len() && (#[trigger] a.ops@[k].0) as int == ad))),
            Err(e) => e matches AnalysisError::UnresolvedControlFlow(pc) && (match crate::machine::spec_decode(
                crate::machine::padded(intcode@),
                pc as int,
            ) {
                Some((op, delta)) => op is Jit || op is Jif || (op matches Op::Crb(a) && !(a
                    is Imm)),
                None => false,
            }) && (exists|f: nat|
                #![trigger spec_walk(crate::machine::padded(intcode@), walk_init(crate::machine::padded(intcode@).len() as int), f)]
                spec_walk(
                    crate::machine::padded(intcode@),
                    walk_init(crate::machine::padded(intcode@).len() as int),
                    f,
                ) == WalkRes::Fail(e)),
        },
{
    let vm = Machine::new(intcode);
    let n = vm.sr.len();
    let mut alz = Analyzer {
        mem: make_filled(n, CellType::Unknown),
        compiled: make_empty(n),
        vm,
        inconsistencies: Vec::new(),
    };
    let mut work: Vec<(usize, i64)> = Vec::new();
    work.push((0, 0));
    let ghost srp = crate::machine::padded(intcode@);
    let ghost init = walk_init(srp.len() as int);
    let ghost mut steps: nat = 0;
    proof {
        assert(work@[0] == (0usize, 0i64));
        assert(alz.compiled@.len() >= MEMORY_SIZE as int);
        assert(alz.mem@ =~= init.mem);
        assert(alz.compiled@ =~= init.compiled);
        assert(alz.inconsistencies@ =~= init.incons);
        assert(work@ =~= init.work);
        assert(WalkState {
            mem: alz.mem@,
            compiled: alz.compiled@,
            incons: alz.inconsistencies@,
            work: work@,
        } == init);
    }

    loop
        invariant
            alz.wf(),
            alz.vm.sr@ == crate::machine::padded(intcode@),
            alz.compiled@.len() > 0,
            alz.compiled@[0] is Some || (work@.len() > 0 && work@[0] == (0usize, 0i64)),
            forall|j: int|
                0 <= j < alz.compiled@.len() ==> (match #[trigger] alz.compiled@[j] {
                    Some(f) => recorded_at(alz.vm.sr@, j as usize, f),
                    None => true,
                }),
            srp == crate::machine::padded(intcode@),
            init == walk_init(srp.len() as int),
            forall|m: nat| #[trigger] spec_walk(
                srp,
                WalkState {
                    mem: alz.mem@,
                    compiled: alz.compiled@,
                    incons: alz.inconsistencies@,
                    work: work@,
                },
                m,
            ) == spec_walk(srp, init, (steps + m) as nat),
        ensures
            alz.wf(),
            alz.vm.sr@ == crate::machine::padded(intcode@),
            alz.compiled@.len() > 0,
            alz.compiled@[0] is Some,
            forall|j: int|
                0 <= j < alz.compiled@.len() ==> (match #[trigger] alz.compiled@[j] {
                    Some(f) => recorded_at(alz.vm.sr@, j as usize, f),
                    None => true,
                }),
            spec_walk(srp, init, steps) == WalkRes::Done(
                WalkState {
                    mem: alz.mem@,
                    compiled: alz.compiled@,
                    incons: alz.inconsistencies@,
                    work: Seq::empty(),
                },
            ),
            srp == crate::machine::padded(intcode@),
            init == walk_init(srp.len() as int),
        decreases count_none(alz.compiled@), work@.len(),
    {
        let ghost pre = WalkState {
            mem: alz.mem@,
            compiled: alz.compiled@,
            incons: alz.inconsistencies@,
            work: work@,
        };
        let ghost work0 = work@;
        let (pc, rel) = match work.pop() {
            Some(x) => x,
            None => {
                proof {
                    assert(pre.work =~= Seq::<(usize, i64)>::empty());
                    assert(pre == (WalkState {
                        mem: alz.mem@,
                        compiled: alz.compiled@,
                        incons: alz.inconsistencies@,
                        work: Seq::empty(),
                    }));
                    lemma_walk_done(srp, init, pre, steps);
                }
                break;
            },
        };
        proof {
            if alz.compiled@[0] is None && work0.len() > 1 {
                assert(work@[0] == work0[0]);
            }
            assert(pre.work.len() > 0);
            assert(pre.work.last() == (pc, rel));
            assert(work@ =~= pre.work.drop_last());
        }
        if pc >= alz.compiled.len() {
            proof {
                let cur2 = WalkState {
                    mem: alz.mem@,
                    compiled: alz.compiled@,
                    incons: alz.inconsistencies@,
                    work: work@,
                };
                assert(walk_step(srp, pre) == WalkStep::Next(cur2));
                lemma_walk_advance(srp, init, pre, cur2, steps);
                steps = steps + 1;
            }
            continue;
        }
        if alz.compiled[pc].is_some() {
            proof {
                let cur2 = WalkState {
                    mem: alz.mem@,
                    compiled: alz.compiled@,
                    incons: alz.inconsistencies@,
                    work: work@,
                };
                assert(walk_step(srp, pre) == WalkStep::Next(cur2));
                lemma_walk_advance(srp, init, pre, cur2, steps);
                steps = steps + 1;
            }
            continue;
        }
        let (op, delta) = match alz.vm.peek_at(pc) {
            Some(x) => x,
            None => {
                proof {
                    lemma_count_none_fill(alz.compiled@, pc as int, FixOp::Invalid);
                    assert(recorded_at(alz.vm.sr@, pc, FixOp::Invalid));
                }
                alz.compiled.set(pc, Some(FixOp::Invalid));
                proof {
                    let cur2 = WalkState {
                        mem: alz.mem@,
                        compiled: alz.compiled@,
                        incons: alz.inconsistencies@,
                        work: work@,
                    };
                    assert(walk_step(srp, pre) == WalkStep::Next(cur2));
                    lemma_walk_advance(srp, init, pre, cur2, steps);
                    steps = steps + 1;
                }
                continue;
            },
        };

        // the instruction's own cells are code, hence constant
        let dynamic = mark_code(&mut alz, pc, delta);

        let fop = match lower_op(op, pc, dynamic) {
            Ok(f) => f,
            Err(e) => {
                proof {
                    assert(walk_step(srp, pre) == WalkStep::Fail(e));
                    lemma_walk_fail(srp, init, pre, steps, e);
                }
                return Err(e);
            },
        };
        proof {
            lemma_count_none_fill(alz.compiled@, pc as int, fop);
            assert(recorded_at(alz.vm.sr@, pc, fop));
        }
        alz.compiled.set(pc, Some(fop));

        match fop {
            FixOp::Halt => {},
            FixOp::Jr0 => {},
            FixOp::Invalid => {},
            FixOp::Out(_) => {
                work.push((pc + delta, rel));
            },
            FixOp::Dynamic(_) => {
                work.push((pc + delta, rel));
            },
            FixOp::Add(_, _, c) => {
                mark_write(&mut alz, c, rel);
                work.push((pc + delta, rel));
            },
            FixOp::Mul(_, _, c) => {
                mark_write(&mut alz, c, rel);
                work.push((pc + delta, rel));
            },
            FixOp::Ltn(_, _, c) => {
                mark_write(&mut alz, c, rel);
                work.push((pc + delta, rel));
            },
            FixOp::Equ(_, _, c) => {
                mark_write(&mut alz, c, rel);
                work.push((pc + delta, rel));
            },
            FixOp::Inp(c) => {
                mark_write(&mut alz, c, rel);
                work.push((pc + delta, rel));
            },
            FixOp::Jit(_, b) => {
                match b {
                    Operand::Imm(t) => {
                        work.push((to_index(t), rel));
                        work.push((pc + delta, rel));
                    },
                    _ => {
                        proof {
                            assert(walk_step(srp, pre) == WalkStep::Fail(
                                AnalysisError::UnresolvedControlFlow(pc),
                            ));
                            lemma_walk_fail(
                                srp,
                                init,
                                pre,
                                steps,
                                AnalysisError::UnresolvedControlFlow(pc),
                            );
                        }
                        return Err(AnalysisError::UnresolvedControlFlow(pc));
                    },
                }
            },
            FixOp::Jif(_, b) => {
                match b {
                    Operand::Imm(t) => {
                        work.push((to_index(t), rel));
                        work.push((pc + delta, rel));
                    },
                    _ => {
                        proof {
                            assert(walk_step(srp, pre) == WalkStep::Fail(
                                AnalysisError::UnresolvedControlFlow(pc),
                            ));
                            lemma_walk_fail(
                                srp,
                                init,
                                pre,
                                steps,
                                AnalysisError::UnresolvedControlFlow(pc),
                            );
                        }
                        return Err(AnalysisError::UnresolvedControlFlow(pc));
                    },
                }
            },
            FixOp::Crb(a) => {
                match a {
                    Operand::Imm(v) => {
                        work.push((pc + delta, rel.wrapping_add(v)));
                    },
                    _ => {
                        proof {
                            assert(walk_step(srp, pre) == WalkStep::Fail(
                                AnalysisError::UnresolvedControlFlow(pc),
                            ));
                            lemma_walk_fail(
                                srp,
                                init,
                                pre,
                                steps,
                                AnalysisError::UnresolvedControlFlow(pc),
                            );
                        }
                        return Err(AnalysisError::UnresolvedControlFlow(pc));
                    },
                }
            },
            FixOp::Mov(_, _) => {},
            FixOp::Jmp(_) => {},
        }
        proof {
            let cur2 = WalkState {
                mem: alz.mem@,
                compiled: alz.compiled@,
                incons: alz.inconsistencies@,
                work: work@,
            };
            assert(walk_step(srp, pre) == WalkStep::Next(cur2));
            lemma_walk_advance(srp, init, pre, cur2, steps);
            steps = steps + 1;
        }
    }

    let compiled_vec = alz.compiled;
    let inconsistencies = alz.inconsistencies;
    let ghost sr = crate::machine::padded(intcode@);
    let a = assemble(compiled_vec, inconsistencies, Ghost(sr));
    proof {
        assert(spec_walk(srp, walk_init(srp.len() as int), steps) matches WalkRes::Done(w)
            && a.inconsistencies@ == w.incons && w.compiled.len() == srp.len() && (forall|k: int|
            0 <= k < a.ops@.len() ==> (a.ops@[k].0 as int) < w.compiled.len() && (
            match w.compiled[a.ops@[k].0 as int] {
                Some(f0) => (#[trigger] a.ops@[k]).1 == spec_transform(f0),
                None => false,
            })) && (forall|ad: int|
            0 <= ad < w.compiled.len() ==> (#[trigger] w.compiled[ad] is Some <==> exists|k: int|
                0 <= k < a.ops@.len() && (#[trigger] a.ops@[k].0) as int == ad)));
    }
    Ok(a)
}

/// Collects the recorded instructions in ascending address order, applies
/// the local rewrites, and cuts the stream into basic blocks. The result
/// carries exactly the rewritten image of each arena entry: an address is
/// in the stream precisely when the walk recorded it.
#[verifier::rlimit(100)]
fn assemble(compiled: Vec<Option<FixOp>>, inconsistencies: Vec<usize>, Ghost(sr): Ghost<Seq<i64>>) -> (a:
    Analysis)
    requires
        compiled@.len() > 0,
        compiled@[0] is Some,
        forall|j: int|
            0 <= j < compiled@.len() ==> (match #[trigger] compiled@[j] {
                Some(f) => recorded_at(sr, j as usize, f),
                None => true,
            }),
    ensures
        a.inconsistencies == inconsistencies,
        a.blocks@.len() > 0,
        a.blocks@[0].label == 0,
        a.ops@.len() > 0,
        a.ops@[0].0 == 0,
        forall|i: int| 0 <= i < a.ops@.len() ==> faithful_at(sr, #[trigger] a.ops@[i].0, a.ops@[i].1),
        forall|i: int, j: int|
            0 <= i < j < a.ops@.len() ==> #[trigger] a.ops@[i].0 < #[trigger] a.ops@[j].0,
        forall|i: int, j: int|
            0 <= i < j < a.blocks@.len() ==> #[trigger] a.blocks@[i].label < #[trigger] a.blocks@[j].label,
        flat_ops(a.blocks@) == a.ops@,
        forall|j: int|
            1 <= j < a.blocks@.len() ==> #[trigger] a.blocks@[j].ops@.len() > 0 && a.blocks@[j].label
                == a.blocks@[j].ops@[0].0,
        forall|k: int|
            0 <= k < a.ops@.len() ==> (a.ops@[k].0 as int) < compiled@.len() && (
            match compiled@[a.ops@[k].0 as int] {
                Some(f0) => (#[trigger] a.ops@[k]).1 == spec_transform(f0),
                None => false,
            }),
        forall|ad: int|
            0 <= ad < compiled@.len() ==> (#[trigger] compiled@[ad] is Some <==> exists|k: int|
                0 <= k < a.ops@.len() && (#[trigger] a.ops@[k].0) as int == ad),
{
    // collect the visited addresses in ascending order
    let mut ops: Vec<(usize, FixOp)> = Vec::new();
    let mut i: usize = 0;
    while i < compiled.len()
        invariant
            i <= compiled@.len(),
            compiled@[0] is Some,
            forall|a: int, b: int| 0 <= a < b < ops@.len() ==> #[trigger] ops@[a].0 < #[trigger] ops@[b].0,
            forall|a: int| 0 <= a < ops@.len() ==> #[trigger] ops@[a].0 < i,
            i > 0 ==> ops@.len() > 0 && ops@[0].0 == 0,
            forall|k: int|
                0 <= k < ops@.len() ==> (ops@[k].0 as int) < compiled@.len() && (
                match compiled@[ops@[k].0 as int] {
                    Some(f0) => (#[trigger] ops@[k]).1 == f0,
                    None => false,
                }),
            forall|ad: int|
                0 <= ad < i ==> (#[trigger] compiled@[ad] is Some <==> exists|k: int|
                    0 <= k < ops@.len() && (#[trigger] ops@[k].0) as int == ad),
        decreases compiled@.len() - i,
    {
        let ghost ops0 = ops@;
        match compiled[i] {
            Some(op) => {
                ops.push((i, op));
                proof {
                    assert((ops@[ops@.len() - 1].0) as int == i as int);
                }
            },
            None => {},
        }
        proof {
            if i == 0 {
                assert(ops@.len() > 0 && ops@[0].0 == 0);
            }
            assert forall|ad: int|
                0 <= ad < i + 1 implies (#[trigger] compiled@[ad] is Some <==> exists|k: int|
                    0 <= k < ops@.len() && (#[trigger] ops@[k].0) as int == ad) by {
                if ad < i {
                    if compiled@[ad] is Some {
                        let k = choose|k: int|
                            0 <= k < ops0.len() && (#[trigger] ops0[k].0) as int == ad;
                        assert((ops@[k].0) as int == ad);
                    } else {
                        assert forall|k: int|
                            0 <= k < ops@.len() implies (#[trigger] ops@[k].0) as int != ad by {
                            if k < ops0.len() {
                                assert(ops@[k] == ops0[k]);
                            }
                        }
                    }
                } else {
                    if compiled@[ad] is Some {
                        assert((ops@[ops@.len() - 1].0) as int == ad);
                    } else {
                        assert forall|k: int|
                            0 <= k < ops@.len() implies (#[trigger] ops@[k].0) as int != ad by {
                            assert(ops@[k].0 < i + 1);
                        }
                    }
                }
            }
        }
        i += 1;
    }

    proof {
        assert forall|a: int|
            0 <= a < ops@.len() implies recorded_at(sr, #[trigger] ops@[a].0, ops@[a].1) by {
            assert(compiled@[ops@[a].0 as int] == Some(ops@[a].1));
        }
    }
    let done = transform(ops);
    proof {
        assert forall|a: int|
            0 <= a < done@.len() implies faithful_at(sr, #[trigger] done@[a].0, done@[a].1) by {
            assert(recorded_at(sr, done@[a].0, ops@[a].1));
            assert(done@[a].1 == spec_transform(ops@[a].1));
        }
        assert forall|ad: int|
            0 <= ad < compiled@.len() implies (#[trigger] compiled@[ad] is Some <==> exists|k: int|
                0 <= k < done@.len() && (#[trigger] done@[k].0) as int == ad) by {
            if compiled@[ad] is Some {
                let k = choose|k: int| 0 <= k < ops@.len() && (ops@[k].0) as int == ad;
                assert((done@[k].0) as int == ad);
            }
            if exists|k: int| 0 <= k < done@.len() && (done@[k].0) as int == ad {
                let k = choose|k: int| 0 <= k < done@.len() && (done@[k].0) as int == ad;
                assert((ops@[k].0) as int == ad);
            }
        }
    }
    let blocks = cut_blocks(&done, compiled.len());
    Analysis { ops: done, blocks, inconsistencies }
}

/// Marks the target of a write instruction mutable, where it can be
/// resolved to a cell.
fn mark_write(alz: &mut Analyzer, c: Operand, rel: i64)
    requires
        old(alz).wf(),
    ensures
        final(alz).wf(),
        final(alz).compiled == old(alz).compiled,
        final(alz).vm == old(alz).vm,
        ({
            let s2 = spec_mark_write(
                WalkState {
                    mem: old(alz).mem@,
                    compiled: old(alz).compiled@,
                    incons: old(alz).inconsistencies@,
                    work: Seq::empty(),
                },
                rel,
                c,
            );
            final(alz).mem@ == s2.mem && final(alz).inconsistencies@ == s2.incons
        }),
{
    match alz.write_target(c, rel) {
        Some(p) => {
            alz.mark_mutable(p);
        },
        None => {},
    }
}

/// The address an instruction can hand control to: the target of an
/// unconditional or conditional literal jump, or a literal written right at
/// the relative base (a computed return address).
pub open spec fn jump_target(op: FixOp) -> Option<usize> {
    match op {
        FixOp::Jmp(l) => Some(l),
        FixOp::Jit(a, b) => match b {
            Operand::Imm(t) => Some(crate::machine::pos_index(t)),
            _ => None,
        },
        FixOp::Jif(a, b) => match b {
            Operand::Imm(t) => Some(crate::machine::pos_index(t)),
            _ => None,
        },
        FixOp::Mov(a, b) => match (a, b) {
            (Operand::Imm(t), Operand::Rel(z)) => if z == 0i64 {
                Some(crate::machine::pos_index(t))
            } else {
                None
            },
            _ => None,
        },
        _ => None,
    }
}

/// The labels that any surviving jump still targets, exactly: the entry
/// address, plus every address some instruction of the stream can hand
/// control to. Everything else is pruned.
fn find_used_labels(ops: &Vec<(usize, FixOp)>, n: usize) -> (used: Vec<bool>)
    ensures
        used@.len() == n,
        forall|t: int|
            0 <= t < n ==> (used@[t] <==> (t == 0 || exists|i: int|
                0 <= i < ops@.len() && jump_target(#[trigger] ops@[i].1) == Some(t as usize))),
{
    let mut used = make_filled(n, false);
    if n > 0 {
        used.set(0, true);
    }
    let mut i: usize = 0;
    while i < ops.len()
        invariant
            used@.len() == n,
            i <= ops@.len(),
            forall|t: int|
                0 <= t < n ==> (used@[t] <==> (t == 0 || exists|j: int|
                    0 <= j < i && jump_target(#[trigger] ops@[j].1) == Some(t as usize))),
        decreases ops@.len() - i,
    {
        let target: Option<usize> = match ops[i].1 {
            FixOp::Jmp(l) => Some(l),
            FixOp::Jit(_, Operand::Imm(t)) => Some(to_index(t)),
            FixOp::Jif(_, Operand::Imm(t)) => Some(to_index(t)),
            FixOp::Mov(Operand::Imm(t), Operand::Rel(0i64)) => Some(to_index(t)),
            _ => None,
        };
        proof {
            assert(target == jump_target(ops@[i as int].1));
        }
        match target {
            Some(t) => {
                if t < used.len() && t != 0 {
                    used.set(t, true);
                }
            },
            None => {},
        }
        i += 1;
    }
    used
}

/// The instructions of all blocks, in block order.
pub open spec fn flat_ops(blocks: Seq<Block>) -> Seq<(usize, FixOp)>
    decreases blocks.len(),
{
    if blocks.len() == 0 {
        Seq::empty()
    } else {
        blocks[0].ops@ + flat_ops(blocks.skip(1))
    }
}

/// Appending a block appends its instructions.
proof fn lemma_flat_push(blocks: Seq<Block>, b: Block)
    ensures
        flat_ops(blocks.push(b)) == flat_ops(blocks) + b.ops@,
    decreases blocks.len(),
{
    if blocks.len() == 0 {
        assert(blocks.push(b).skip(1) =~= Seq::<Block>::empty());
        assert(flat_ops(Seq::<Block>::empty()) == Seq::<(usize, FixOp)>::empty());
        assert(flat_ops(blocks.push(b)) == blocks.push(b)[0].ops@ + flat_ops(
            blocks.push(b).skip(1),
        ));
        assert(flat_ops(blocks.push(b)) =~= b.ops@);
        assert(flat_ops(blocks) + b.ops@ =~= b.ops@);
    } else {
        assert(blocks.push(b).skip(1) =~= blocks.skip(1).push(b));
        lemma_flat_push(blocks.skip(1), b);
        assert(flat_ops(blocks.push(b)) =~= flat_ops(blocks) + b.ops@);
    }
}

/// Whether a fresh basic block must begin at `addr`: the address is not the
/// entry, lies inside the classification range, and some instruction of the
/// stream can hand control to it.
pub open spec fn cut_point(ops: Seq<(usize, FixOp)>, n: int, addr: usize) -> bool {
    addr != 0 && (addr as int) < n && (exists|i: int|
        0 <= i < ops.len() && jump_target(#[trigger] ops[i].1) == Some(addr))
}

/// Cuts the instruction stream into basic blocks, exactly at the used
/// labels: the entry block is labelled 0 and always exists; every other
/// block begins precisely at a surviving jump target, is keyed by the
/// address of its first instruction, and no jump target hides inside a
/// block; labels ascend strictly; and reading the blocks in order gives
/// back exactly the instructions that went in.
#[verifier::rlimit(100)]
pub fn cut_blocks(ops: &Vec<(usize, FixOp)>, n: usize) -> (blocks: Vec<Block>)
    requires
        forall|a: int, b: int| 0 <= a < b < ops@.len() ==> #[trigger] ops@[a].0 < #[trigger] ops@[b].0,
    ensures
        blocks@.len() > 0,
        blocks@[0].label == 0,
        forall|a: int, b: int|
            0 <= a < b < blocks@.len() ==> #[trigger] blocks@[a].label < #[trigger] blocks@[b].label,
        flat_ops(blocks@) == ops@,
        ops@.len() > 0 ==> blocks@[0].ops@.len() > 0,
        forall|j: int|
            1 <= j < blocks@.len() ==> #[trigger] blocks@[j].ops@.len() > 0 && blocks@[j].label
                == blocks@[j].ops@[0].0 && cut_point(ops@, n as int, blocks@[j].label),
        forall|j: int, k: int|
            0 <= j < blocks@.len() && 1 <= k < blocks@[j].ops@.len() ==> !cut_point(
                ops@,
                n as int,
                (#[trigger] blocks@[j].ops@[k]).0,
            ),
{
    let used = find_used_labels(ops, n);
    let mut blocks: Vec<Block> = Vec::new();
    let mut cur_label: usize = 0;
    let mut cur_ops: Vec<(usize, FixOp)> = Vec::new();
    let mut i: usize = 0;
    proof {
        assert(flat_ops(blocks@) + cur_ops@ =~= ops@.subrange(0, 0));
    }
    while i < ops.len()
        invariant
            used@.len() == n,
            forall|t: int|
                0 <= t < n ==> (used@[t] <==> (t == 0 || exists|q: int|
                    0 <= q < ops@.len() && jump_target(#[trigger] ops@[q].1) == Some(t as usize))),
            forall|a: int, b: int|
                0 <= a < b < ops@.len() ==> #[trigger] ops@[a].0 < #[trigger] ops@[b].0,
            i <= ops@.len(),
            blocks@.len() == 0 ==> cur_label == 0,
            blocks@.len() > 0 ==> blocks@[0].label == 0,
            forall|a: int, b: int|
                0 <= a < b < blocks@.len() ==> #[trigger] blocks@[a].label < #[trigger] blocks@[b].label,
            forall|a: int| 0 <= a < blocks@.len() ==> #[trigger] blocks@[a].label < cur_label,
            flat_ops(blocks@) + cur_ops@ == ops@.subrange(0, i as int),
            i > 0 ==> cur_label <= ops@[i - 1].0,
            i > 0 ==> (if blocks@.len() == 0 {
                cur_ops@.len() > 0
            } else {
                blocks@[0].ops@.len() > 0
            }),
            forall|j: int|
                1 <= j < blocks@.len() ==> #[trigger] blocks@[j].ops@.len() > 0 && blocks@[j].label
                    == blocks@[j].ops@[0].0 && cut_point(ops@, n as int, blocks@[j].label),
            forall|j: int, k: int|
                0 <= j < blocks@.len() && 1 <= k < blocks@[j].ops@.len() ==> !cut_point(
                    ops@,
                    n as int,
                    (#[trigger] blocks@[j].ops@[k]).0,
                ),
            blocks@.len() > 0 ==> (cur_ops@.len() > 0 && cur_ops@[0].0 == cur_label && cut_point(
                ops@,
                n as int,
                cur_label,
            )),
            forall|k: int|
                1 <= k < cur_ops@.len() ==> !cut_point(ops@, n as int, (#[trigger] cur_ops@[k]).0),
        decreases ops@.len() - i,
    {
        let (addr, op) = ops[i];
        if i > 0 && addr != 0 && addr < used.len() && used[addr] {
            proof {
                assert(cut_point(ops@, n as int, addr)) by {
                    assert(jump_target(ops@[choose|q: int|
                        0 <= q < ops@.len() && jump_target(ops@[q].1) == Some(addr)].1) == Some(
                        addr,
                    )) by {
                        assert(used@[addr as int]);
                    }
                }
                assert(cur_label < addr);
                lemma_flat_push(blocks@, Block { label: cur_label, ops: cur_ops });
            }
            blocks.push(Block { label: cur_label, ops: cur_ops });
            cur_ops = Vec::new();
            proof {
                assert(flat_ops(blocks@) + cur_ops@ =~= flat_ops(blocks@));
            }
            cur_label = addr;
        } else {
            proof {
                if i > 0 {
                    assert(!cut_point(ops@, n as int, addr)) by {
                        if addr != 0 && (addr as int) < n as int {
                            assert(!used@[addr as int]);
                        }
                    }
                }
            }
        }
        cur_ops.push((addr, op));
        proof {
            assert(ops@.subrange(0, i + 1) =~= ops@.subrange(0, i as int).push(ops@[i as int]));
        }
        i += 1;
    }
    proof {
        lemma_flat_push(blocks@, Block { label: cur_label, ops: cur_ops });
        assert(ops@.subrange(0, ops@.len() as int) =~= ops@);
    }
    blocks.push(Block { label: cur_label, ops: cur_ops });
    blocks
}

/// A vector of `n` copies of one value.
fn make_filled<T: Copy>(n: usize, v: T) -> (r: Vec<T>)
    ensures
        r@.len() == n,
        forall|i: int| 0 <= i < n ==> r@[i] == v,
{
    let mut r: Vec<T> = Vec::new();
    let mut i: usize = 0;
    while i < n
        invariant
            i <= n,
            r@.len() == i,
            forall|j: int| 0 <= j < i ==> r@[j] == v,
        decreases n - i,
    {
        r.push(v);
        i += 1;
    }
    r
}

/// A vector of `n` empty slots.
fn make_empty(n: usize) -> (r: Vec<Option<FixOp>>)
    ensures
        r@.len() == n,
        forall|i: int| 0 <= i < n ==> r@[i] is None,
{
    let mut r: Vec<Option<FixOp>> = Vec::new();
    let mut i: usize = 0;
    while i < n
        invariant
            i <= n,
            r@.len() == i,
            forall|j: int| 0 <= j < i ==> r@[j] is None,
        decreases n - i,
    {
        r.push(None);
        i += 1;
    }
    r
}

} // verus!
