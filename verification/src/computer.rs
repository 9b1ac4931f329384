use vstd::prelude::*;

verus! {

/// The primitive machine: additions and multiplications over a flat memory
/// of signed 64-bit cells, with absolute addressing only.
pub struct Computer {
    pub sr: Vec<i64>,
    pub pc: usize,
}

/// An operand word names a cell. A negative word wraps far past any
/// allocatable memory, so using it faults.
pub open spec fn cell_index(x: i64) -> int {
    if 0 <= x <= usize::MAX {
        x as int
    } else {
        usize::MAX as int
    }
}

/// The operand cell at `i`, or a sentinel index for cells beyond the end of
/// memory; any error is deferred to actual use.
pub open spec fn operand_index(sr: Seq<i64>, i: int) -> int {
    if 0 <= i < sr.len() {
        cell_index(sr[i])
    } else {
        99999
    }
}

impl Computer {
    /// Builds a machine over a copy of the given memory image, with the
    /// program counter at the first cell.
    pub fn new(input: &[i64]) -> (c: Self)
        ensures
            c.sr@ == input@,
            c.pc == 0,
    {
        Computer { sr: crate::copy_cells(input), pc: 0 }
    }

    /// Executes exactly one instruction. Returns `Some(false)` on a halt
    /// and `Some(true)` after a successful write. Every failure is a
    /// reported fault, never a crash: `None` when the counter or the opcode
    /// cell cannot be decoded (nothing moves), or when an operand names a
    /// cell outside memory (the counter has advanced past the instruction).
    pub fn step(&mut self) -> (r: Option<bool>)
        requires
            old(self).sr@.len() + 4 <= usize::MAX,
        ensures
            ({
                let i = old(self).pc as int;
                let sr = old(self).sr@;
                let a = operand_index(sr, i + 1);
                let b = operand_index(sr, i + 2);
                let c = operand_index(sr, i + 3);
                if !(0 <= i < sr.len()) {
                    r == None::<bool> && final(self).sr@ == sr && final(self).pc == old(self).pc
                } else if sr[i] == 99 {
                    r == Some(false) && final(self).sr@ == sr && (final(self).pc as int) == i + 1
                } else if sr[i] == 1 || sr[i] == 2 {
                    (final(self).pc as int) == i + 4 && if 0 <= a < sr.len() && 0 <= b < sr.len()
                        && 0 <= c < sr.len() {
                        r == Some(true) && final(self).sr@ == sr.update(
                            c,
                            if sr[i] == 1 {
                                vstd::wrapping::i64_specs::wrapping_add(sr[a], sr[b])
                            } else {
                                vstd::wrapping::i64_specs::wrapping_mul(sr[a], sr[b])
                            },
                        )
                    } else {
                        r == None::<bool> && final(self).sr@ == sr
                    }
                } else {
                    r == None::<bool> && final(self).sr@ == sr && final(self).pc == old(self).pc
                }
            }),
    {
        let i = self.pc;
        if i >= self.sr.len() {
            return None;
        }
        let o = self.sr[i];
        if o == 99 {
            self.pc = i + 1;
            return Some(false);
        }
        if o != 1 && o != 2 {
            return None;
        }
        let a = self.operand_at(i + 1);
        let b = self.operand_at(i + 2);
        let c = self.operand_at(i + 3);
        self.pc = i + 4;
        if a < self.sr.len() && b < self.sr.len() && c < self.sr.len() {
            let x = self.sr[a];
            let y = self.sr[b];
            let v = if o == 1 {
                x.wrapping_add(y)
            } else {
                x.wrapping_mul(y)
            };
            self.sr.set(c, v);
            Some(true)
        } else {
            None
        }
    }

    /// Reads the operand cell at `i` as a cell index.
    fn operand_at(&self, i: usize) -> (r: usize)
        ensures
            r == operand_index(self.sr@, i as int),
    {
        if i < self.sr.len() {
            let x = self.sr[i];
            if 0 <= x && (x as u64) <= (usize::MAX as u64) {
                x as usize
            } else {
                usize::MAX
            }
        } else {
            99999
        }
    }
}

} // verus!
