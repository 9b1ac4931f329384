//! A verified virtual machine for a small register/memory bytecode, with a
//! static analyzer, a decompiler to an optimized intermediate form, and the
//! semantic core of a just-in-time compiler.
//!
//! Programs are flat sequences of signed 64-bit cells holding their own
//! instructions and data. `computer` is the primitive add/multiply machine;
//! `intcode` adds addressing modes, pluggable input/output capabilities and
//! a per-cell usage classifier; `machine` is the full machine with a
//! relative-base register, driven through a resumable `run`. `decompile`
//! walks a program symbolically into labelled basic blocks of peephole-
//! optimized instructions, and `jit` gives those blocks their exact
//! executable meaning, interpreter fallback included - the reference any
//! native code emission has to preserve.

pub mod computer;
pub mod intcode;
pub mod machine;
pub mod decompile;
pub mod jit;

use vstd::prelude::*;

verus! {

/// Copies a memory image into a fresh, owned buffer.
pub fn copy_cells(input: &[i64]) -> (v: Vec<i64>)
    ensures
        v@ == input@,
{
    let mut v: Vec<i64> = Vec::new();
    let mut i: usize = 0;
    while i < input.len()
        invariant
            i <= input@.len(),
            v@ == input@.subrange(0, i as int),
        decreases input@.len() - i,
    {
        v.push(input[i]);
        i += 1;
    }
    proof {
        assert(v@ =~= input@);
    }
    v
}

/// Greatest common divisor of two naturals, by Euclid's rule.
pub open spec fn gcd_nat(a: nat, b: nat) -> nat
    decreases b,
{
    if b == 0 {
        a
    } else {
        gcd_nat(b, a % b)
    }
}

/// The gcd of two naturals that are not both zero is positive.
pub proof fn lemma_gcd_pos(a: nat, b: nat)
    requires
        a != 0 || b != 0,
    ensures
        gcd_nat(a, b) != 0,
    decreases b,
{
    if b != 0 {
        lemma_gcd_pos(b, a % b);
    }
}

/// Greatest common divisor of the absolute values of `a` and `b`.
pub fn gcd(a: i64, b: i64) -> (r: i64)
    requires
        a != i64::MIN,
        b != i64::MIN,
    ensures
        r == gcd_nat(vstd::math::abs(a as int) as nat, vstd::math::abs(b as int) as nat),
{
    let aa: i64 = if a < 0 { -a } else { a };
    let ab: i64 = if b < 0 { -b } else { b };
    let (mut x, mut y): (i64, i64) = if aa > ab { (aa, ab) } else { (ab, aa) };
    proof {
        lemma_gcd_swap(aa as nat, ab as nat);
    }
    while y != 0
        invariant
            0 <= y <= x,
            gcd_nat(x as nat, y as nat) == gcd_nat(vstd::math::abs(aa as int) as nat, vstd::math::abs(ab as int) as nat),
        decreases y,
    {
        let r = x % y;
        x = y;
        y = r;
    }
    x
}

/// gcd is insensitive to the order of its arguments.
proof fn lemma_gcd_swap(a: nat, b: nat)
    ensures
        gcd_nat(a, b) == gcd_nat(b, a),
{
    if a == 0 && b == 0 {
    } else if b == 0 {
        assert(gcd_nat(b, a) == gcd_nat(a, b % a)) by {
            assert(b % a == 0) by {
                vstd::arithmetic::div_mod::lemma_small_mod(b, a);
            }
        }
    } else if a == 0 {
        assert(gcd_nat(a, b) == gcd_nat(b, a % b)) by {
            assert(a % b == 0) by {
                vstd::arithmetic::div_mod::lemma_small_mod(a, b);
            }
        }
    } else {
        if a > b {
            assert(gcd_nat(b, a) == gcd_nat(a, b)) by {
                assert(a % b < b);
                assert(gcd_nat(a, b) == gcd_nat(b, a % b));
                assert(b % a == b) by {
                    vstd::arithmetic::div_mod::lemma_small_mod(b, a);
                }
            }
        } else if a < b {
            assert(gcd_nat(a, b) == gcd_nat(b, a)) by {
                assert(a % b == a) by {
                    vstd::arithmetic::div_mod::lemma_small_mod(a, b);
                }
            }
        } else {
            assert(a % b == 0) by {
                vstd::arithmetic::div_mod::lemma_mod_self_0(a as int);
            }
        }
    }
}

/// Least common multiple of the absolute values of `a` and `b`,
/// computed as |a * b| / gcd(|a|, |b|).
pub fn lcm(a: i64, b: i64) -> (r: i64)
    requires
        a != 0 || b != 0,
        a != i64::MIN,
        b != i64::MIN,
        a * b <= i64::MAX,
        -(i64::MAX as int) <= a * b,
    ensures
        r == vstd::math::abs(a * b) as nat / gcd_nat(vstd::math::abs(a as int) as nat, vstd::math::abs(b as int) as nat),
{
    let g = gcd(a, b);
    proof {
        lemma_gcd_pos(vstd::math::abs(a as int) as nat, vstd::math::abs(b as int) as nat);
    }
    let p = a * b;
    let ap: i64 = if p < 0 { -p } else { p };
    ap / g
}

} // verus!
