//! Arithmetic, logic and comparison semantics of the machine: every
//! operation wraps modulo 2^24, signed operations read their operands
//! as 24-bit two's complement, and comparisons yield the words 1 or 0.

use vstd::prelude::*;

use vstd::arithmetic::div_mod::{lemma_fundamental_div_mod, lemma_mod_multiples_vanish};

use crate::codec::{
    is_word, OP_ADD, OP_AND, OP_EQ, OP_MOD, OP_MUL, OP_NE, OP_NEG, OP_NOT, OP_OR, OP_REM, OP_SDIV,
    OP_SGE, OP_SGT, OP_SLE, OP_SLT, OP_SUB, OP_UDIV, OP_UGE, OP_UGT, OP_ULE, OP_ULT, OP_XOR,
};

verus! {

/// The 24-bit word an unbounded result wraps to.
pub open spec fn wrap24(n: int) -> u32 {
    (n % 0x1000000) as u32
}

/// The signed reading of a word: 24-bit two's complement.
pub open spec fn s24(v: u32) -> int {
    if v >= 0x800000 {
        v - 0x1000000
    } else {
        v as int
    }
}

/// Division truncated toward zero, as the machine's signed division
/// rounds.
pub open spec fn tdiv(a: int, b: int) -> int {
    if (a < 0) == (b < 0) {
        vstd::math::abs(a) as int / vstd::math::abs(b) as int
    } else {
        -(vstd::math::abs(a) as int / vstd::math::abs(b) as int)
    }
}

/// The remainder matching truncated division: it carries the sign of
/// the dividend.
pub open spec fn trem(a: int, b: int) -> int {
    a - b * tdiv(a, b)
}

/// Comparison results as machine words.
pub open spec fn bool_word(b: bool) -> u32 {
    if b {
        1
    } else {
        0
    }
}

/// The two-operand operations, comparisons included; `x` is the deeper
/// stack value, `y` the top.
pub open spec fn is_binop(op: u32) -> bool {
    ||| op == OP_ADD
    ||| op == OP_SUB
    ||| op == OP_MUL
    ||| op == OP_UDIV
    ||| op == OP_SDIV
    ||| op == OP_MOD
    ||| op == OP_REM
    ||| op == OP_AND
    ||| op == OP_OR
    ||| op == OP_XOR
    ||| op == OP_EQ
    ||| op == OP_NE
    ||| op == OP_ULT
    ||| op == OP_SLT
    ||| op == OP_UGT
    ||| op == OP_SGT
    ||| op == OP_ULE
    ||| op == OP_SLE
    ||| op == OP_UGE
    ||| op == OP_SGE
}

/// The operations that fail on a zero top-of-stack divisor.
pub open spec fn is_division(op: u32) -> bool {
    ||| op == OP_UDIV
    ||| op == OP_SDIV
    ||| op == OP_MOD
    ||| op == OP_REM
}

pub open spec fn is_unop(op: u32) -> bool {
    op == OP_NEG || op == OP_NOT
}

/// What a two-operand operation leaves on the stack. Division by zero
/// never reaches this: it faults instead.
pub open spec fn binop_result(op: u32, x: u32, y: u32) -> u32 {
    if op == OP_ADD {
        wrap24(x + y)
    } else if op == OP_SUB {
        wrap24(x - y)
    } else if op == OP_MUL {
        wrap24(x * y)
    } else if op == OP_UDIV {
        wrap24(x as int / y as int)
    } else if op == OP_SDIV {
        wrap24(tdiv(s24(x), s24(y)))
    } else if op == OP_MOD {
        wrap24(x as int % y as int)
    } else if op == OP_REM {
        wrap24(trem(s24(x), s24(y)))
    } else if op == OP_AND {
        x & y
    } else if op == OP_OR {
        x | y
    } else if op == OP_XOR {
        x ^ y
    } else if op == OP_EQ {
        bool_word(x == y)
    } else if op == OP_NE {
        bool_word(x != y)
    } else if op == OP_ULT {
        bool_word(x < y)
    } else if op == OP_SLT {
        bool_word(s24(x) < s24(y))
    } else if op == OP_UGT {
        bool_word(x > y)
    } else if op == OP_SGT {
        bool_word(s24(x) > s24(y))
    } else if op == OP_ULE {
        bool_word(x <= y)
    } else if op == OP_SLE {
        bool_word(s24(x) <= s24(y))
    } else if op == OP_UGE {
        bool_word(x >= y)
    } else if op == OP_SGE {
        bool_word(s24(x) >= s24(y))
    } else {
        0
    }
}

/// What a one-operand operation leaves on the stack: `neg` is logical
/// negation, `not` the bitwise complement over 24 bits.
pub open spec fn unop_result(op: u32, x: u32) -> u32 {
    if op == OP_NEG {
        bool_word(x == 0)
    } else {
        x ^ 0xffffff
    }
}

/// A nonnegative value below 2^24 wraps to itself; one in the negative
/// word range wraps one cycle up.
pub proof fn lemma_wrap24_small(n: int)
    requires
        -0x1000000 <= n < 0x1000000,
    ensures
        wrap24(n) == if n >= 0 {
            n
        } else {
            n + 0x1000000
        },
{
    if n >= 0 {
        assert(n % 0x1000000 == n) by {
            vstd::arithmetic::div_mod::lemma_small_mod(n as nat, 0x1000000nat);
        }
    } else {
        lemma_mod_multiples_vanish(1, n, 0x1000000);
        assert((n + 0x1000000) % 0x1000000 == n + 0x1000000) by {
            vstd::arithmetic::div_mod::lemma_small_mod((n + 0x1000000) as nat, 0x1000000nat);
        }
    }
}

pub proof fn lemma_wrap24_two_cycles(n: int)
    requires
        0 <= n < 0x2000000,
    ensures
        wrap24(n) == if n < 0x1000000 {
            n
        } else {
            n - 0x1000000
        },
{
    if n < 0x1000000 {
        lemma_wrap24_small(n);
    } else {
        lemma_mod_multiples_vanish(1, n - 0x1000000, 0x1000000);
        lemma_wrap24_small(n - 0x1000000);
    }
}

/// Adding a word and then subtracting it again is the identity modulo
/// 2^24.
pub proof fn lemma_add_sub_cancel(a: u32, b: u32)
    requires
        is_word(a),
        is_word(b),
    ensures
        binop_result(OP_SUB, binop_result(OP_ADD, a, b), b) == a,
{
    let w = binop_result(OP_ADD, a, b);
    lemma_wrap24_two_cycles(a + b);
    lemma_wrap24_small(w - b);
}

/// Truncated signed division and remainder, written over the operand
/// magnitudes: the quotient magnitude is the magnitude quotient, the
/// remainder carries the dividend's sign.
pub proof fn lemma_trunc_by_magnitudes(a: int, b: int)
    requires
        b != 0,
    ensures
        tdiv(a, b) == if (a < 0) == (b < 0) {
            vstd::math::abs(a) as int / vstd::math::abs(b) as int
        } else {
            -(vstd::math::abs(a) as int / vstd::math::abs(b) as int)
        },
        trem(a, b) == if a < 0 {
            -(vstd::math::abs(a) as int % vstd::math::abs(b) as int)
        } else {
            vstd::math::abs(a) as int % vstd::math::abs(b) as int
        },
{
    let ax = vstd::math::abs(a) as int;
    let ay = vstd::math::abs(b) as int;
    lemma_fundamental_div_mod(ax, ay);
    let q = ax / ay;
    let r = ax % ay;
    assert(ax == ay * q + r);
    if a >= 0 && b > 0 {
        assert(a - b * q == r) by {
            assert(b * q == ay * q);
        }
    } else if a < 0 && b < 0 {
        assert(a - b * q == -r) by {
            assert(b * q == (-ay) * q == -(ay * q)) by (nonlinear_arith)
                requires
                    b == -ay,
            ;
        }
    } else if a < 0 {
        assert(a - b * (-q) == -r) by {
            assert(b * (-q) == -(ay * q)) by (nonlinear_arith)
                requires
                    b == ay,
            ;
        }
    } else {
        assert(a - b * (-q) == r) by {
            assert(b * (-q) == ay * q) by (nonlinear_arith)
                requires
                    b == -ay,
            ;
        }
    }
}

/// The sign and magnitude of a word's signed reading.
fn sign_split(v: u32) -> (r: (bool, u32))
    requires
        is_word(v),
    ensures
        r.0 == (s24(v) < 0),
        r.1 as int == vstd::math::abs(s24(v)),
        r.1 <= 0x800000,
        v != 0 ==> r.1 != 0,
{
    if v >= 0x800000 {
        (true, 0x1000000 - v)
    } else {
        (false, v)
    }
}

/// Runs a one-operand operation.
pub fn exec_unop(op: u32, x: u32) -> (r: u32)
    requires
        is_unop(op),
        is_word(x),
    ensures
        r == unop_result(op, x),
        is_word(r),
{
    if op == OP_NEG {
        if x == 0 {
            1
        } else {
            0
        }
    } else {
        proof {
            assert(x < 0x1000000 ==> (x ^ 0xffffff) < 0x1000000) by (bit_vector);
        }
        x ^ 0xffffff
    }
}

/// Runs a two-operand operation; `x` is the deeper stack value, `y`
/// the top. Divisions require a nonzero divisor: a zero one faults
/// before the operation is reached.
pub fn exec_binop(op: u32, x: u32, y: u32) -> (r: u32)
    requires
        is_binop(op),
        is_word(x),
        is_word(y),
        is_division(op) ==> y != 0,
    ensures
        r == binop_result(op, x, y),
        is_word(r),
{
    if op == OP_ADD {
        let s = x + y;
        proof {
            assert(s & 0xffffff == s % 0x1000000 && s & 0xffffff < 0x1000000) by (bit_vector);
        }
        s & 0xffffff
    } else if op == OP_SUB {
        proof {
            lemma_wrap24_small(x - y);
        }
        if x >= y {
            x - y
        } else {
            x + 0x1000000 - y
        }
    } else if op == OP_MUL {
        proof {
            assert((x as int) * (y as int) < 0x1000000000000) by (nonlinear_arith)
                requires
                    x < 0x1000000 && y < 0x1000000,
            ;
        }
        let p = (x as u64) * (y as u64);
        proof {
            assert(p & 0xffffff == p % 0x1000000 && p & 0xffffff < 0x1000000) by (bit_vector);
        }
        (p & 0xffffff) as u32
    } else if op == OP_UDIV {
        proof {
            lemma_wrap24_small(x as int / y as int);
            assert(0 <= (x as int) / (y as int) <= x) by (nonlinear_arith)
                requires
                    x >= 0 && y >= 1,
            ;
        }
        x / y
    } else if op == OP_MOD {
        proof {
            lemma_wrap24_small(x as int % y as int);
            assert(0 <= (x as int) % (y as int) < y) by (nonlinear_arith)
                requires
                    y >= 1,
            ;
        }
        x % y
    } else if op == OP_SDIV {
        let (nx, ax) = sign_split(x);
        let (ny, ay) = sign_split(y);
        proof {
            assert(0 <= (ax as int) / (ay as int) <= ax) by (nonlinear_arith)
                requires
                    ax >= 0 && ay >= 1,
            ;
            lemma_wrap24_small(ax as int / ay as int);
            lemma_wrap24_small(-(ax as int / ay as int));
        }
        let q = ax / ay;
        if nx == ny {
            q
        } else if q == 0 {
            0
        } else {
            0x1000000 - q
        }
    } else if op == OP_REM {
        let (nx, ax) = sign_split(x);
        let (ny, ay) = sign_split(y);
        proof {
            lemma_trunc_by_magnitudes(s24(x), s24(y));
            assert(0 <= (ax as int) % (ay as int) < ay) by (nonlinear_arith)
                requires
                    ay >= 1,
            ;
            lemma_wrap24_small(ax as int % ay as int);
            lemma_wrap24_small(-(ax as int % ay as int));
        }
        let rm = ax % ay;
        if !nx || rm == 0 {
            rm
        } else {
            0x1000000 - rm
        }
    } else if op == OP_AND {
        proof {
            assert(x < 0x1000000 && y < 0x1000000 ==> (x & y) < 0x1000000) by (bit_vector);
        }
        x & y
    } else if op == OP_OR {
        proof {
            assert(x < 0x1000000 && y < 0x1000000 ==> (x | y) < 0x1000000) by (bit_vector);
        }
        x | y
    } else if op == OP_XOR {
        proof {
            assert(x < 0x1000000 && y < 0x1000000 ==> (x ^ y) < 0x1000000) by (bit_vector);
        }
        x ^ y
    } else if op == OP_EQ {
        if x == y {
            1
        } else {
            0
        }
    } else if op == OP_NE {
        if x != y {
            1
        } else {
            0
        }
    } else if op == OP_ULT {
        if x < y {
            1
        } else {
            0
        }
    } else if op == OP_SLT {
        if signed_less(x, y) {
            1
        } else {
            0
        }
    } else if op == OP_UGT {
        if x > y {
            1
        } else {
            0
        }
    } else if op == OP_SGT {
        if signed_less(y, x) {
            1
        } else {
            0
        }
    } else if op == OP_ULE {
        if x <= y {
            1
        } else {
            0
        }
    } else if op == OP_SLE {
        if !signed_less(y, x) {
            1
        } else {
            0
        }
    } else if op == OP_UGE {
        if x >= y {
            1
        } else {
            0
        }
    } else {
        if !signed_less(x, y) {
            1
        } else {
            0
        }
    }
}

/// Whether the signed reading of `x` is below that of `y`: across sign
/// classes the negative word is smaller; within one class the signed
/// order agrees with the unsigned order.
fn signed_less(x: u32, y: u32) -> (r: bool)
    requires
        is_word(x),
        is_word(y),
    ensures
        r == (s24(x) < s24(y)),
{
    let nx = x >= 0x800000;
    let ny = y >= 0x800000;
    if nx != ny {
        nx
    } else {
        x < y
    }
}

} // verus!
