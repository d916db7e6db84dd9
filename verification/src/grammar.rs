//! The assembly grammar, at the token level: whitespace and `#`
//! comments between tokens, decimal and hexadecimal numbers of at most
//! 24 bits, label names of letters and underscores, case-insensitive
//! mnemonics, and the five statement forms. The specification
//! functions here define the grammar as mathematics over the byte
//! sequence; the executable parser is proved to follow them exactly.

use vstd::prelude::*;

use crate::errors::AsmError;
use crate::parser::{
    Address, AddressModel, Function, FunctionModel, Instruction, InstructionModel, Statement,
    StatementModel,
};

verus! {

pub open spec fn is_ws_byte(b: u8) -> bool {
    b == 32 || b == 9 || b == 10 || b == 13
}

pub open spec fn is_label_byte(b: u8) -> bool {
    (65 <= b && b <= 90) || (97 <= b && b <= 122) || b == 95
}

pub open spec fn is_digit_byte(b: u8) -> bool {
    48 <= b && b <= 57
}

pub open spec fn is_hex_byte(b: u8) -> bool {
    is_digit_byte(b) || (97 <= b && b <= 102) || (65 <= b && b <= 70)
}

/// The numeric value of a digit byte in either base.
pub open spec fn digit_val(b: u8) -> int {
    if 48 <= b && b <= 57 {
        b - 48
    } else if 97 <= b && b <= 102 {
        b - 87
    } else if 65 <= b && b <= 70 {
        b - 55
    } else {
        0
    }
}

/// An upper-case letter folded to lower case; anything else kept.
pub open spec fn lower_byte(b: u8) -> u8 {
    if 65 <= b && b <= 90 {
        (b + 32) as u8
    } else {
        b
    }
}

/// How many bytes of whitespace and comments start at `i`. A `#`
/// opens a comment that runs to the end of the line.
pub open spec fn ws_len(s: Seq<u8>, i: int, in_comment: bool) -> nat
    decreases s.len() - i, (if in_comment { 1int } else { 0int }),
{
    if i < 0 || i >= s.len() {
        0
    } else if in_comment {
        if s[i] == 10 || s[i] == 13 {
            ws_len(s, i, false)
        } else {
            1 + ws_len(s, i + 1, true)
        }
    } else if is_ws_byte(s[i]) {
        1 + ws_len(s, i + 1, false)
    } else if s[i] == 35 {
        1 + ws_len(s, i + 1, true)
    } else {
        0
    }
}

/// The first position at or after `i` that holds a token byte.
pub open spec fn skip_ws_spec(s: Seq<u8>, i: int) -> int {
    i + ws_len(s, i, false)
}

pub proof fn lemma_ws_len_bound(s: Seq<u8>, i: int, in_comment: bool)
    requires
        0 <= i <= s.len(),
    ensures
        i + ws_len(s, i, in_comment) <= s.len(),
    decreases s.len() - i, (if in_comment { 1int } else { 0int }),
{
    if i < s.len() {
        if in_comment {
            if s[i] == 10 || s[i] == 13 {
                lemma_ws_len_bound(s, i, false);
            } else {
                lemma_ws_len_bound(s, i + 1, true);
            }
        } else if is_ws_byte(s[i]) {
            lemma_ws_len_bound(s, i + 1, false);
        } else if s[i] == 35 {
            lemma_ws_len_bound(s, i + 1, true);
        }
    }
}

/// The byte classes the scanners run over.
#[derive(Clone, Copy)]
pub enum ByteClass {
    Digit,
    Hex,
    LabelChar,
}

pub open spec fn in_class(b: u8, c: ByteClass) -> bool {
    match c {
        ByteClass::Digit => is_digit_byte(b),
        ByteClass::Hex => is_hex_byte(b),
        ByteClass::LabelChar => is_label_byte(b),
    }
}

/// The length of the run of class bytes starting at `i`.
pub open spec fn run_len(s: Seq<u8>, i: int, c: ByteClass) -> nat
    decreases s.len() - i,
{
    if i < 0 || i >= s.len() || !in_class(s[i], c) {
        0
    } else {
        1 + run_len(s, i + 1, c)
    }
}

/// The run starting at `i` stays inside the sequence, holds only
/// class bytes, and ends at the first byte of another class.
pub proof fn lemma_run_len(s: Seq<u8>, i: int, c: ByteClass)
    requires
        0 <= i <= s.len(),
    ensures
        i + run_len(s, i, c) <= s.len(),
        forall|k: int| 0 <= k < run_len(s, i, c) ==> in_class(#[trigger] s[i + k], c),
        i + run_len(s, i, c) < s.len() ==> !in_class(s[i + run_len(s, i, c)], c),
    decreases s.len() - i,
{
    if i < s.len() && in_class(s[i], c) {
        lemma_run_len(s, i + 1, c);
        assert forall|k: int| 0 <= k < run_len(s, i, c) implies in_class(#[trigger] s[i + k], c) by {
            if k > 0 {
                assert(in_class(s[(i + 1) + (k - 1)], c));
            }
        }
    }
}

/// The value of `n` digit bytes from `i`, most significant first.
pub open spec fn run_val(s: Seq<u8>, i: int, n: nat, base: int) -> int
    decreases n,
{
    if n == 0 {
        0
    } else {
        run_val(s, i, (n - 1) as nat, base) * base + digit_val(s[i + n - 1])
    }
}

pub proof fn lemma_run_val_nonneg(s: Seq<u8>, i: int, n: nat, base: int)
    requires
        base >= 2,
    ensures
        run_val(s, i, n, base) >= 0,
    decreases n,
{
    if n > 0 {
        lemma_run_val_nonneg(s, i, (n - 1) as nat, base);
        assert(run_val(s, i, (n - 1) as nat, base) * base >= 0) by (nonlinear_arith)
            requires
                run_val(s, i, (n - 1) as nat, base) >= 0 && base >= 2,
        ;
    }
}

/// A longer run of digits never has a smaller value.
pub proof fn lemma_run_val_monotone(s: Seq<u8>, i: int, n1: nat, n2: nat, base: int)
    requires
        n1 <= n2,
        base >= 2,
    ensures
        0 <= run_val(s, i, n1, base) <= run_val(s, i, n2, base),
    decreases n2 - n1,
{
    lemma_run_val_nonneg(s, i, n1, base);
    if n1 < n2 {
        lemma_run_val_monotone(s, i, n1, (n2 - 1) as nat, base);
        let v = run_val(s, i, (n2 - 1) as nat, base);
        assert(v * base >= v) by (nonlinear_arith)
            requires
                v >= 0 && base >= 2,
        ;
    }
}

pub const KW_FUNC: u64 = 0x66756e63;

pub const KW_SKIP: u64 = 0x736b6970;

pub const KW_SKIPTO: u64 = 0x736b6970746f;

pub const KW_WORD: u64 = 0x776f7264;

pub const KW_PUSH: u64 = 0x70757368;

pub const KW_DROP: u64 = 0x64726f70;

pub const KW_PEEK: u64 = 0x7065656b;

pub const KW_LOAD: u64 = 0x6c6f6164;

pub const KW_STOR: u64 = 0x73746f72;

pub const KW_NEG: u64 = 0x6e6567;

pub const KW_ADD: u64 = 0x616464;

pub const KW_SUB: u64 = 0x737562;

pub const KW_MUL: u64 = 0x6d756c;

pub const KW_UDIV: u64 = 0x75646976;

pub const KW_SDIV: u64 = 0x73646976;

pub const KW_MOD: u64 = 0x6d6f64;

pub const KW_REM: u64 = 0x72656d;

pub const KW_NOT: u64 = 0x6e6f74;

pub const KW_AND: u64 = 0x616e64;

pub const KW_OR: u64 = 0x6f72;

pub const KW_XOR: u64 = 0x786f72;

pub const KW_EQ: u64 = 0x6571;

pub const KW_NE: u64 = 0x6e65;

pub const KW_ULT: u64 = 0x756c74;

pub const KW_SLT: u64 = 0x736c74;

pub const KW_UGT: u64 = 0x756774;

pub const KW_SGT: u64 = 0x736774;

pub const KW_ULE: u64 = 0x756c65;

pub const KW_SLE: u64 = 0x736c65;

pub const KW_UGE: u64 = 0x756765;

pub const KW_SGE: u64 = 0x736765;

pub const KW_RET: u64 = 0x726574;

pub const KW_JMP: u64 = 0x6a6d70;

pub const KW_IF: u64 = 0x6966;

pub const KW_CALL: u64 = 0x63616c6c;

/// 256^k, the range of a `k`-byte packed token code.
pub open spec fn pow256(k: int) -> int
    decreases k,
{
    if k <= 0 {
        1
    } else {
        256 * pow256(k - 1)
    }
}

/// The bytes of a short token, folded to lower case and packed
/// big-endian into one integer.
pub open spec fn tok_code_r(s: Seq<u8>, a: int, b: int) -> int
    decreases b - a,
{
    if a >= b {
        0
    } else {
        tok_code_r(s, a, b - 1) * 256 + lower_byte(s[b - 1])
    }
}

/// The code a token compares against the keyword table with; a token
/// longer than any keyword gets the code 1, which no keyword has.
pub open spec fn tok_code(s: Seq<u8>, a: int, b: int) -> int {
    if b - a > 8 {
        1
    } else {
        tok_code_r(s, a, b)
    }
}

pub proof fn lemma_tok_code_r_bound(s: Seq<u8>, a: int, b: int)
    ensures
        0 <= tok_code_r(s, a, b) < pow256(b - a),
    decreases b - a,
{
    if a < b {
        lemma_tok_code_r_bound(s, a, b - 1);
    }
}

pub proof fn lemma_pow256_value(k: int)
    requires
        0 <= k <= 8,
    ensures
        pow256(k) <= 0x10000000000000000,
{
    assert(pow256(0) == 1);
    assert(pow256(1) == 256);
    assert(pow256(2) == 0x10000);
    assert(pow256(3) == 0x1000000);
    assert(pow256(4) == 0x100000000);
    assert(pow256(5) == 0x10000000000);
    assert(pow256(6) == 0x1000000000000);
    assert(pow256(7) == 0x100000000000000);
    assert(pow256(8) == 0x10000000000000000);
}

/// The simple one-word body instruction a keyword code names, if any.
pub open spec fn body_inst_of(code: int) -> Option<InstructionModel> {
    if code == KW_DROP {
        Some(InstructionModel::Drop)
    } else if code == KW_LOAD {
        Some(InstructionModel::Load)
    } else if code == KW_STOR {
        Some(InstructionModel::Stor)
    } else if code == KW_NEG {
        Some(InstructionModel::Neg)
    } else if code == KW_ADD {
        Some(InstructionModel::Add)
    } else if code == KW_SUB {
        Some(InstructionModel::Sub)
    } else if code == KW_MUL {
        Some(InstructionModel::Mul)
    } else if code == KW_UDIV {
        Some(InstructionModel::Udiv)
    } else if code == KW_SDIV {
        Some(InstructionModel::Sdiv)
    } else if code == KW_MOD {
        Some(InstructionModel::Mod)
    } else if code == KW_REM {
        Some(InstructionModel::Rem)
    } else if code == KW_NOT {
        Some(InstructionModel::Not)
    } else if code == KW_AND {
        Some(InstructionModel::And)
    } else if code == KW_OR {
        Some(InstructionModel::Or)
    } else if code == KW_XOR {
        Some(InstructionModel::Xor)
    } else if code == KW_EQ {
        Some(InstructionModel::Eq)
    } else if code == KW_NE {
        Some(InstructionModel::Ne)
    } else if code == KW_ULT {
        Some(InstructionModel::Ult)
    } else if code == KW_SLT {
        Some(InstructionModel::Slt)
    } else if code == KW_UGT {
        Some(InstructionModel::Ugt)
    } else if code == KW_SGT {
        Some(InstructionModel::Sgt)
    } else if code == KW_ULE {
        Some(InstructionModel::Ule)
    } else if code == KW_SLE {
        Some(InstructionModel::Sle)
    } else if code == KW_UGE {
        Some(InstructionModel::Uge)
    } else if code == KW_SGE {
        Some(InstructionModel::Sge)
    } else {
        None
    }
}

/// The terminator instruction a keyword code names, if any.
pub open spec fn term_inst_of(code: int) -> Option<InstructionModel> {
    if code == KW_RET {
        Some(InstructionModel::Ret)
    } else if code == KW_JMP {
        Some(InstructionModel::Jmp)
    } else if code == KW_IF {
        Some(InstructionModel::If)
    } else if code == KW_CALL {
        Some(InstructionModel::Call)
    } else {
        None
    }
}

/// The characters carrying exactly the given bytes.
pub open spec fn byte_chars(bs: Seq<u8>) -> Seq<char> {
    bs.map_values(|b: u8| b as char)
}

/// A number token after leading whitespace: hexadecimal after `0x` or
/// `0X`, decimal otherwise, fitting a 24-bit word.
pub open spec fn number_spec(s: Seq<u8>, i: int) -> Result<(u32, int), AsmError> {
    let j = skip_ws_spec(s, i);
    if j + 2 < s.len() && s[j] == 48 && (s[j + 1] == 120 || s[j + 1] == 88) && is_hex_byte(
        s[j + 2],
    ) {
        let n = run_len(s, j + 2, ByteClass::Hex);
        let v = run_val(s, j + 2, n, 16);
        if v > 0xffffff {
            Err(AsmError::NumberTooLarge { pos: j as usize })
        } else {
            Ok((v as u32, j + 2 + n))
        }
    } else if j < s.len() && is_digit_byte(s[j]) {
        let n = run_len(s, j, ByteClass::Digit);
        let v = run_val(s, j, n, 10);
        if v > 0xffffff {
            Err(AsmError::NumberTooLarge { pos: j as usize })
        } else {
            Ok((v as u32, j + n))
        }
    } else {
        Err(AsmError::Parse { pos: j as usize })
    }
}

/// A label token right at `i`: a nonempty run of letters and
/// underscores.
pub open spec fn label_tok(s: Seq<u8>, i: int) -> Result<(Seq<u8>, int), AsmError> {
    let n = run_len(s, i, ByteClass::LabelChar);
    if n == 0 {
        Err(AsmError::Parse { pos: i as usize })
    } else {
        Ok((s.subrange(i, i + n), i + n))
    }
}

/// An address operand: a number, or a label reference, after leading
/// whitespace.
pub open spec fn address_spec(s: Seq<u8>, i: int) -> Result<(AddressModel, int), AsmError> {
    let j = skip_ws_spec(s, i);
    if j < s.len() && is_digit_byte(s[j]) {
        match number_spec(s, i) {
            Ok((v, e)) => Ok((AddressModel::Const(v), e)),
            Err(er) => Err(er),
        }
    } else {
        match label_tok(s, j) {
            Ok((bs, e)) => Ok((AddressModel::Label(byte_chars(bs)), e)),
            Err(er) => Err(er),
        }
    }
}

/// A function body: stack, math and comparison instructions up to and
/// including the terminator.
pub open spec fn body_spec(s: Seq<u8>, i: int, acc: Seq<InstructionModel>) -> Result<
    (Seq<InstructionModel>, int),
    AsmError,
>
    decreases s.len() - i,
{
    let j = skip_ws_spec(s, i);
    let n = run_len(s, j, ByteClass::LabelChar);
    let e = j + n;
    let code = tok_code(s, j, e);
    if term_inst_of(code) is Some {
        Ok((acc.push(term_inst_of(code).unwrap()), e))
    } else if body_inst_of(code) is Some {
        if e <= s.len() {
            body_spec(s, e, acc.push(body_inst_of(code).unwrap()))
        } else {
            Err(AsmError::Parse { pos: j as usize })
        }
    } else if code == KW_PUSH {
        match address_spec(s, e) {
            Ok((a, e2)) => {
                if e < e2 <= s.len() {
                    body_spec(s, e2, acc.push(InstructionModel::Push(a)))
                } else {
                    Err(AsmError::Parse { pos: j as usize })
                }
            },
            Err(er) => Err(er),
        }
    } else if code == KW_PEEK {
        match number_spec(s, e) {
            Ok((v, e2)) => {
                if e < e2 <= s.len() {
                    body_spec(s, e2, acc.push(InstructionModel::Peek(v)))
                } else {
                    Err(AsmError::Parse { pos: j as usize })
                }
            },
            Err(er) => Err(er),
        }
    } else {
        Err(AsmError::Parse { pos: j as usize })
    }
}

/// One top-level statement: a function, a `skip`, a `skipto`, a
/// `word`, or a label definition.
pub open spec fn statement_spec(s: Seq<u8>, i: int) -> Result<(StatementModel, int), AsmError> {
    let j = skip_ws_spec(s, i);
    if j >= s.len() {
        Err(AsmError::Parse { pos: j as usize })
    } else if s[j] == 58 {
        match label_tok(s, j + 1) {
            Ok((bs, e)) => Ok((StatementModel::Label(byte_chars(bs)), e)),
            Err(er) => Err(er),
        }
    } else {
        let n = run_len(s, j, ByteClass::LabelChar);
        let e = j + n;
        let code = tok_code(s, j, e);
        if code == KW_FUNC {
            match number_spec(s, e) {
                Ok((args, e1)) => match number_spec(s, e1) {
                    Ok((ret, e2)) => match body_spec(s, e2, Seq::empty()) {
                        Ok((block, e3)) => Ok(
                            (StatementModel::Function(FunctionModel { args, ret, block }), e3),
                        ),
                        Err(er) => Err(er),
                    },
                    Err(er) => Err(er),
                },
                Err(er) => Err(er),
            }
        } else if code == KW_SKIPTO {
            match number_spec(s, e) {
                Ok((v, e1)) => Ok((StatementModel::SkipTo(v), e1)),
                Err(er) => Err(er),
            }
        } else if code == KW_SKIP {
            match number_spec(s, e) {
                Ok((v, e1)) => Ok((StatementModel::Skip(v), e1)),
                Err(er) => Err(er),
            }
        } else if code == KW_WORD {
            match address_spec(s, e) {
                Ok((a, e1)) => Ok((StatementModel::Word(a), e1)),
                Err(er) => Err(er),
            }
        } else {
            Err(AsmError::Parse { pos: j as usize })
        }
    }
}

/// What the parser yields at `i`: the next statement, nothing at the
/// end of the input, or the malformation it found.
pub open spec fn next_spec(s: Seq<u8>, i: int) -> Result<Option<(StatementModel, int)>, AsmError> {
    let j = skip_ws_spec(s, i);
    if j >= s.len() {
        Ok(None)
    } else {
        match statement_spec(s, i) {
            Ok((st, e)) => Ok(Some((st, e))),
            Err(er) => Err(er),
        }
    }
}

} // verus!

verus! {

fn to_lower(b: u8) -> (r: u8)
    ensures
        r == lower_byte(b),
{
    if b >= 65 && b <= 90 {
        b + 32
    } else {
        b
    }
}

fn byte_in_class(b: u8, c: ByteClass) -> (r: bool)
    ensures
        r == in_class(b, c),
{
    match c {
        ByteClass::Digit => b >= 48 && b <= 57,
        ByteClass::Hex => (b >= 48 && b <= 57) || (b >= 97 && b <= 102) || (b >= 65 && b <= 70),
        ByteClass::LabelChar => (b >= 65 && b <= 90) || (b >= 97 && b <= 122) || b == 95,
    }
}

/// Skips whitespace and `#` comments.
#[verifier::loop_isolation(false)]
pub fn skip_ws(s: &Vec<u8>, i: usize) -> (r: usize)
    requires
        i <= s@.len(),
    ensures
        r as int == skip_ws_spec(s@, i as int),
        i <= r <= s@.len(),
{
    proof {
        lemma_ws_len_bound(s@, i as int, false);
    }
    let n = s.len();
    let mut k = i;
    let mut in_comment = false;
    while k < n
        invariant
            i <= k <= n,
            skip_ws_spec(s@, i as int) == k + ws_len(s@, k as int, in_comment),
        decreases n - k, (if in_comment { 1int } else { 0int }),
    {
        let b = s[k];
        if in_comment {
            if b == 10 || b == 13 {
                in_comment = false;
            } else {
                k = k + 1;
            }
        } else if b == 32 || b == 9 || b == 10 || b == 13 {
            k = k + 1;
        } else if b == 35 {
            in_comment = true;
            k = k + 1;
        } else {
            return k;
        }
        proof {
            lemma_ws_len_bound(s@, k as int, in_comment);
        }
    }
    k
}

/// Scans to the end of the run of class bytes starting at `i`.
#[verifier::loop_isolation(false)]
fn scan_run(s: &Vec<u8>, i: usize, c: ByteClass) -> (r: usize)
    requires
        i <= s@.len(),
    ensures
        r as int == i + run_len(s@, i as int, c),
        i <= r <= s@.len(),
{
    proof {
        lemma_run_len(s@, i as int, c);
    }
    let n = s.len();
    let mut k = i;
    while k < n && byte_in_class(s[k], c)
        invariant
            i <= k <= n,
            run_len(s@, i as int, c) == (k - i) + run_len(s@, k as int, c),
        decreases n - k,
    {
        k = k + 1;
    }
    k
}

/// Packs a token into its keyword comparison code.
#[verifier::loop_isolation(false)]
fn token_code(s: &Vec<u8>, a: usize, b: usize) -> (r: u64)
    requires
        a <= b <= s@.len(),
    ensures
        r as int == tok_code(s@, a as int, b as int),
{
    if b - a > 8 {
        return 1;
    }
    let mut code: u64 = 0;
    let mut k = a;
    while k < b
        invariant
            a <= k <= b,
            code as int == tok_code_r(s@, a as int, k as int),
        decreases b - k,
    {
        proof {
            lemma_tok_code_r_bound(s@, a as int, k as int);
            lemma_pow256_value(k as int - a);
            lemma_pow256_value(k as int + 1 - a);
        }
        let d = to_lower(s[k]);
        code = code * 256 + d as u64;
        k = k + 1;
    }
    code
}

fn digit_value(b: u8) -> (r: u32)
    ensures
        r as int == digit_val(b),
        r < 16,
{
    if b >= 48 && b <= 57 {
        (b - 48) as u32
    } else if b >= 97 && b <= 102 {
        (b - 87) as u32
    } else if b >= 65 && b <= 70 {
        (b - 55) as u32
    } else {
        0
    }
}

/// Reads the value of a digit run, refusing one beyond 24 bits.
#[verifier::loop_isolation(false)]
fn run_value(s: &Vec<u8>, start: usize, n: usize, base: u32, pos: usize) -> (r: Result<
    u32,
    AsmError,
>)
    requires
        start + n <= s@.len(),
        base == 10 || base == 16,
    ensures
        match r {
            Ok(v) => run_val(s@, start as int, n as nat, base as int) <= 0xffffff && v as int
                == run_val(s@, start as int, n as nat, base as int),
            Err(e) => run_val(s@, start as int, n as nat, base as int) > 0xffffff && e
                == (AsmError::NumberTooLarge { pos }),
        },
{
    let total = s.len();
    let mut acc: u32 = 0;
    let mut k: usize = 0;
    while k < n
        invariant
            0 <= k <= n,
            acc as int == run_val(s@, start as int, k as nat, base as int),
            acc <= 0xffffff,
        decreases n - k,
    {
        let d = digit_value(s[start + k]);
        let next = acc * base + d;
        if next > 0xffffff {
            proof {
                lemma_run_val_monotone(s@, start as int, (k + 1) as nat, n as nat, base as int);
            }
            return Err(AsmError::NumberTooLarge { pos });
        }
        acc = next;
        k = k + 1;
    }
    Ok(acc)
}

/// Relies on String::from_utf8: ASCII bytes are valid UTF-8 and decode
/// to one character per byte, each carrying the byte's code point.
#[verifier::external_body]
fn ascii_to_string(bytes: Vec<u8>) -> (r: String)
    requires
        forall|k: int| 0 <= k < bytes@.len() ==> #[trigger] bytes@[k] < 128,
    ensures
        r@.len() == bytes@.len(),
        forall|k: int| 0 <= k < bytes@.len() ==> (#[trigger] r@[k]) as u32 == bytes@[k] as u32,
{
    String::from_utf8(bytes).unwrap()
}

/// Characters whose code points are exactly the given bytes are those
/// bytes read as characters.
proof fn lemma_byte_chars(bs: Seq<u8>, cs: Seq<char>)
    requires
        cs.len() == bs.len(),
        forall|k: int| 0 <= k < bs.len() ==> (#[trigger] cs[k]) as u32 == bs[k] as u32,
    ensures
        cs == byte_chars(bs),
{
    assert forall|k: int| 0 <= k < bs.len() implies cs[k] == byte_chars(bs)[k] by {
        assert(byte_chars(bs)[k] == bs[k] as char);
        let u: u32 = bs[k] as u32;
        assert((bs[k] as char) as u32 == u);
        vstd::utf8::char_u32_cast(cs[k], u);
        vstd::utf8::char_u32_cast(bs[k] as char, u);
    }
    assert(cs =~= byte_chars(bs));
}

/// Reads a label token right at `i`.
#[verifier::loop_isolation(false)]
pub fn label(s: &Vec<u8>, i: usize) -> (r: Result<(String, usize), AsmError>)
    requires
        i <= s@.len(),
    ensures
        match r {
            Ok(p) => {
                &&& label_tok(s@, i as int) matches Ok(q) && p.0@ == byte_chars(q.0) && p.1 as int
                    == q.1
                &&& i < p.1 <= s@.len()
            },
            Err(er) => label_tok(s@, i as int) == Err::<(Seq<u8>, int), AsmError>(er),
        },
{
    let e = scan_run(s, i, ByteClass::LabelChar);
    if e == i {
        return Err(AsmError::Parse { pos: i });
    }
    proof {
        lemma_run_len(s@, i as int, ByteClass::LabelChar);
    }
    let mut bytes: Vec<u8> = Vec::new();
    let mut k = i;
    while k < e
        invariant
            i <= k <= e <= s@.len(),
            bytes@ == s@.subrange(i as int, k as int),
        decreases e - k,
    {
        bytes.push(s[k]);
        proof {
            assert(s@.subrange(i as int, k as int + 1) =~= s@.subrange(i as int, k as int).push(
                s@[k as int],
            ));
        }
        k = k + 1;
    }
    proof {
        assert forall|q: int| 0 <= q < bytes@.len() implies #[trigger] bytes@[q] < 128 by {
            assert(in_class(s@[i + q], ByteClass::LabelChar));
        }
    }
    let name = ascii_to_string(bytes);
    proof {
        lemma_byte_chars(s@.subrange(i as int, e as int), name@);
    }
    Ok((name, e))
}

/// Reads a number token after leading whitespace.
pub fn number(s: &Vec<u8>, i: usize) -> (r: Result<(u32, usize), AsmError>)
    requires
        i <= s@.len(),
    ensures
        match r {
            Ok(p) => {
                &&& number_spec(s@, i as int) == Ok::<(u32, int), AsmError>((p.0, p.1 as int))
                &&& i <= p.1 <= s@.len()
                &&& p.0 <= 0xffffff
            },
            Err(er) => number_spec(s@, i as int) == Err::<(u32, int), AsmError>(er),
        },
{
    let j = skip_ws(s, i);
    let n_total = s.len();
    if n_total >= 3 && j <= n_total - 3 && s[j] == 48 && (s[j + 1] == 120 || s[j + 1] == 88)
        && byte_in_class(s[j + 2], ByteClass::Hex) {
        let e = scan_run(s, j + 2, ByteClass::Hex);
        match run_value(s, j + 2, e - (j + 2), 16, j) {
            Ok(v) => Ok((v, e)),
            Err(er) => Err(er),
        }
    } else if j < n_total && byte_in_class(s[j], ByteClass::Digit) {
        let e = scan_run(s, j, ByteClass::Digit);
        match run_value(s, j, e - j, 10, j) {
            Ok(v) => Ok((v, e)),
            Err(er) => Err(er),
        }
    } else {
        Err(AsmError::Parse { pos: j })
    }
}

/// Reads an address operand: a number or a label reference.
pub fn address(s: &Vec<u8>, i: usize) -> (r: Result<(Address, usize), AsmError>)
    requires
        i <= s@.len(),
    ensures
        match r {
            Ok(p) => {
                &&& address_spec(s@, i as int) matches Ok(q) && q.0 == p.0@ && q.1 == p.1 as int
                &&& i <= p.1 <= s@.len()
            },
            Err(er) => address_spec(s@, i as int) == Err::<(AddressModel, int), AsmError>(er),
        },
{
    let j = skip_ws(s, i);
    if j < s.len() && byte_in_class(s[j], ByteClass::Digit) {
        match number(s, i) {
            Ok(p) => Ok((Address::Const(p.0), p.1)),
            Err(er) => Err(er),
        }
    } else {
        match label(s, j) {
            Ok(p) => Ok((Address::Label(p.0), p.1)),
            Err(er) => Err(er),
        }
    }
}

/// Reads a function body up to and including its terminator.
#[verifier::loop_isolation(false)]
fn function_body(s: &Vec<u8>, i: usize) -> (r: Result<(Vec<Instruction>, usize), AsmError>)
    requires
        i <= s@.len(),
    ensures
        match r {
            Ok(p) => {
                &&& body_spec(s@, i as int, Seq::empty()) matches Ok(q) && q.0 == p.0@.map_values(
                    |inst: Instruction| inst@,
                ) && q.1 == p.1 as int
                &&& p.1 <= s@.len()
            },
            Err(er) => body_spec(s@, i as int, Seq::empty()) == Err::<
                (Seq<InstructionModel>, int),
                AsmError,
            >(er),
        },
{
    let mut block: Vec<Instruction> = Vec::new();
    let mut pos = i;
    proof {
        assert(block@.map_values(|inst: Instruction| inst@) =~= Seq::<InstructionModel>::empty());
    }
    loop
        invariant
            i <= pos <= s@.len(),
            body_spec(s@, i as int, Seq::empty()) == body_spec(
                s@,
                pos as int,
                block@.map_values(|inst: Instruction| inst@),
            ),
        decreases s@.len() - pos,
    {
        let j = skip_ws(s, pos);
        let e = scan_run(s, j, ByteClass::LabelChar);
        let code = token_code(s, j, e);
        let ghost models = block@.map_values(|inst: Instruction| inst@);
        let term: Option<Instruction> =
        if code == KW_RET {
            Some(Instruction::Ret)
        } else if code == KW_JMP {
            Some(Instruction::Jmp)
        } else if code == KW_IF {
            Some(Instruction::If)
        } else if code == KW_CALL {
            Some(Instruction::Call)
        } else {
            None
        };
        match term {
            Some(inst) => {
                proof {
                    assert(term_inst_of(tok_code(s@, j as int, e as int)) == Some(inst@));
                    assert(models.push(inst@) =~= block@.push(inst).map_values(
                        |x: Instruction| x@,
                    ));
                }
                block.push(inst);
                return Ok((block, e));
            },
            None => {
                proof {
                    assert(term_inst_of(tok_code(s@, j as int, e as int)) is None);
                }
            },
        }
        let simple: Option<Instruction> =
        if code == KW_DROP {
            Some(Instruction::Drop)
        } else if code == KW_LOAD {
            Some(Instruction::Load)
        } else if code == KW_STOR {
            Some(Instruction::Stor)
        } else if code == KW_NEG {
            Some(Instruction::Neg)
        } else if code == KW_ADD {
            Some(Instruction::Add)
        } else if code == KW_SUB {
            Some(Instruction::Sub)
        } else if code == KW_MUL {
            Some(Instruction::Mul)
        } else if code == KW_UDIV {
            Some(Instruction::Udiv)
        } else if code == KW_SDIV {
            Some(Instruction::Sdiv)
        } else if code == KW_MOD {
            Some(Instruction::Mod)
        } else if code == KW_REM {
            Some(Instruction::Rem)
        } else if code == KW_NOT {
            Some(Instruction::Not)
        } else if code == KW_AND {
            Some(Instruction::And)
        } else if code == KW_OR {
            Some(Instruction::Or)
        } else if code == KW_XOR {
            Some(Instruction::Xor)
        } else if code == KW_EQ {
            Some(Instruction::Eq)
        } else if code == KW_NE {
            Some(Instruction::Ne)
        } else if code == KW_ULT {
            Some(Instruction::Ult)
        } else if code == KW_SLT {
            Some(Instruction::Slt)
        } else if code == KW_UGT {
            Some(Instruction::Ugt)
        } else if code == KW_SGT {
            Some(Instruction::Sgt)
        } else if code == KW_ULE {
            Some(Instruction::Ule)
        } else if code == KW_SLE {
            Some(Instruction::Sle)
        } else if code == KW_UGE {
            Some(Instruction::Uge)
        } else if code == KW_SGE {
            Some(Instruction::Sge)
        } else {
            None
        };
        match simple {
            Some(inst) => {
                proof {
                    assert(body_inst_of(tok_code(s@, j as int, e as int)) == Some(inst@));
                    assert(models.push(inst@) =~= block@.push(inst).map_values(
                        |x: Instruction| x@,
                    ));
                    if e == j {
                        assert(tok_code(s@, j as int, j as int) == 0);
                        assert(false);
                    }
                }
                block.push(inst);
                pos = e;
            },
            None => {
                proof {
                    assert(body_inst_of(tok_code(s@, j as int, e as int)) is None);
                }
                if code == KW_PUSH {
                    match address(s, e) {
                        Ok(p) => {
                            let (a, e2) = p;
                            if !(e < e2) {
                                return Err(AsmError::Parse { pos: j });
                            }
                            proof {
                                assert(models.push(InstructionModel::Push(a@))
                                    =~= block@.push(Instruction::Push(a)).map_values(
                                    |x: Instruction| x@,
                                ));
                            }
                            block.push(Instruction::Push(a));
                            pos = e2;
                        },
                        Err(er) => {
                            return Err(er);
                        },
                    }
                } else if code == KW_PEEK {
                    match number(s, e) {
                        Ok(p) => {
                            let (v, e2) = p;
                            if !(e < e2) {
                                return Err(AsmError::Parse { pos: j });
                            }
                            proof {
                                assert(models.push(InstructionModel::Peek(v))
                                    =~= block@.push(Instruction::Peek(v)).map_values(
                                    |x: Instruction| x@,
                                ));
                            }
                            block.push(Instruction::Peek(v));
                            pos = e2;
                        },
                        Err(er) => {
                            return Err(er);
                        },
                    }
                } else {
                    return Err(AsmError::Parse { pos: j });
                }
            },
        }
    }
}

/// Reads one top-level statement after leading whitespace.
pub fn statement(s: &Vec<u8>, i: usize) -> (r: Result<(Statement, usize), AsmError>)
    requires
        i <= s@.len(),
    ensures
        match r {
            Ok(p) => {
                &&& statement_spec(s@, i as int) matches Ok(q) && q.0 == p.0@ && q.1 == p.1 as int
                &&& p.1 <= s@.len()
            },
            Err(er) => statement_spec(s@, i as int) == Err::<(StatementModel, int), AsmError>(er),
        },
{
    let j = skip_ws(s, i);
    if j >= s.len() {
        return Err(AsmError::Parse { pos: j });
    }
    if s[j] == 58 {
        return (match label(s, j + 1) {
            Ok(p) => Ok((Statement::Label(p.0), p.1)),
            Err(er) => Err(er),
        });
    }
    let e = scan_run(s, j, ByteClass::LabelChar);
    let code = token_code(s, j, e);
    if code == KW_FUNC {
        let (args, e1) = match number(s, e) {
            Ok(p) => p,
            Err(er) => {
                return Err(er);
            },
        };
        let (ret, e2) = match number(s, e1) {
            Ok(p) => p,
            Err(er) => {
                return Err(er);
            },
        };
        match function_body(s, e2) {
            Ok(p) => Ok((Statement::Function(Function { args, ret, block: p.0 }), p.1)),
            Err(er) => Err(er),
        }
    } else if code == KW_SKIPTO {
        match number(s, e) {
            Ok(p) => Ok((Statement::SkipTo(p.0), p.1)),
            Err(er) => Err(er),
        }
    } else if code == KW_SKIP {
        match number(s, e) {
            Ok(p) => Ok((Statement::Skip(p.0), p.1)),
            Err(er) => Err(er),
        }
    } else if code == KW_WORD {
        match address(s, e) {
            Ok(p) => Ok((Statement::Word(p.0), p.1)),
            Err(er) => Err(er),
        }
    } else {
        Err(AsmError::Parse { pos: j })
    }
}


/// A parsed number fits in a 24-bit word.
pub proof fn lemma_number_spec_word(s: Seq<u8>, i: int)
    ensures
        (match number_spec(s, i) {
            Ok(p) => p.0 < 0x1000000,
            Err(_) => true,
        }),
{
    let j = skip_ws_spec(s, i);
    lemma_run_val_nonneg(s, j + 2, run_len(s, j + 2, ByteClass::Hex), 16);
    lemma_run_val_nonneg(s, j, run_len(s, j, ByteClass::Digit), 10);
}

/// A parsed address names a 24-bit literal or a label.
pub proof fn lemma_address_spec_words(s: Seq<u8>, i: int)
    ensures
        (match address_spec(s, i) {
            Ok(p) => crate::parser::addr_words(p.0),
            Err(_) => true,
        }),
{
    lemma_number_spec_word(s, i);
}

/// Every instruction a parsed body holds has word-sized operands.
pub proof fn lemma_body_spec_words(s: Seq<u8>, i: int, acc: Seq<InstructionModel>)
    requires
        forall|j: int| 0 <= j < acc.len() ==> crate::parser::inst_words(#[trigger] acc[j]),
    ensures
        (match body_spec(s, i, acc) {
            Ok(p) => forall|j: int|
                0 <= j < p.0.len() ==> crate::parser::inst_words(#[trigger] p.0[j]),
            Err(_) => true,
        }),
    decreases s.len() - i,
{
    let j = skip_ws_spec(s, i);
    let n = run_len(s, j, ByteClass::LabelChar);
    let e = j + n;
    let code = tok_code(s, j, e);
    if term_inst_of(code) is Some {
        let inst = term_inst_of(code).unwrap();
        assert(crate::parser::inst_words(inst));
        assert forall|q: int| 0 <= q < acc.push(inst).len() implies crate::parser::inst_words(
            #[trigger] acc.push(inst)[q],
        ) by {}
    } else if body_inst_of(code) is Some {
        let inst = body_inst_of(code).unwrap();
        assert(crate::parser::inst_words(inst));
        if e <= s.len() {
            assert forall|q: int| 0 <= q < acc.push(inst).len() implies crate::parser::inst_words(
                #[trigger] acc.push(inst)[q],
            ) by {}
            lemma_body_spec_words(s, e, acc.push(inst));
        }
    } else if code == KW_PUSH {
        match address_spec(s, e) {
            Ok(p) => {
                lemma_address_spec_words(s, e);
                let inst = InstructionModel::Push(p.0);
                assert(crate::parser::inst_words(inst));
                if e < p.1 <= s.len() {
                    assert forall|q: int|
                        0 <= q < acc.push(inst).len() implies crate::parser::inst_words(
                        #[trigger] acc.push(inst)[q],
                    ) by {}
                    lemma_body_spec_words(s, p.1, acc.push(inst));
                }
            },
            Err(_) => {},
        }
    } else if code == KW_PEEK {
        match number_spec(s, e) {
            Ok(p) => {
                lemma_number_spec_word(s, e);
                let inst = InstructionModel::Peek(p.0);
                assert(crate::parser::inst_words(inst));
                if e < p.1 <= s.len() {
                    assert forall|q: int|
                        0 <= q < acc.push(inst).len() implies crate::parser::inst_words(
                        #[trigger] acc.push(inst)[q],
                    ) by {}
                    lemma_body_spec_words(s, p.1, acc.push(inst));
                }
            },
            Err(_) => {},
        }
    }
}

/// Every literal a parsed statement holds is a 24-bit word.
pub proof fn lemma_statement_spec_words(s: Seq<u8>, i: int)
    ensures
        (match statement_spec(s, i) {
            Ok(p) => crate::parser::stmt_words(p.0),
            Err(_) => true,
        }),
{
    let j = skip_ws_spec(s, i);
    if j < s.len() && s[j] != 58 {
        let n = run_len(s, j, ByteClass::LabelChar);
        let e = j + n;
        let code = tok_code(s, j, e);
        if code == KW_FUNC {
            match number_spec(s, e) {
                Ok(p1) => match number_spec(s, p1.1) {
                    Ok(p2) => {
                        lemma_body_spec_words(s, p2.1, Seq::empty());
                    },
                    Err(_) => {},
                },
                Err(_) => {},
            }
        } else if code == KW_WORD {
            lemma_address_spec_words(s, e);
        }
    }
}

} // verus!
