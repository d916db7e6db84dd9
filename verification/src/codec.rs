//! The binary contract between the assembler and the machine: 24-bit
//! words packed big-endian as three bytes each, and function signatures
//! packing two 12-bit arity fields into one word.

use vstd::prelude::*;

verus! {

/// Every machine quantity is an unsigned 24-bit word.
pub open spec fn is_word(w: u32) -> bool {
    w < 0x1000000
}

pub open spec fn all_words(s: Seq<u32>) -> bool {
    forall|i: int| 0 <= i < s.len() ==> is_word(#[trigger] s[i])
}

/// The three big-endian bytes of one word (high bits beyond 24 are discarded).
pub open spec fn word_bytes(w: u32) -> Seq<u8> {
    seq![(w >> 16) as u8, (w >> 8) as u8, w as u8]
}

/// A word sequence packed big-endian, three bytes per word, in order.
pub open spec fn bytes_of_words(ws: Seq<u32>) -> Seq<u8>
    decreases ws.len(),
{
    if ws.len() == 0 {
        Seq::empty()
    } else {
        word_bytes(ws[0]) + bytes_of_words(ws.drop_first())
    }
}

/// The word read from three big-endian bytes.
pub open spec fn word_of_bytes(b0: u8, b1: u8, b2: u8) -> u32 {
    ((b0 as u32) << 16) | ((b1 as u32) << 8) | (b2 as u32)
}

/// The words read from a byte stream, three bytes each; a trailing
/// fragment shorter than a word is no word at all.
pub open spec fn words_of_bytes(bs: Seq<u8>) -> Seq<u32>
    decreases bs.len(),
{
    if bs.len() < 3 {
        Seq::empty()
    } else {
        seq![word_of_bytes(bs[0], bs[1], bs[2])] + words_of_bytes(bs.skip(3))
    }
}

pub proof fn lemma_word_of_bytes_is_word(b0: u8, b1: u8, b2: u8)
    ensures
        is_word(word_of_bytes(b0, b1, b2)),
        word_of_bytes(b0, b1, b2) >> 16 == b0 as u32,
        (word_of_bytes(b0, b1, b2) >> 8) as u8 == b1,
        word_of_bytes(b0, b1, b2) as u8 == b2,
{
    assert(((b0 as u32) << 16) | ((b1 as u32) << 8) | (b2 as u32) < 0x1000000
        && ((((b0 as u32) << 16) | ((b1 as u32) << 8) | (b2 as u32)) >> 16) == b0 as u32
        && (((((b0 as u32) << 16) | ((b1 as u32) << 8) | (b2 as u32)) >> 8) as u8) == b1
        && ((((b0 as u32) << 16) | ((b1 as u32) << 8) | (b2 as u32)) as u8) == b2)
        by (bit_vector);
}

/// Decoding three big-endian bytes undoes encoding a 24-bit word.
pub proof fn lemma_word_roundtrip(w: u32)
    requires
        is_word(w),
    ensures
        word_of_bytes((w >> 16) as u8, (w >> 8) as u8, w as u8) == w,
{
    assert(w < 0x1000000 ==> ((((w >> 16) as u8) as u32) << 16) | ((((w >> 8) as u8) as u32) << 8)
        | ((w as u8) as u32) == w) by (bit_vector);
}

pub proof fn lemma_bytes_of_words_push(ws: Seq<u32>, w: u32)
    ensures
        bytes_of_words(ws.push(w)) == bytes_of_words(ws) + word_bytes(w),
    decreases ws.len(),
{
    if ws.len() == 0 {
        assert(ws.push(w).drop_first() =~= Seq::<u32>::empty());
        assert(ws.push(w)[0] == w);
        assert(bytes_of_words(ws.push(w)) == word_bytes(w) + bytes_of_words(Seq::<u32>::empty()));
        assert(bytes_of_words(ws.push(w)) =~= bytes_of_words(ws) + word_bytes(w));
    } else {
        assert(ws.push(w).drop_first() =~= ws.drop_first().push(w));
        lemma_bytes_of_words_push(ws.drop_first(), w);
        assert(bytes_of_words(ws.push(w)) =~= bytes_of_words(ws) + word_bytes(w));
    }
}

pub proof fn lemma_bytes_of_words_len(ws: Seq<u32>)
    ensures
        bytes_of_words(ws).len() == 3 * ws.len(),
    decreases ws.len(),
{
    if ws.len() > 0 {
        lemma_bytes_of_words_len(ws.drop_first());
    }
}

pub proof fn lemma_words_of_bytes_len(bs: Seq<u8>)
    requires
        bs.len() % 3 == 0,
    ensures
        words_of_bytes(bs).len() == bs.len() / 3,
    decreases bs.len(),
{
    if bs.len() >= 3 {
        lemma_words_of_bytes_len(bs.skip(3));
    }
}

pub proof fn lemma_words_of_bytes_push3(bs: Seq<u8>, b0: u8, b1: u8, b2: u8)
    requires
        bs.len() % 3 == 0,
    ensures
        words_of_bytes(bs.push(b0).push(b1).push(b2)) == words_of_bytes(bs).push(
            word_of_bytes(b0, b1, b2),
        ),
    decreases bs.len(),
{
    let ext = bs.push(b0).push(b1).push(b2);
    if bs.len() == 0 {
        assert(ext[0] == b0 && ext[1] == b1 && ext[2] == b2);
        assert(ext.skip(3) =~= Seq::<u8>::empty());
        assert(words_of_bytes(ext.skip(3)) =~= Seq::<u32>::empty());
        assert(words_of_bytes(ext) =~= words_of_bytes(bs).push(word_of_bytes(b0, b1, b2)));
    } else {
        assert(ext[0] == bs[0] && ext[1] == bs[1] && ext[2] == bs[2]);
        assert(ext.skip(3) =~= bs.skip(3).push(b0).push(b1).push(b2));
        lemma_words_of_bytes_push3(bs.skip(3), b0, b1, b2);
        assert(words_of_bytes(ext) =~= words_of_bytes(bs).push(word_of_bytes(b0, b1, b2)));
    }
}

/// Word `j` of a decoded stream comes from bytes `3j..3j+3`.
pub proof fn lemma_words_of_bytes_index(bs: Seq<u8>, j: int)
    requires
        0 <= j,
        3 * j + 3 <= bs.len(),
    ensures
        words_of_bytes(bs).len() > j,
        words_of_bytes(bs)[j] == word_of_bytes(bs[3 * j], bs[3 * j + 1], bs[3 * j + 2]),
    decreases j,
{
    if j == 0 {
        assert(words_of_bytes(bs)[0] == word_of_bytes(bs[0], bs[1], bs[2]));
    } else {
        let rest = bs.skip(3);
        lemma_words_of_bytes_index(rest, j - 1);
        assert(rest[3 * (j - 1)] == bs[3 * j]);
        assert(rest[3 * (j - 1) + 1] == bs[3 * j + 1]);
        assert(rest[3 * (j - 1) + 2] == bs[3 * j + 2]);
        assert(words_of_bytes(bs)[j] == words_of_bytes(rest)[j - 1]);
    }
}

/// Every decoded word is a 24-bit word.
pub proof fn lemma_words_of_bytes_words(bs: Seq<u8>)
    ensures
        all_words(words_of_bytes(bs)),
    decreases bs.len(),
{
    if bs.len() >= 3 {
        lemma_word_of_bytes_is_word(bs[0], bs[1], bs[2]);
        lemma_words_of_bytes_words(bs.skip(3));
    }
}

/// Encoding a sequence of 24-bit words to big-endian bytes and decoding
/// again yields the original sequence.
pub proof fn lemma_words_bytes_roundtrip(ws: Seq<u32>)
    requires
        all_words(ws),
    ensures
        words_of_bytes(bytes_of_words(ws)) == ws,
    decreases ws.len(),
{
    if ws.len() == 0 {
        assert(words_of_bytes(bytes_of_words(ws)) =~= ws);
    } else {
        let bs = bytes_of_words(ws);
        lemma_bytes_of_words_len(ws.drop_first());
        assert(bs.len() >= 3);
        lemma_word_roundtrip(ws[0]);
        assert(bs.skip(3) =~= bytes_of_words(ws.drop_first()));
        lemma_words_bytes_roundtrip(ws.drop_first());
        assert(words_of_bytes(bytes_of_words(ws)) =~= ws);
    }
}

/// The argc field of a signature word: bits 23..12.
pub open spec fn sig_argc(sig: u32) -> u32 {
    sig >> 12
}

/// The retc field of a signature word: bits 11..0.
pub open spec fn sig_retc(sig: u32) -> u32 {
    sig & 0xfff
}

/// A signature word packed from two 12-bit arity fields.
pub open spec fn pack_sig(argc: u32, retc: u32) -> u32 {
    ((argc & 0xfff) << 12) | (retc & 0xfff)
}

/// A packed signature is a 24-bit word whatever the arity fields are.
pub proof fn lemma_pack_sig_word(argc: u32, retc: u32)
    ensures
        is_word(pack_sig(argc, retc)),
{
    assert((((argc & 0xfff) << 12) | (retc & 0xfff)) < 0x1000000) by (bit_vector);
}

/// Unpacking a packed signature recovers both fields whenever they fit
/// in 12 bits.
pub proof fn lemma_sig_roundtrip(argc: u32, retc: u32)
    requires
        argc < 0x1000,
        retc < 0x1000,
    ensures
        sig_argc(pack_sig(argc, retc)) == argc,
        sig_retc(pack_sig(argc, retc)) == retc,
        is_word(pack_sig(argc, retc)),
{
    assert(argc < 0x1000 && retc < 0x1000 ==> ((((argc & 0xfff) << 12) | (retc & 0xfff)) >> 12)
        == argc && ((((argc & 0xfff) << 12) | (retc & 0xfff)) & 0xfff) == retc && (((argc & 0xfff)
        << 12) | (retc & 0xfff)) < 0x1000000) by (bit_vector);
}

// Instruction words: the high 12 bits identify the category, the low
// 12 bits the operation. A word whose high 12 bits are all zero is a
// `peek` whose low 12 bits give the stack depth.
pub const OP_PUSH: u32 = 0x001000;

pub const OP_DROP: u32 = 0x001001;

pub const OP_LOAD: u32 = 0x001002;

pub const OP_STOR: u32 = 0x001003;

pub const OP_NEG: u32 = 0x002000;

pub const OP_ADD: u32 = 0x002001;

pub const OP_SUB: u32 = 0x002002;

pub const OP_MUL: u32 = 0x002003;

pub const OP_UDIV: u32 = 0x002005;

pub const OP_SDIV: u32 = 0x002006;

pub const OP_MOD: u32 = 0x002008;

pub const OP_REM: u32 = 0x002009;

pub const OP_NOT: u32 = 0x00200b;

pub const OP_AND: u32 = 0x00200c;

pub const OP_OR: u32 = 0x00200d;

pub const OP_XOR: u32 = 0x00200e;

pub const OP_EQ: u32 = 0x003000;

pub const OP_NE: u32 = 0x003001;

pub const OP_ULT: u32 = 0x003002;

pub const OP_SLT: u32 = 0x003003;

pub const OP_UGT: u32 = 0x003004;

pub const OP_SGT: u32 = 0x003005;

pub const OP_ULE: u32 = 0x003006;

pub const OP_SLE: u32 = 0x003007;

pub const OP_UGE: u32 = 0x003008;

pub const OP_SGE: u32 = 0x003009;

pub const OP_RET: u32 = 0x004000;

pub const OP_JMP: u32 = 0x004001;

pub const OP_IF: u32 = 0x004002;

pub const OP_CALL: u32 = 0x004003;

/// An instruction word whose high 12 bits are all zero is a `peek`.
pub open spec fn is_peek(inst: u32) -> bool {
    inst & 0xfff000 == 0
}

/// The stack depth a `peek` instruction names: its low 12 bits.
pub open spec fn peek_depth(inst: u32) -> u32 {
    inst & 0xfff
}

pub proof fn lemma_peek_depth_bounded(inst: u32)
    requires
        is_word(inst),
    ensures
        peek_depth(inst) < 0x1000,
        is_peek(inst) ==> peek_depth(inst) == inst,
{
    assert((inst & 0xfff) < 0x1000 && (inst < 0x1000000 && inst & 0xfff000 == 0 ==> (inst & 0xfff)
        == inst)) by (bit_vector);
}

/// No named opcode lies in the `peek` range: their high 12 bits are
/// never all zero.
pub proof fn lemma_opcodes_not_peek()
    ensures
        !is_peek(OP_PUSH),
        !is_peek(OP_DROP),
        !is_peek(OP_LOAD),
        !is_peek(OP_STOR),
        !is_peek(OP_NEG),
        !is_peek(OP_ADD),
        !is_peek(OP_SUB),
        !is_peek(OP_MUL),
        !is_peek(OP_UDIV),
        !is_peek(OP_SDIV),
        !is_peek(OP_MOD),
        !is_peek(OP_REM),
        !is_peek(OP_NOT),
        !is_peek(OP_AND),
        !is_peek(OP_OR),
        !is_peek(OP_XOR),
        !is_peek(OP_EQ),
        !is_peek(OP_NE),
        !is_peek(OP_ULT),
        !is_peek(OP_SLT),
        !is_peek(OP_UGT),
        !is_peek(OP_SGT),
        !is_peek(OP_ULE),
        !is_peek(OP_SLE),
        !is_peek(OP_UGE),
        !is_peek(OP_SGE),
        !is_peek(OP_RET),
        !is_peek(OP_JMP),
        !is_peek(OP_IF),
        !is_peek(OP_CALL),
{
    assert(0x001000u32 & 0xfff000 != 0 && 0x001001u32 & 0xfff000 != 0 && 0x001002u32 & 0xfff000
        != 0 && 0x001003u32 & 0xfff000 != 0 && 0x002000u32 & 0xfff000 != 0 && 0x002001u32
        & 0xfff000 != 0 && 0x002002u32 & 0xfff000 != 0 && 0x002003u32 & 0xfff000 != 0
        && 0x002005u32 & 0xfff000 != 0 && 0x002006u32 & 0xfff000 != 0 && 0x002008u32 & 0xfff000
        != 0 && 0x002009u32 & 0xfff000 != 0 && 0x00200bu32 & 0xfff000 != 0 && 0x00200cu32
        & 0xfff000 != 0 && 0x00200du32 & 0xfff000 != 0 && 0x00200eu32 & 0xfff000 != 0
        && 0x003000u32 & 0xfff000 != 0 && 0x003001u32 & 0xfff000 != 0 && 0x003002u32 & 0xfff000
        != 0 && 0x003003u32 & 0xfff000 != 0 && 0x003004u32 & 0xfff000 != 0 && 0x003005u32
        & 0xfff000 != 0 && 0x003006u32 & 0xfff000 != 0 && 0x003007u32 & 0xfff000 != 0
        && 0x003008u32 & 0xfff000 != 0 && 0x003009u32 & 0xfff000 != 0 && 0x004000u32 & 0xfff000
        != 0 && 0x004001u32 & 0xfff000 != 0 && 0x004002u32 & 0xfff000 != 0 && 0x004003u32
        & 0xfff000 != 0) by (bit_vector);
}

} // verus!
