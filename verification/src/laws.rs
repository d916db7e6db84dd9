//! Laws of the machine, stated and proved over the small-step
//! semantics `step`: the barrier is never undercut, short opcode
//! sequences behave as advertised, and the header's fixed bytes are
//! pinned by validation.

use vstd::prelude::*;

use crate::alu::{binop_result, lemma_add_sub_cancel};
use crate::codec::{
    is_word, lemma_opcodes_not_peek, lemma_words_of_bytes_len, word_of_bytes, words_of_bytes,
    OP_ADD, OP_CALL, OP_DROP, OP_IF, OP_PUSH, OP_SUB,
};
use crate::errors::VmError;
use crate::func_execute::{delta_sum, read_sigs, sig_delta, step, ExecState, Step};
use crate::memory::MemoryAccessor;
use crate::vm::{load_fault, Func, PlutoVM};

verus! {

/// At every moment of a valid run the value stack reaches at least up
/// to the active executor's barrier: a well-formed machine never holds
/// an executor whose barrier exceeds the stack, and every tick keeps
/// the machine well formed.
pub proof fn lemma_barrier_respected(vm: PlutoVM)
    requires
        vm.wf(),
    ensures
        vm.func matches Func::Executor(e) ==> e.stack_access.stack@.len()
            >= e.stack_access.disallowed,
{
}

/// The activation one `Next` step of `step` leads to: the new counter
/// and stack over the same barrier and declared return count.
pub open spec fn after(es: ExecState, pc: u32, stack: Seq<u32>) -> ExecState {
    ExecState { pc, stack, barrier: es.barrier, retc: es.retc }
}

/// `push K; drop` leaves the stack unchanged: whatever immediate the
/// push fetched, the drop restores the starting stack, and execution
/// continues right after the pair.
pub proof fn lemma_push_drop(es: ExecState, m: MemoryAccessor)
    requires
        es.wf(),
        m.wf(),
        m.read_ok(es.pc),
        m.read_spec(es.pc) == OP_PUSH,
        m.read_ok((es.pc + 1) as u32),
        m.read_ok((es.pc + 2) as u32),
        m.read_spec((es.pc + 2) as u32) == OP_DROP,
    ensures
        ({
            let k = m.read_spec((es.pc + 1) as u32);
            let pushed = after(es, (es.pc + 2) as u32, es.stack.push(k));
            &&& step(es, m) == (Step::Next {
                pc: pushed.pc,
                stack: pushed.stack,
                write: None::<(u32, u32)>,
            })
            &&& step(pushed, m) == (Step::Next {
                pc: (es.pc + 3) as u32,
                stack: es.stack,
                write: None::<(u32, u32)>,
            })
        }),
{
    lemma_opcodes_not_peek();
    crate::memory::lemma_read_ok_bound(m, es.pc);
    let k = m.read_spec((es.pc + 1) as u32);
    assert(es.stack.push(k).drop_last() =~= es.stack);
}

/// `push A; push B; add; push B; sub` leaves a single `A` above the
/// starting stack: adding and subtracting one word cancel modulo 2^24.
pub proof fn lemma_push_add_push_sub(es: ExecState, m: MemoryAccessor, a: u32, b: u32)
    requires
        es.wf(),
        m.wf(),
        m.read_ok(es.pc),
        m.read_ok((es.pc + 1) as u32),
        m.read_ok((es.pc + 2) as u32),
        m.read_ok((es.pc + 3) as u32),
        m.read_ok((es.pc + 4) as u32),
        m.read_ok((es.pc + 5) as u32),
        m.read_ok((es.pc + 6) as u32),
        m.read_ok((es.pc + 7) as u32),
        m.read_spec(es.pc) == OP_PUSH,
        m.read_spec((es.pc + 1) as u32) == a,
        m.read_spec((es.pc + 2) as u32) == OP_PUSH,
        m.read_spec((es.pc + 3) as u32) == b,
        m.read_spec((es.pc + 4) as u32) == OP_ADD,
        m.read_spec((es.pc + 5) as u32) == OP_PUSH,
        m.read_spec((es.pc + 6) as u32) == b,
        m.read_spec((es.pc + 7) as u32) == OP_SUB,
    ensures
        ({
            let st = es.stack;
            let sum = binop_result(OP_ADD, a, b);
            let e2 = after(es, (es.pc + 2) as u32, st.push(a));
            let e3 = after(es, (es.pc + 4) as u32, st.push(a).push(b));
            let e4 = after(es, (es.pc + 5) as u32, st.push(sum));
            let e5 = after(es, (es.pc + 7) as u32, st.push(sum).push(b));
            &&& step(es, m) == (Step::Next {
                pc: e2.pc,
                stack: e2.stack,
                write: None::<(u32, u32)>,
            })
            &&& step(e2, m) == (Step::Next {
                pc: e3.pc,
                stack: e3.stack,
                write: None::<(u32, u32)>,
            })
            &&& step(e3, m) == (Step::Next {
                pc: e4.pc,
                stack: e4.stack,
                write: None::<(u32, u32)>,
            })
            &&& step(e4, m) == (Step::Next {
                pc: e5.pc,
                stack: e5.stack,
                write: None::<(u32, u32)>,
            })
            &&& step(e5, m) == (Step::Next {
                pc: (es.pc + 8) as u32,
                stack: st.push(a),
                write: None::<(u32, u32)>,
            })
        }),
{
    lemma_opcodes_not_peek();
    crate::memory::lemma_read_ok_bound(m, es.pc);
    let st = es.stack;
    crate::memory::lemma_read_spec_word(m, (es.pc + 1) as u32);
    crate::memory::lemma_read_spec_word(m, (es.pc + 3) as u32);
    assert(is_word(a) && is_word(b));
    let sum = binop_result(OP_ADD, a, b);
    assert(st.push(a).push(b).drop_last().drop_last() =~= st);
    lemma_add_sub_cancel(a, b);
    assert(st.push(sum).push(b).drop_last().drop_last() =~= st);
}

/// `if` selects: with a nonzero condition the machine continues at the
/// first-pushed-last successor `f1`, with zero at `f2`; the two other
/// operands and the condition leave the stack.
pub proof fn lemma_if_selects(es: ExecState, m: MemoryAccessor)
    requires
        es.wf(),
        m.wf(),
        m.read_ok(es.pc),
        m.read_spec(es.pc) == OP_IF,
        es.stack.len() - es.barrier >= 3,
    ensures
        ({
            let st = es.stack;
            let f1 = st[st.len() - 1];
            let f2 = st[st.len() - 2];
            let t = st[st.len() - 3];
            let chosen = if t != 0 {
                f1
            } else {
                f2
            };
            &&& !m.read_ok(chosen) ==> step(es, m) == (Step::Fault {
                err: VmError::ReadFault { addr: chosen },
            })
            &&& m.read_ok(chosen) && st.len() - es.barrier - 3 + sig_delta(m.read_spec(chosen))
                == es.retc ==> step(es, m) == (Step::End {
                stack: st.take(st.len() - 3),
                succ: seq![chosen],
            })
            &&& m.read_ok(chosen) && st.len() - es.barrier - 3 + sig_delta(m.read_spec(chosen))
                != es.retc ==> step(es, m) == (Step::Fault { err: VmError::ArityMismatch })
        }),
{
    lemma_opcodes_not_peek();
    let st = es.stack;
    let chosen = if st[st.len() - 3] != 0 {
        st[st.len() - 1]
    } else {
        st[st.len() - 2]
    };
    let succ = seq![chosen];
    assert(succ.drop_first() =~= Seq::<u32>::empty());
    if m.read_ok(chosen) {
        assert(read_sigs(m, succ.drop_first()) == Ok::<Seq<u32>, VmError>(Seq::empty()));
        let sigs = seq![m.read_spec(chosen)] + Seq::<u32>::empty();
        assert(read_sigs(m, succ) == Ok::<Seq<u32>, VmError>(sigs));
        assert(sigs.drop_first() =~= Seq::<u32>::empty());
        assert(delta_sum(sigs) == sig_delta(sigs[0]) + delta_sum(Seq::<u32>::empty()));
        assert(sigs[0] == m.read_spec(chosen));
    }
}

/// `call` ends the function naming `[f2, f1]`: the scheduler pops from
/// the end of the pending stack, so the callee `f1` runs before the
/// continuation `f2`.
pub proof fn lemma_call_successors(es: ExecState, m: MemoryAccessor)
    requires
        es.wf(),
        m.wf(),
        m.read_ok(es.pc),
        m.read_spec(es.pc) == OP_CALL,
        es.stack.len() - es.barrier >= 2,
    ensures
        ({
            let st = es.stack;
            let f1 = st[st.len() - 1];
            let f2 = st[st.len() - 2];
            step(es, m) matches Step::End { stack, succ } ==> (succ == seq![f2, f1] && stack
                == st.take(st.len() - 2))
        }),
{
    lemma_opcodes_not_peek();
}

/// A tick that ran `call f2, f1` appends the continuation beneath the
/// callee: the pending stack now ends `f2, f1`, so the callee `f1` is
/// the next function the scheduler enters, over the value stack the
/// call left behind. With the step-level successor order this is how
/// `call` composes: the callee runs first, the continuation after it.
pub proof fn lemma_call_schedules_callee_first(vm1: PlutoVM, vm2: PlutoVM)
    requires
        vm1.func matches Func::Executor(e) && vm1.memory.read_ok(e.model().pc)
            && vm1.memory.read_spec(e.model().pc) == OP_CALL,
        crate::vm::tick_rel(vm1, vm2, Ok::<bool, VmError>(true)),
    ensures
        vm1.func matches Func::Executor(e) ==> ({
            let st = e.model().stack;
            let f1 = st[st.len() - 1];
            let f2 = st[st.len() - 2];
            &&& st.len() - e.model().barrier >= 2
            &&& vm2.function_stack@ == vm1.function_stack@ + seq![f2, f1]
            &&& vm2.function_stack@.len() > 0
            &&& vm2.function_stack@.last() == f1
            &&& vm2.func matches Func::Stack(s) && s@ == st.take(st.len() - 2)
        }),
{
    lemma_opcodes_not_peek();
    match vm1.func {
        Func::Executor(e) => {
            let es = e.model();
            let st = es.stack;
            let f1 = st[st.len() - 1];
            let f2 = st[st.len() - 2];
            match step(es, vm1.memory) {
                Step::Fault { err } => {
                    assert(false);
                },
                Step::Next { pc, stack, write } => {
                    assert(false);
                },
                Step::End { stack, succ } => {
                    assert(st.len() - es.barrier >= 2);
                    assert(succ == seq![f2, f1]);
                    assert((vm1.function_stack@ + succ).last() == f1);
                },
            }
        },
        Func::Stack(_) => {},
    }
}

/// Two byte streams that both pass header validation agree on the nine
/// bytes that carry the magic, feature and mapping words: any
/// perturbation of bytes 0..2, 3..5 or 6..8 is caught at load.
pub proof fn lemma_header_fixed_bytes(b1: Seq<u8>, b2: Seq<u8>)
    requires
        b1.len() % 3 == 0,
        b2.len() % 3 == 0,
        load_fault(words_of_bytes(b1)) is None,
        load_fault(words_of_bytes(b2)) is None,
    ensures
        forall|k: int| 0 <= k < 9 ==> b1[k] == b2[k],
{
    lemma_words_of_bytes_len(b1);
    lemma_words_of_bytes_len(b2);
    lemma_three_bytes_pinned(b1, b2, 0);
    lemma_three_bytes_pinned(b1, b2, 1);
    lemma_three_bytes_pinned(b1, b2, 2);
}

/// Where two decoded streams agree on word `j`, they agree on the
/// three bytes that carry it.
proof fn lemma_three_bytes_pinned(b1: Seq<u8>, b2: Seq<u8>, j: int)
    requires
        0 <= j,
        3 * j + 3 <= b1.len(),
        3 * j + 3 <= b2.len(),
        words_of_bytes(b1)[j] == words_of_bytes(b2)[j],
    ensures
        b1[3 * j] == b2[3 * j],
        b1[3 * j + 1] == b2[3 * j + 1],
        b1[3 * j + 2] == b2[3 * j + 2],
{
    crate::codec::lemma_words_of_bytes_index(b1, j);
    crate::codec::lemma_words_of_bytes_index(b2, j);
    let x0 = b1[3 * j];
    let x1 = b1[3 * j + 1];
    let x2 = b1[3 * j + 2];
    let y0 = b2[3 * j];
    let y1 = b2[3 * j + 1];
    let y2 = b2[3 * j + 2];
    assert(word_of_bytes(x0, x1, x2) == word_of_bytes(y0, y1, y2));
    assert((((x0 as u32) << 16) | ((x1 as u32) << 8) | (x2 as u32)) == (((y0 as u32) << 16) | ((y1
        as u32) << 8) | (y2 as u32)) ==> x0 == y0 && x1 == y1 && x2 == y2) by (bit_vector);
}


/// What the assembler writes, the machine reads back: an assembled
/// ROM, packed big-endian onto the wire, decodes to the very word
/// sequence the assembler produced.
pub proof fn lemma_assembled_rom_roundtrip(text: Seq<u8>)
    ensures
        (match crate::assembler::assemble_spec(text) {
            Ok(ws) => words_of_bytes(crate::codec::bytes_of_words(ws)) == ws,
            Err(_) => true,
        }),
{
    crate::assembler::lemma_assemble_words(text);
    match crate::assembler::assemble_spec(text) {
        Ok(ws) => {
            crate::codec::lemma_words_bytes_roundtrip(ws);
        },
        Err(_) => {},
    }
}

} // verus!
