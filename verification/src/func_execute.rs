//! The per-function interpreter. A `FuncExecutor` runs the body of one
//! function one instruction at a time over the shared value stack,
//! guarded by a barrier below which the function may not pop, and ends
//! by naming the successor functions its terminator designates.

use vstd::prelude::*;

use crate::alu::{
    binop_result, exec_binop, exec_unop, is_binop, is_division, is_unop, unop_result,
};
use crate::codec::{
    all_words, is_peek, is_word, lemma_peek_depth_bounded, peek_depth,
    sig_argc, sig_retc, OP_ADD, OP_AND, OP_CALL, OP_DROP, OP_EQ, OP_IF, OP_JMP, OP_LOAD, OP_MOD,
    OP_MUL, OP_NE, OP_NEG, OP_NOT, OP_OR, OP_PUSH, OP_REM, OP_RET, OP_SDIV, OP_SGE, OP_SGT,
    OP_SLE, OP_SLT, OP_STOR, OP_SUB, OP_UDIV, OP_UGE, OP_UGT, OP_ULE, OP_ULT, OP_XOR,
};
use crate::errors::VmError;
use crate::memory::MemoryAccessor;

verus! {

/// The value stack as one function sees it: the whole shared stack,
/// the barrier below which this function may not reach, and the
/// declared return count the function must balance on exit.
pub struct StackAccess {
    pub stack: Vec<u32>,
    pub disallowed: usize,
    pub retc: usize,
}

impl StackAccess {
    /// The stack never shrinks below the barrier and holds only 24-bit
    /// words.
    pub open spec fn wf(&self) -> bool {
        &&& self.disallowed <= self.stack@.len()
        &&& all_words(self.stack@)
    }

    /// The number of stack values above the barrier.
    pub open spec fn height(&self) -> int {
        self.stack@.len() - self.disallowed
    }

    /// Splits a signature word into its `(argc, retc)` fields.
    pub fn decompose_sig(func_sig: u32) -> (r: (u32, u32))
        ensures
            r.0 == sig_argc(func_sig),
            r.1 == sig_retc(func_sig),
    {
        (func_sig >> 12, func_sig & 0xfff)
    }

    /// Adopts the value stack for one function: the barrier sits
    /// `argc` below the top, so the function sees exactly its
    /// arguments. Fails when fewer than `argc` values are available.
    pub fn new(stack: Vec<u32>, func_sig: u32) -> (r: Result<StackAccess, VmError>)
        requires
            all_words(stack@),
        ensures
            match r {
                Ok(s) => {
                    &&& sig_argc(func_sig) <= stack@.len()
                    &&& s.stack@ == stack@
                    &&& s.disallowed == stack@.len() - sig_argc(func_sig)
                    &&& s.retc == sig_retc(func_sig)
                    &&& s.wf()
                },
                Err(e) => {
                    &&& sig_argc(func_sig) > stack@.len()
                    &&& e == VmError::NotEnoughArgs
                },
            },
    {
        let (argc, retc) = Self::decompose_sig(func_sig);
        if argc as usize > stack.len() {
            return Err(VmError::NotEnoughArgs);
        }
        let disallowed = stack.len() - argc as usize;
        Ok(StackAccess { stack, disallowed, retc: retc as usize })
    }

    /// Pops the top value; reaching below the barrier is a fatal stack
    /// violation.
    pub fn pop(&mut self) -> (r: Result<u32, VmError>)
        ensures
            final(self).disallowed == old(self).disallowed,
            final(self).retc == old(self).retc,
            match r {
                Ok(v) => {
                    &&& old(self).height() > 0
                    &&& v == old(self).stack@.last()
                    &&& final(self).stack@ == old(self).stack@.drop_last()
                },
                Err(e) => {
                    &&& old(self).height() <= 0
                    &&& e == VmError::StackUnderflow
                    &&& *final(self) == *old(self)
                },
            },
    {
        if self.stack.len() > self.disallowed {
            match self.stack.pop() {
                Some(v) => Ok(v),
                None => Err(VmError::StackUnderflow),
            }
        } else {
            Err(VmError::StackUnderflow)
        }
    }

    pub fn push(&mut self, value: u32)
        requires
            is_word(value),
        ensures
            final(self).stack@ == old(self).stack@.push(value),
            final(self).disallowed == old(self).disallowed,
            final(self).retc == old(self).retc,
            old(self).wf() ==> final(self).wf(),
    {
        self.stack.push(value);
    }

    /// Pushes 1 for true, 0 for false.
    pub fn push_bool(&mut self, value: bool)
        ensures
            final(self).stack@ == old(self).stack@.push(crate::alu::bool_word(value)),
            final(self).disallowed == old(self).disallowed,
            final(self).retc == old(self).retc,
            old(self).wf() ==> final(self).wf(),
    {
        self.push(if value {
            1
        } else {
            0
        })
    }

    /// Reads the value at the given depth from the top, zero being the
    /// top element, without changing the stack. A depth at or past the
    /// barrier is a fatal stack violation.
    pub fn peek(&self, depth: u32) -> (r: Result<u32, VmError>)
        requires
            self.wf(),
        ensures
            match r {
                Ok(v) => {
                    &&& depth < self.height()
                    &&& v == self.stack@[self.stack@.len() - 1 - depth]
                    &&& is_word(v)
                },
                Err(e) => {
                    &&& depth >= self.height()
                    &&& e == VmError::StackUnderflow
                },
            },
    {
        if (depth as usize) < self.stack.len() - self.disallowed {
            Ok(self.stack[self.stack.len() - 1 - depth as usize])
        } else {
            Err(VmError::StackUnderflow)
        }
    }

    pub fn stack_height(&self) -> (r: usize)
        requires
            self.wf(),
        ensures
            r == self.height(),
    {
        self.stack.len() - self.disallowed
    }

    /// Yields the value stack back when the function is done.
    pub fn dispose(self) -> (r: Vec<u32>)
        ensures
            r@ == self.stack@,
    {
        self.stack
    }
}

/// The net stack effect a function with this signature word will have
/// once it has run: its returns minus its arguments.
pub open spec fn sig_delta(sig: u32) -> int {
    sig_retc(sig) - sig_argc(sig)
}

/// The summed stack effect of a list of signature words.
pub open spec fn delta_sum(sigs: Seq<u32>) -> int
    decreases sigs.len(),
{
    if sigs.len() == 0 {
        0
    } else {
        sig_delta(sigs[0]) + delta_sum(sigs.drop_first())
    }
}

pub proof fn lemma_delta_sum_push(sigs: Seq<u32>, sig: u32)
    ensures
        delta_sum(sigs.push(sig)) == delta_sum(sigs) + sig_delta(sig),
    decreases sigs.len(),
{
    assert(sigs.push(sig)[0] == if sigs.len() == 0 {
        sig
    } else {
        sigs[0]
    });
    if sigs.len() == 0 {
        assert(sigs.push(sig).drop_first() =~= Seq::<u32>::empty());
        assert(delta_sum(sigs.push(sig)) == sig_delta(sig) + delta_sum(Seq::<u32>::empty()));
    } else {
        assert(sigs.push(sig).drop_first() =~= sigs.drop_first().push(sig));
        lemma_delta_sum_push(sigs.drop_first(), sig);
        assert(delta_sum(sigs.push(sig)) == sig_delta(sigs[0]) + delta_sum(
            sigs.drop_first().push(sig),
        ));
    }
}

/// The summed stack effect of signature words, computed wide enough
/// that no real list can overflow it.
fn sigs_delta(sigs: &Vec<u32>) -> (r: i128)
    ensures
        r == delta_sum(sigs@),
        -0x100000 * sigs@.len() <= r <= 0x1000 * sigs@.len(),
{
    let n = sigs.len();
    let mut acc: i128 = 0;
    let mut i: usize = 0;
    while i < n
        invariant
            n == sigs@.len(),
            0 <= i <= n,
            acc == delta_sum(sigs@.take(i as int)),
            -0x100000 * (i as int) <= acc <= 0x1000 * (i as int),
        decreases n - i,
    {
        let (argc, retc) = StackAccess::decompose_sig(sigs[i]);
        proof {
            let s = sigs@[i as int];
            assert(s >> 12 <= 0x100000 && (s & 0xfff) <= 0xfff) by (bit_vector);
            assert(sigs@.take(i as int).push(sigs@[i as int]) =~= sigs@.take(i + 1));
            lemma_delta_sum_push(sigs@.take(i as int), sigs@[i as int]);
        }
        acc = acc + retc as i128 - argc as i128;
        i = i + 1;
    }
    proof {
        assert(sigs@.take(n as int) =~= sigs@);
    }
    acc
}

/// The signature words of the successor pointers, read in order; the
/// first unreadable pointer faults.
pub open spec fn read_sigs(m: MemoryAccessor, ptrs: Seq<u32>) -> Result<Seq<u32>, VmError>
    decreases ptrs.len(),
{
    if ptrs.len() == 0 {
        Ok(Seq::empty())
    } else if !m.read_ok(ptrs[0]) {
        Err(VmError::ReadFault { addr: ptrs[0] })
    } else {
        match read_sigs(m, ptrs.drop_first()) {
            Ok(rest) => Ok(seq![m.read_spec(ptrs[0])] + rest),
            Err(e) => Err(e),
        }
    }
}

/// Reading signatures walks the pointers in order: with the first `i`
/// readable, the outcome is decided at position `i`.
pub proof fn lemma_read_sigs_at(m: MemoryAccessor, ptrs: Seq<u32>, i: int)
    requires
        0 <= i <= ptrs.len(),
        forall|j: int| 0 <= j < i ==> m.read_ok(#[trigger] ptrs[j]),
    ensures
        i < ptrs.len() && !m.read_ok(ptrs[i]) ==> read_sigs(m, ptrs) == Err::<Seq<u32>, VmError>(
            VmError::ReadFault { addr: ptrs[i] },
        ),
        i == ptrs.len() ==> (match read_sigs(m, ptrs) {
            Ok(gs) => gs.len() == ptrs.len() && forall|j: int|
                0 <= j < ptrs.len() ==> gs[j] == m.read_spec(#[trigger] ptrs[j]),
            Err(_) => false,
        }),
    decreases ptrs.len(),
{
    if ptrs.len() > 0 && i > 0 {
        let rest = ptrs.drop_first();
        assert(m.read_ok(ptrs[0]));
        assert forall|j: int| 0 <= j < i - 1 implies m.read_ok(#[trigger] rest[j]) by {
            assert(rest[j] == ptrs[j + 1]);
        }
        lemma_read_sigs_at(m, rest, i - 1);
        if i < ptrs.len() && !m.read_ok(ptrs[i]) {
            assert(rest[i - 1] == ptrs[i]);
        } else if i == ptrs.len() {
            match read_sigs(m, rest) {
                Ok(gs2) => {
                    let gs = seq![m.read_spec(ptrs[0])] + gs2;
                    assert(read_sigs(m, ptrs) == Ok::<Seq<u32>, VmError>(gs));
                    assert forall|j: int| 0 <= j < ptrs.len() implies gs[j] == m.read_spec(
                        #[trigger] ptrs[j],
                    ) by {
                        if j > 0 {
                            assert(gs[j] == gs2[j - 1]);
                            assert(rest[j - 1] == ptrs[j]);
                        }
                    }
                },
                Err(_) => {
                    assert(false);
                },
            }
        }
    }
}

/// The mathematical state of one function activation: program
/// counter, the value stack, the barrier, and the declared return
/// count. `step` runs over these, so contracts can also speak of
/// activations that no executor value carries yet.
#[verifier::ext_equal]
pub ghost struct ExecState {
    pub pc: u32,
    pub stack: Seq<u32>,
    pub barrier: int,
    pub retc: int,
}

impl ExecState {
    /// The barrier lies within the stack, the stack holds only words,
    /// and the program counter stays inside the address space.
    pub open spec fn wf(&self) -> bool {
        &&& 0 <= self.barrier <= self.stack.len()
        &&& all_words(self.stack)
        &&& self.pc <= 0x1000000
    }
}

/// What one instruction does, before it is done: a fault aborts the
/// run, `Next` continues inside the function (with an optional store
/// to memory), `End` leaves it with a successor list.
pub ghost enum Step {
    Fault { err: VmError },
    Next { pc: u32, stack: Seq<u32>, write: Option<(u32, u32)> },
    End { stack: Seq<u32>, succ: Seq<u32> },
}

impl StackAccess {
    /// Whether handing control to functions with the given signature
    /// words balances this function's declared return count: the
    /// current height above the barrier plus their summed stack effect
    /// must equal `retc`. This is the machine's structural type check.
    pub fn compat_with(&self, funcs: Vec<u32>) -> (r: bool)
        requires
            self.wf(),
        ensures
            r == (self.height() + delta_sum(funcs@) == self.retc as int),
    {
        let n = funcs.len();
        let d = sigs_delta(&funcs);
        proof {
            assert(-0x100000 * (n as int) <= d <= 0x1000 * (n as int));
        }
        self.stack_height() as i128 + d == self.retc as i128
    }
}

/// The interpreter for one function activation: program counter, the
/// adopted value stack behind its barrier, and, once a terminator has
/// run, the successor list.
pub struct FuncExecutor {
    pub prg_ptr: u32,
    pub stack_access: StackAccess,
    pub func_stack: Option<Vec<u32>>,
}

/// Why entering a function at `func_ptr` over the given stack fails,
/// if it does: an unreadable signature word, or fewer stack values
/// than the declared argc.
pub open spec fn entry_fault(m: MemoryAccessor, func_ptr: u32, stack: Seq<u32>) -> Option<
    VmError,
> {
    if !m.read_ok(func_ptr) {
        Some(VmError::ReadFault { addr: func_ptr })
    } else if sig_argc(m.read_spec(func_ptr)) > stack.len() {
        Some(VmError::NotEnoughArgs)
    } else {
        None
    }
}

/// The activation that entering the function at `func_ptr` over the
/// given stack creates, when `entry_fault` allows it: the counter on
/// the word after the signature, the barrier `argc` below the top.
pub open spec fn entry_state(m: MemoryAccessor, func_ptr: u32, stack: Seq<u32>) -> ExecState {
    let sig = m.read_spec(func_ptr);
    ExecState {
        pc: (func_ptr + 1) as u32,
        stack,
        barrier: stack.len() - sig_argc(sig),
        retc: sig_retc(sig) as int,
    }
}

/// What one instruction does, as a function of the activation and the
/// memory: the contract of `tick`.
pub open spec fn step(es: ExecState, m: MemoryAccessor) -> Step {
    let pc = es.pc;
    let st = es.stack;
    let h = es.stack.len() - es.barrier;
    if !m.read_ok(pc) {
        Step::Fault { err: VmError::ReadFault { addr: pc } }
    } else {
        let inst = m.read_spec(pc);
        if is_peek(inst) {
            if h > peek_depth(inst) {
                Step::Next {
                    pc: (pc + 1) as u32,
                    stack: st.push(st[st.len() - 1 - peek_depth(inst)]),
                    write: None,
                }
            } else {
                Step::Fault { err: VmError::StackUnderflow }
            }
        } else if inst == OP_PUSH {
            if !m.read_ok((pc + 1) as u32) {
                Step::Fault { err: VmError::ReadFault { addr: (pc + 1) as u32 } }
            } else {
                Step::Next {
                    pc: (pc + 2) as u32,
                    stack: st.push(m.read_spec((pc + 1) as u32)),
                    write: None,
                }
            }
        } else if inst == OP_DROP {
            if h >= 1 {
                Step::Next { pc: (pc + 1) as u32, stack: st.drop_last(), write: None }
            } else {
                Step::Fault { err: VmError::StackUnderflow }
            }
        } else if inst == OP_LOAD {
            if h >= 1 {
                let a = st.last();
                if m.read_ok(a) {
                    Step::Next {
                        pc: (pc + 1) as u32,
                        stack: st.drop_last().push(m.read_spec(a)),
                        write: None,
                    }
                } else {
                    Step::Fault { err: VmError::ReadFault { addr: a } }
                }
            } else {
                Step::Fault { err: VmError::StackUnderflow }
            }
        } else if inst == OP_STOR {
            if h >= 2 {
                let a = st.last();
                let v = st[st.len() - 2];
                if m.write_ok(a) {
                    Step::Next {
                        pc: (pc + 1) as u32,
                        stack: st.drop_last().drop_last(),
                        write: Some((a, v)),
                    }
                } else {
                    Step::Fault { err: VmError::WriteFault { addr: a } }
                }
            } else {
                Step::Fault { err: VmError::StackUnderflow }
            }
        } else if is_unop(inst) {
            if h >= 1 {
                Step::Next {
                    pc: (pc + 1) as u32,
                    stack: st.drop_last().push(unop_result(inst, st.last())),
                    write: None,
                }
            } else {
                Step::Fault { err: VmError::StackUnderflow }
            }
        } else if is_binop(inst) {
            if h >= 2 {
                let y = st.last();
                let x = st[st.len() - 2];
                if is_division(inst) && y == 0 {
                    Step::Fault { err: VmError::DivideByZero { addr: pc } }
                } else {
                    Step::Next {
                        pc: (pc + 1) as u32,
                        stack: st.drop_last().drop_last().push(binop_result(inst, x, y)),
                        write: None,
                    }
                }
            } else {
                Step::Fault { err: VmError::StackUnderflow }
            }
        } else if inst == OP_RET || inst == OP_JMP || inst == OP_IF || inst == OP_CALL {
            let npop: int = if inst == OP_RET {
                0
            } else if inst == OP_JMP {
                1
            } else if inst == OP_CALL {
                2
            } else {
                3
            };
            if h < npop {
                Step::Fault { err: VmError::StackUnderflow }
            } else {
                let succ: Seq<u32> = if inst == OP_RET {
                    Seq::empty()
                } else if inst == OP_JMP {
                    seq![st.last()]
                } else if inst == OP_CALL {
                    seq![st[st.len() - 2], st.last()]
                } else if st[st.len() - 3] != 0 {
                    seq![st.last()]
                } else {
                    seq![st[st.len() - 2]]
                };
                match read_sigs(m, succ) {
                    Err(e) => Step::Fault { err: e },
                    Ok(sigs) => {
                        if h - npop + delta_sum(sigs) == es.retc {
                            Step::End { stack: st.take(st.len() - npop), succ }
                        } else {
                            Step::Fault { err: VmError::ArityMismatch }
                        }
                    },
                }
            }
        } else {
            Step::Fault { err: VmError::UnknownOpcode { addr: pc, op: inst } }
        }
    }
}

impl FuncExecutor {
    /// The activation this executor carries.
    pub open spec fn model(&self) -> ExecState {
        ExecState {
            pc: self.prg_ptr,
            stack: self.stack_access.stack@,
            barrier: self.stack_access.disallowed as int,
            retc: self.stack_access.retc as int,
        }
    }

    /// The executor's barrier never exceeds the stack, the stack and
    /// any successor list hold only words, and the program counter
    /// stays inside the address space.
    pub open spec fn wf(&self) -> bool {
        &&& self.stack_access.wf()
        &&& self.prg_ptr <= 0x1000000
        &&& match self.func_stack {
            Some(v) => all_words(v@) && v@.len() <= 2,
            None => true,
        }
    }

    /// Enters the function at `func_ptr`: reads its signature word,
    /// checks that the stack carries its arguments, and places the
    /// barrier `argc` below the top. The program counter starts on the
    /// word after the signature.
    pub fn new(memory: &MemoryAccessor, func_ptr: u32, value_stack: Vec<u32>) -> (r: Result<
        FuncExecutor,
        VmError,
    >)
        requires
            memory.wf(),
            all_words(value_stack@),
        ensures
            match r {
                Ok(e) => {
                    &&& entry_fault(*memory, func_ptr, value_stack@) is None
                    &&& e.wf()
                    &&& e.prg_ptr == func_ptr + 1
                    &&& e.stack_access.stack@ == value_stack@
                    &&& e.stack_access.disallowed == value_stack@.len() - sig_argc(
                        memory.read_spec(func_ptr),
                    )
                    &&& e.stack_access.retc == sig_retc(memory.read_spec(func_ptr))
                    &&& e.func_stack is None
                    &&& e.model() == entry_state(*memory, func_ptr, value_stack@)
                },
                Err(er) => entry_fault(*memory, func_ptr, value_stack@) == Some(er),
            },
    {
        let func_sig = match memory.read(func_ptr) {
            Ok(v) => v,
            Err(e) => {
                return Err(e);
            },
        };
        proof {
            crate::memory::lemma_read_ok_bound(*memory, func_ptr);
        }
        let prg_ptr = func_ptr + 1;
        let stack_access = match StackAccess::new(value_stack, func_sig) {
            Ok(s) => s,
            Err(e) => {
                return Err(e);
            },
        };
        let e = FuncExecutor { prg_ptr, stack_access, func_stack: None };
        proof {
            assert(e.model() =~= entry_state(*memory, func_ptr, value_stack@));
        }
        Ok(e)
    }

    #[verifier::loop_isolation(false)]
    /// Executes exactly one instruction, as `step` prescribes: `Ok(true)`
    /// while still inside the function, `Ok(false)` once a terminator
    /// has produced the successor list, and on a fault an error with
    /// the machine state untouched.
    pub fn tick(&mut self, memory: &mut MemoryAccessor) -> (r: Result<bool, VmError>)
        requires
            old(self).wf(),
            old(self).func_stack is None,
            old(memory).wf(),
        ensures
            final(self).stack_access.disallowed == old(self).stack_access.disallowed,
            final(self).stack_access.retc == old(self).stack_access.retc,
            final(self).wf(),
            final(memory).wf(),
            match step(old(self).model(), *old(memory)) {
                Step::Fault { err } => {
                    &&& r == Err::<bool, VmError>(err)
                    &&& *final(self) == *old(self)
                    &&& *final(memory) == *old(memory)
                },
                Step::Next { pc, stack, write } => {
                    &&& r == Ok::<bool, VmError>(true)
                    &&& final(self).prg_ptr == pc
                    &&& final(self).stack_access.stack@ == stack
                    &&& final(self).func_stack is None
                    &&& match write {
                        Some(av) => MemoryAccessor::wrote(
                            *old(memory),
                            *final(memory),
                            av.0,
                            av.1,
                        ),
                        None => *final(memory) == *old(memory),
                    }
                },
                Step::End { stack, succ } => {
                    &&& r == Ok::<bool, VmError>(false)
                    &&& final(self).prg_ptr == old(self).prg_ptr
                    &&& final(self).stack_access.stack@ == stack
                    &&& final(self).func_stack matches Some(f) && f@ == succ
                    &&& *final(memory) == *old(memory)
                },
            },
    {
        let inst = match memory.read(self.prg_ptr) {
            Ok(v) => v,
            Err(e) => {
                return Err(e);
            },
        };
        proof {
            crate::memory::lemma_read_ok_bound(*memory, self.prg_ptr);
            lemma_peek_depth_bounded(inst);
        }
        if inst & 0xfff000 == 0 {
            let v = match self.stack_access.peek(inst & 0xfff) {
                Ok(v) => v,
                Err(e) => {
                    return Err(e);
                },
            };
            self.stack_access.push(v);
            self.prg_ptr = self.prg_ptr + 1;
            Ok(true)
        } else if inst == OP_PUSH {
            let imm = match memory.read(self.prg_ptr + 1) {
                Ok(v) => v,
                Err(e) => {
                    return Err(e);
                },
            };
            proof {
                crate::memory::lemma_read_ok_bound(*memory, (self.prg_ptr + 1) as u32);
            }
            self.stack_access.push(imm);
            self.prg_ptr = self.prg_ptr + 2;
            Ok(true)
        } else if inst == OP_DROP {
            match self.stack_access.pop() {
                Ok(_) => (),
                Err(e) => {
                    return Err(e);
                },
            };
            self.prg_ptr = self.prg_ptr + 1;
            Ok(true)
        } else if inst == OP_LOAD {
            let a = match self.stack_access.peek(0) {
                Ok(v) => v,
                Err(e) => {
                    return Err(e);
                },
            };
            let v = match memory.read(a) {
                Ok(v) => v,
                Err(e) => {
                    return Err(e);
                },
            };
            match self.stack_access.pop() {
                Ok(_) => (),
                Err(e) => {
                    return Err(e);
                },
            };
            self.stack_access.push(v);
            self.prg_ptr = self.prg_ptr + 1;
            Ok(true)
        } else if inst == OP_STOR {
            if self.stack_access.stack_height() < 2 {
                return Err(VmError::StackUnderflow);
            }
            let a = match self.stack_access.peek(0) {
                Ok(v) => v,
                Err(e) => {
                    return Err(e);
                },
            };
            let v = match self.stack_access.peek(1) {
                Ok(v) => v,
                Err(e) => {
                    return Err(e);
                },
            };
            match memory.write(a, v) {
                Ok(_) => (),
                Err(e) => {
                    return Err(e);
                },
            };
            match self.stack_access.pop() {
                Ok(_) => (),
                Err(e) => {
                    return Err(e);
                },
            };
            match self.stack_access.pop() {
                Ok(_) => (),
                Err(e) => {
                    return Err(e);
                },
            };
            self.prg_ptr = self.prg_ptr + 1;
            Ok(true)
        } else if inst == OP_NEG || inst == OP_NOT {
            let x = match self.stack_access.peek(0) {
                Ok(v) => v,
                Err(e) => {
                    return Err(e);
                },
            };
            match self.stack_access.pop() {
                Ok(_) => (),
                Err(e) => {
                    return Err(e);
                },
            };
            self.stack_access.push(exec_unop(inst, x));
            self.prg_ptr = self.prg_ptr + 1;
            Ok(true)
        } else if inst == OP_ADD || inst == OP_SUB || inst == OP_MUL || inst == OP_UDIV || inst
            == OP_SDIV || inst == OP_MOD || inst == OP_REM || inst == OP_AND || inst == OP_OR
            || inst == OP_XOR || inst == OP_EQ || inst == OP_NE || inst == OP_ULT || inst == OP_SLT
            || inst == OP_UGT || inst == OP_SGT || inst == OP_ULE || inst == OP_SLE || inst
            == OP_UGE || inst == OP_SGE {
            if self.stack_access.stack_height() < 2 {
                return Err(VmError::StackUnderflow);
            }
            let y = match self.stack_access.peek(0) {
                Ok(v) => v,
                Err(e) => {
                    return Err(e);
                },
            };
            let x = match self.stack_access.peek(1) {
                Ok(v) => v,
                Err(e) => {
                    return Err(e);
                },
            };
            if (inst == OP_UDIV || inst == OP_SDIV || inst == OP_MOD || inst == OP_REM) && y == 0 {
                return Err(VmError::DivideByZero { addr: self.prg_ptr });
            }
            match self.stack_access.pop() {
                Ok(_) => (),
                Err(e) => {
                    return Err(e);
                },
            };
            match self.stack_access.pop() {
                Ok(_) => (),
                Err(e) => {
                    return Err(e);
                },
            };
            self.stack_access.push(exec_binop(inst, x, y));
            self.prg_ptr = self.prg_ptr + 1;
            Ok(true)
        } else if inst == OP_RET || inst == OP_JMP || inst == OP_IF || inst == OP_CALL {
            let npop: usize = if inst == OP_RET {
                0
            } else if inst == OP_JMP {
                1
            } else if inst == OP_CALL {
                2
            } else {
                3
            };
            if self.stack_access.stack_height() < npop {
                return Err(VmError::StackUnderflow);
            }
            let mut succ: Vec<u32> = Vec::new();
            if inst == OP_JMP {
                let f = match self.stack_access.peek(0) {
                    Ok(v) => v,
                    Err(e) => {
                        return Err(e);
                    },
                };
                succ.push(f);
            } else if inst == OP_CALL {
                let f1 = match self.stack_access.peek(0) {
                    Ok(v) => v,
                    Err(e) => {
                        return Err(e);
                    },
                };
                let f2 = match self.stack_access.peek(1) {
                    Ok(v) => v,
                    Err(e) => {
                        return Err(e);
                    },
                };
                succ.push(f2);
                succ.push(f1);
            } else if inst == OP_IF {
                let f1 = match self.stack_access.peek(0) {
                    Ok(v) => v,
                    Err(e) => {
                        return Err(e);
                    },
                };
                let f2 = match self.stack_access.peek(1) {
                    Ok(v) => v,
                    Err(e) => {
                        return Err(e);
                    },
                };
                let t = match self.stack_access.peek(2) {
                    Ok(v) => v,
                    Err(e) => {
                        return Err(e);
                    },
                };
                succ.push(
                    if t != 0 {
                        f1
                    } else {
                        f2
                    },
                );
            }
            let ghost spec_succ = (match step(old(self).model(), *old(memory)) {
                Step::End { stack: _, succ: s } => s,
                Step::Fault { err: _ } => succ@,
                Step::Next { pc: _, stack: _, write: _ } => succ@,
            });
            proof {
                assert(succ@ =~= (if inst == OP_RET {
                    Seq::<u32>::empty()
                } else if inst == OP_JMP {
                    seq![old(self).stack_access.stack@.last()]
                } else if inst == OP_CALL {
                    seq![
                        old(self).stack_access.stack@[old(self).stack_access.stack@.len() - 2],
                        old(self).stack_access.stack@.last(),
                    ]
                } else if old(self).stack_access.stack@[old(self).stack_access.stack@.len() - 3]
                    != 0 {
                    seq![old(self).stack_access.stack@.last()]
                } else {
                    seq![old(self).stack_access.stack@[old(self).stack_access.stack@.len() - 2]]
                }));
            }
            let n = succ.len();
            let mut sigs: Vec<u32> = Vec::new();
            let mut i: usize = 0;
            while i < n
                invariant
                    0 <= i <= n,
                    forall|j: int| 0 <= j < i ==> old(memory).read_ok(#[trigger] succ@[j]),
                    sigs@.len() == i,
                    forall|j: int|
                        0 <= j < i ==> #[trigger] sigs@[j] == old(memory).read_spec(succ@[j]),
                decreases n - i,
            {
                match memory.read(succ[i]) {
                    Ok(s) => {
                        sigs.push(s);
                    },
                    Err(e) => {
                        proof {
                            lemma_read_sigs_at(*old(memory), succ@, i as int);
                        }
                        return Err(e);
                    },
                };
                i = i + 1;
            }
            proof {
                lemma_read_sigs_at(*old(memory), succ@, n as int);
                match read_sigs(*old(memory), succ@) {
                    Ok(gs) => {
                        assert(gs =~= sigs@);
                    },
                    Err(_) => {
                        assert(false);
                    },
                }
            }
            let d = sigs_delta(&sigs);
            let h = self.stack_access.stack_height();
            if (h - npop) as i128 + d != self.stack_access.retc as i128 {
                return Err(VmError::ArityMismatch);
            }
            if inst != OP_RET {
                match self.stack_access.pop() {
                    Ok(_) => (),
                    Err(e) => {
                        return Err(e);
                    },
                };
            }
            if inst == OP_CALL || inst == OP_IF {
                match self.stack_access.pop() {
                    Ok(_) => (),
                    Err(e) => {
                        return Err(e);
                    },
                };
            }
            if inst == OP_IF {
                match self.stack_access.pop() {
                    Ok(_) => (),
                    Err(e) => {
                        return Err(e);
                    },
                };
            }
            proof {
                assert(self.stack_access.stack@ =~= old(self).stack_access.stack@.take(
                    old(self).stack_access.stack@.len() - npop,
                ));
            }
            self.func_stack = Some(succ);
            Ok(false)
        } else {
            Err(VmError::UnknownOpcode { addr: self.prg_ptr, op: inst })
        }
    }

    /// Yields the successor list and the value stack once `tick` has
    /// reported the function finished.
    pub fn dispose(self) -> (r: (Vec<u32>, Vec<u32>))
        requires
            self.func_stack is Some,
        ensures
            r.0@ == self.func_stack.unwrap()@,
            r.1@ == self.stack_access.stack@,
    {
        let FuncExecutor { prg_ptr: _, stack_access, func_stack } = self;
        let f = func_stack.unwrap();
        (f, stack_access.dispose())
    }
}

} // verus!
