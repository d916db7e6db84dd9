//! The outer machine: loads a ROM image, validates its header, and
//! drives the pending-function stack. Each pending function pointer is
//! materialised as a `FuncExecutor` over the shared value stack; on
//! exit its successor list is appended so that the last-named successor
//! runs first. The machine halts when no executor is active and no
//! function is pending.

use vstd::prelude::*;

use crate::codec::{all_words, is_word, sig_argc, sig_retc, words_of_bytes};
use crate::errors::VmError;
use crate::func_execute::{entry_fault, entry_state, step, ExecState, FuncExecutor, StackAccess, Step};
use crate::memory::MemoryAccessor;

verus! {

/// Converts a ROM byte stream into 24-bit words, three big-endian
/// bytes each.
pub fn convert_24_bit(bytes: Vec<u8>) -> (r: Vec<u32>)
    requires
        bytes@.len() % 3 == 0,
    ensures
        r@ == words_of_bytes(bytes@),
        all_words(r@),
        r@.len() == bytes@.len() / 3,
{
    proof {
        crate::codec::lemma_words_of_bytes_len(bytes@);
        crate::codec::lemma_words_of_bytes_words(bytes@);
    }
    let n = bytes.len();
    let mut r: Vec<u32> = Vec::new();
    let mut i: usize = 0;
    while i < n
        invariant
            i % 3 == 0,
            0 <= i <= n,
            n == bytes@.len(),
            n % 3 == 0,
            r@ == words_of_bytes(bytes@.take(i as int)),
            r@.len() == i / 3,
        decreases n - i,
    {
        let w = ((bytes[i] as u32) << 16) | ((bytes[i + 1] as u32) << 8) | (bytes[i + 2] as u32);
        proof {
            crate::codec::lemma_words_of_bytes_push3(
                bytes@.take(i as int),
                bytes@[i as int],
                bytes@[i as int + 1],
                bytes@[i as int + 2],
            );
            assert(bytes@.take(i as int + 3) =~= bytes@.take(i as int).push(
                bytes@[i as int],
            ).push(bytes@[i as int + 1]).push(bytes@[i as int + 2]));
        }
        r.push(w);
        i = i + 3;
    }
    proof {
        assert(bytes@.take(n as int) =~= bytes@);
    }
    r
}

/// A word that is a Unicode scalar value: not a surrogate and not
/// beyond the last code point.
pub open spec fn is_scalar_word(v: u32) -> bool {
    v < 0xD800 || (0xE000 <= v && v <= 0x10FFFF)
}

/// The code points of a NUL-terminated header string: everything up to
/// the first zero word or the first word that is no scalar value.
pub open spec fn utf32_prefix(raw: Seq<u32>) -> Seq<u32>
    decreases raw.len(),
{
    if raw.len() == 0 {
        Seq::empty()
    } else if raw[0] == 0 || !is_scalar_word(raw[0]) {
        Seq::empty()
    } else {
        seq![raw[0]] + utf32_prefix(raw.drop_first())
    }
}

/// Characters carrying exactly the given code point words.
pub open spec fn chars_match(cs: Seq<char>, ws: Seq<u32>) -> bool {
    &&& cs.len() == ws.len()
    &&& forall|i: int| 0 <= i < ws.len() ==> (#[trigger] cs[i]) as u32 == ws[i]
}

/// A scan that found only scalar, nonzero words up to `i`, and a
/// terminator there (or the end), has found the whole prefix.
pub proof fn lemma_utf32_prefix_scan(raw: Seq<u32>, i: int)
    requires
        0 <= i <= raw.len(),
        forall|j: int| 0 <= j < i ==> (#[trigger] raw[j]) != 0 && is_scalar_word(raw[j]),
        i < raw.len() ==> (raw[i] == 0 || !is_scalar_word(raw[i])),
    ensures
        utf32_prefix(raw) == raw.take(i),
    decreases raw.len(),
{
    if i == 0 {
        assert(raw.take(0) =~= Seq::<u32>::empty());
    } else {
        let rest = raw.drop_first();
        assert(raw[0] != 0 && is_scalar_word(raw[0]));
        assert forall|j: int| 0 <= j < i - 1 implies (#[trigger] rest[j]) != 0 && is_scalar_word(
            rest[j],
        ) by {
            assert(rest[j] == raw[j + 1]);
        }
        assert(i - 1 < rest.len() ==> (rest[i - 1] == 0 || !is_scalar_word(rest[i - 1])));
        lemma_utf32_prefix_scan(rest, i - 1);
        assert(utf32_prefix(raw) =~= raw.take(i));
    }
}

/// Relies on char::from_u32: it returns `Some` exactly on Unicode
/// scalar values (no surrogate, at most 0x10FFFF), and the returned
/// character carries that very code point.
#[verifier::external_body]
fn char_of_u32(v: u32) -> (r: Option<char>)
    ensures
        r is Some <==> is_scalar_word(v),
        r matches Some(c) ==> c as u32 == v,
{
    char::from_u32(v)
}

/// Decodes a NUL-terminated string of one code point per word: an
/// invalid code point ends the string as a NUL does.
#[verifier::loop_isolation(false)]
pub fn from_utf32(raw: &Vec<u32>) -> (r: Vec<char>)
    ensures
        chars_match(r@, utf32_prefix(raw@)),
{
    let n = raw.len();
    let mut r: Vec<char> = Vec::new();
    let mut i: usize = 0;
    while i < n
        invariant
            0 <= i <= n,
            r@.len() == i,
            forall|j: int|
                0 <= j < i ==> (#[trigger] raw@[j]) != 0 && is_scalar_word(raw@[j]) && (r@[j]
                    as u32) == raw@[j],
        decreases n - i,
    {
        let w = raw[i];
        if w == 0 {
            proof {
                lemma_utf32_prefix_scan(raw@, i as int);
            }
            return r;
        }
        match char_of_u32(w) {
            Some(c) => {
                r.push(c);
            },
            None => {
                proof {
                    lemma_utf32_prefix_scan(raw@, i as int);
                }
                return r;
            },
        }
        i = i + 1;
    }
    proof {
        lemma_utf32_prefix_scan(raw@, n as int);
    }
    r
}

/// Copies the words of `v` from `start` (inclusive) to `end`
/// (exclusive).
pub fn word_slice(v: &Vec<u32>, start: usize, end: usize) -> (r: Vec<u32>)
    requires
        start <= end <= v@.len(),
    ensures
        r@ == v@.subrange(start as int, end as int),
{
    let mut r: Vec<u32> = Vec::new();
    let mut i: usize = start;
    while i < end
        invariant
            start <= i <= end <= v@.len(),
            r@ == v@.subrange(start as int, i as int),
        decreases end - i,
    {
        r.push(v[i]);
        proof {
            assert(v@.subrange(start as int, i as int + 1) =~= v@.subrange(
                start as int,
                i as int,
            ).push(v@[i as int]));
        }
        i = i + 1;
    }
    r
}

/// The interrupt vectors of the header; only the reset vector, the
/// program's entry point, exists.
pub struct InteruptVectors {
    pub reset: u32,
}

/// The fixed 64-word ROM header.
pub struct PLTHeader {
    pub magic: u32,
    pub features: u32,
    pub mapping: u32,
    pub vectors: InteruptVectors,
    pub title: Vec<char>,
    pub developer: Vec<char>,
    pub publisher: Vec<char>,
}

impl PLTHeader {
    /// Reads the fixed-offset header fields out of the first 64 words.
    pub fn create(raw: &Vec<u32>) -> (r: PLTHeader)
        requires
            raw@.len() >= 0x40,
        ensures
            r.magic == raw@[0],
            r.features == raw@[1],
            r.mapping == raw@[2],
            r.vectors.reset == raw@[0xf],
            chars_match(r.title@, utf32_prefix(raw@.subrange(0x10, 0x20))),
            chars_match(r.developer@, utf32_prefix(raw@.subrange(0x20, 0x30))),
            chars_match(r.publisher@, utf32_prefix(raw@.subrange(0x30, 0x40))),
    {
        PLTHeader {
            magic: raw[0x0],
            features: raw[0x1],
            mapping: raw[0x2],
            vectors: InteruptVectors { reset: raw[0xf] },
            title: from_utf32(&word_slice(raw, 0x10, 0x20)),
            developer: from_utf32(&word_slice(raw, 0x20, 0x30)),
            publisher: from_utf32(&word_slice(raw, 0x30, 0x40)),
        }
    }
}

/// Between ticks the machine either holds the value stack itself or
/// has lent it to the active executor.
pub enum Func {
    Stack(Vec<u32>),
    Executor(FuncExecutor),
}

/// Why loading a word image fails, if it does: too little room for the
/// header, more words than the address space, or a header field other
/// than the machine demands.
pub open spec fn load_fault(ws: Seq<u32>) -> Option<VmError> {
    if ws.len() < 0x40 {
        Some(VmError::RomTooShort)
    } else if ws.len() > 0x1000000 {
        Some(VmError::RomTooLarge)
    } else if ws[0] != 0x504c54 {
        Some(VmError::BadMagic { magic: ws[0] })
    } else if ws[1] != 0 {
        Some(VmError::BadFeatures { features: ws[1] })
    } else if ws[2] != 0 {
        Some(VmError::BadMapping { mapping: ws[2] })
    } else {
        None
    }
}

pub struct PlutoVM {
    pub memory: MemoryAccessor,
    pub header: PLTHeader,
    pub func: Func,
    pub function_stack: Vec<u32>,
}

impl PlutoVM {
    /// The memory map is well formed, every pending function pointer
    /// and stack value is a word, and an active executor is mid-body.
    pub open spec fn wf(&self) -> bool {
        &&& self.memory.wf()
        &&& all_words(self.function_stack@)
        &&& match self.func {
            Func::Stack(s) => all_words(s@),
            Func::Executor(e) => e.wf() && e.func_stack is None,
        }
    }

    /// Loads a ROM byte stream: decodes it into words, validates the
    /// header, maps the memory, and schedules the reset vector as the
    /// single pending function over an empty value stack.
    pub fn new(bytes: Vec<u8>) -> (r: Result<PlutoVM, VmError>)
        ensures
            match r {
                Ok(vm) => {
                    &&& bytes@.len() % 3 == 0
                    &&& load_fault(words_of_bytes(bytes@)) is None
                    &&& vm.wf()
                    &&& vm.memory.mem_blocks@.len() == 1
                    &&& vm.memory.mem_blocks@[0].contents@ == words_of_bytes(bytes@)
                    &&& vm.memory.mem_blocks@[0].offset == 0
                    &&& vm.memory.mem_blocks@[0].readable
                    &&& !vm.memory.mem_blocks@[0].writeable
                    &&& vm.header.magic == 0x504c54
                    &&& vm.header.features == 0
                    &&& vm.header.mapping == 0
                    &&& vm.header.vectors.reset == words_of_bytes(bytes@)[0xf]
                    &&& chars_match(
                        vm.header.title@,
                        utf32_prefix(words_of_bytes(bytes@).subrange(0x10, 0x20)),
                    )
                    &&& chars_match(
                        vm.header.developer@,
                        utf32_prefix(words_of_bytes(bytes@).subrange(0x20, 0x30)),
                    )
                    &&& chars_match(
                        vm.header.publisher@,
                        utf32_prefix(words_of_bytes(bytes@).subrange(0x30, 0x40)),
                    )
                    &&& vm.function_stack@ == seq![words_of_bytes(bytes@)[0xf]]
                    &&& vm.func matches Func::Stack(s) && s@ == Seq::<u32>::empty()
                },
                Err(e) => {
                    if bytes@.len() % 3 != 0 {
                        e == VmError::RomMisaligned
                    } else {
                        load_fault(words_of_bytes(bytes@)) == Some(e)
                    }
                },
            },
    {
        if bytes.len() % 3 != 0 {
            return Err(VmError::RomMisaligned);
        }
        let rom = convert_24_bit(bytes);
        if rom.len() < 0x40 {
            return Err(VmError::RomTooShort);
        }
        if rom.len() > 0x1000000 {
            return Err(VmError::RomTooLarge);
        }
        let header = PLTHeader::create(&rom);
        if header.magic != 0x504c54 {
            return Err(VmError::BadMagic { magic: header.magic });
        }
        if header.features != 0 {
            return Err(VmError::BadFeatures { features: header.features });
        }
        let reset = header.vectors.reset;
        let memory = match MemoryAccessor::new(header.mapping, rom) {
            Ok(m) => m,
            Err(e) => {
                return Err(e);
            },
        };
        let mut function_stack: Vec<u32> = Vec::new();
        function_stack.push(reset);
        Ok(PlutoVM { memory, header, func: Func::Stack(Vec::new()), function_stack })
    }

    /// Advances the machine by one move, as `tick_rel` prescribes: an
    /// idle machine with nothing pending halts; one with a pending
    /// function enters it and executes its first instruction in the
    /// same call; one with an active executor executes one
    /// instruction. Every move that answers `true` has thus run
    /// exactly one instruction, and the successor list and value stack
    /// come back the moment a terminator ran.
    pub fn tick(&mut self) -> (r: Result<bool, VmError>)
        requires
            old(self).wf(),
        ensures
            final(self).wf(),
            tick_rel(*old(self), *final(self), r),
    {
        let mut cur = Func::Stack(Vec::new());
        core::mem::swap(&mut cur, &mut self.func);
        let mut e: FuncExecutor = (match cur {
            Func::Stack(stack) => {
                let func_ptr = (match self.function_stack.pop() {
                    Some(p) => p,
                    None => {
                        self.func = Func::Stack(stack);
                        return Ok(false);
                    },
                });
                // validate the entry first, so that a fault leaves the
                // machine exactly described: pointer popped, stack kept
                let func_sig = (match self.memory.read(func_ptr) {
                    Ok(sig) => sig,
                    Err(er) => {
                        self.func = Func::Stack(stack);
                        return Err(er);
                    },
                });
                let (argc, _retc) = StackAccess::decompose_sig(func_sig);
                if argc as usize > stack.len() {
                    self.func = Func::Stack(stack);
                    return Err(VmError::NotEnoughArgs);
                }
                match FuncExecutor::new(&self.memory, func_ptr, stack) {
                    Ok(e0) => e0,
                    Err(er) => {
                        // the entry was validated above: this cannot be
                        return Err(er);
                    },
                }
            },
            Func::Executor(e0) => e0,
        });
        let ghost es = e.model();
        let ghost m0 = self.memory;
        match e.tick(&mut self.memory) {
            Ok(true) => {
                proof {
                    match step(es, m0) {
                        Step::Next { pc, stack, write } => {
                            assert(e.model() =~= (ExecState {
                                pc,
                                stack,
                                barrier: es.barrier,
                                retc: es.retc,
                            }));
                        },
                        Step::Fault { err } => {},
                        Step::End { stack, succ } => {},
                    }
                }
                self.func = Func::Executor(e);
                Ok(true)
            },
            Ok(false) => {
                let (mut fs, vs) = e.dispose();
                self.function_stack.append(&mut fs);
                self.func = Func::Stack(vs);
                Ok(true)
            },
            Err(er) => {
                self.func = Func::Executor(e);
                Err(er)
            },
        }
    }

    /// Runs the machine for at most `max_ticks` moves and returns what
    /// `runs_to` prescribes for that budget: `Ok(Some(vals))` exactly
    /// when the machine halted (no executor active, nothing pending)
    /// with residual value stack `vals`, `Err` exactly the first fatal
    /// condition, and `Ok(None)` exactly when the budget ran out
    /// first. A caller that wants an unbounded run keeps calling
    /// `tick` itself.
    pub fn start(self, max_ticks: u64) -> (r: Result<Option<Vec<u32>>, VmError>)
        requires
            self.wf(),
        ensures
            runs_to(self, max_ticks as nat, start_outcome(r)),
            r matches Ok(Some(v)) ==> all_words(v@),
    {
        let ghost vm0 = self;
        let mut vm = self;
        let mut t: u64 = 0;
        while t < max_ticks
            invariant
                vm0 == self,
                vm.wf(),
                t <= max_ticks,
                forall|r2: Result<Option<Seq<u32>>, VmError>|
                    runs_to(vm, (max_ticks - t) as nat, r2) ==> #[trigger] runs_to(
                        vm0,
                        max_ticks as nat,
                        r2,
                    ),
            decreases max_ticks - t,
        {
            let ghost pre = vm;
            match vm.tick() {
                Ok(true) => {
                    proof {
                        assert forall|r2: Result<Option<Seq<u32>>, VmError>|
                            runs_to(vm, (max_ticks - t - 1) as nat, r2) implies #[trigger] runs_to(
                            vm0,
                            max_ticks as nat,
                            r2,
                        ) by {
                            assert(tick_rel(pre, vm, Ok::<bool, VmError>(true)));
                            assert(runs_to(pre, (max_ticks - t) as nat, r2));
                        }
                    }
                },
                Ok(false) => {
                    let ghost post = vm;
                    proof {
                        assert(tick_rel(pre, post, Ok::<bool, VmError>(false)));
                    }
                    match vm.func {
                        Func::Stack(vals) => {
                            proof {
                                assert(runs_to(
                                    pre,
                                    (max_ticks - t) as nat,
                                    Ok::<Option<Seq<u32>>, VmError>(Some(vals@)),
                                ));
                                assert(runs_to(
                                    vm0,
                                    max_ticks as nat,
                                    Ok::<Option<Seq<u32>>, VmError>(Some(vals@)),
                                ));
                            }
                            return Ok(Some(vals));
                        },
                        Func::Executor(_) => {
                            // a halting tick always leaves the machine idle
                            proof {
                                assert(false);
                            }
                            return Ok(None);
                        },
                    }
                },
                Err(e) => {
                    proof {
                        assert(tick_rel(pre, vm, Err::<bool, VmError>(e)));
                        assert(runs_to(pre, (max_ticks - t) as nat, Err::<
                            Option<Seq<u32>>,
                            VmError,
                        >(e)));
                        assert(runs_to(vm0, max_ticks as nat, Err::<Option<Seq<u32>>, VmError>(e)));
                    }
                    return Err(e);
                },
            }
            t = t + 1;
        }
        Ok(None)
    }
}

/// What one executed instruction, stepping the activation `es` over
/// memory `m0` with pending functions `pending`, leaves of the
/// machine: on a fault the error and the machine as it stood; while
/// the function continues, the advanced executor (and the one store a
/// `stor` made); when a terminator ran, the value stack back in the
/// machine's hands and the successors appended, last to run first.
pub open spec fn ran_instruction(
    es: ExecState,
    m0: MemoryAccessor,
    pending: Seq<u32>,
    post: PlutoVM,
    r: Result<bool, VmError>,
) -> bool {
    match step(es, m0) {
        Step::Fault { err } => {
            &&& r == Err::<bool, VmError>(err)
            &&& post.memory == m0
            &&& post.function_stack@ == pending
            &&& post.func matches Func::Executor(e2) && e2.model() == es && e2.func_stack is None
        },
        Step::Next { pc, stack, write } => {
            &&& r == Ok::<bool, VmError>(true)
            &&& post.function_stack@ == pending
            &&& (post.func matches Func::Executor(e2) && e2.model() == (ExecState {
                pc,
                stack,
                barrier: es.barrier,
                retc: es.retc,
            }) && e2.func_stack is None)
            &&& match write {
                Some(av) => MemoryAccessor::wrote(m0, post.memory, av.0, av.1),
                None => post.memory == m0,
            }
        },
        Step::End { stack, succ } => {
            &&& r == Ok::<bool, VmError>(true)
            &&& post.memory == m0
            &&& post.function_stack@ == pending + succ
            &&& post.func matches Func::Stack(s) && s@ == stack
        },
    }
}

/// What one call of `tick` does, as a relation between the machine
/// before, the machine after, and the result: halt when idle with
/// nothing pending; report an entry fault with the machine described;
/// otherwise run exactly one instruction of the entered or active
/// function, as `ran_instruction` says.
pub open spec fn tick_rel(pre: PlutoVM, post: PlutoVM, r: Result<bool, VmError>) -> bool {
    &&& post.header == pre.header
    &&& match pre.func {
        Func::Stack(stack) => {
            if pre.function_stack@.len() == 0 {
                &&& r == Ok::<bool, VmError>(false)
                &&& post.memory == pre.memory
                &&& post.function_stack@ == pre.function_stack@
                &&& post.func matches Func::Stack(s2) && s2@ == stack@
            } else {
                let fp = pre.function_stack@.last();
                match entry_fault(pre.memory, fp, stack@) {
                    Some(er) => {
                        &&& r == Err::<bool, VmError>(er)
                        &&& post.memory == pre.memory
                        &&& post.function_stack@ == pre.function_stack@.drop_last()
                        &&& post.func matches Func::Stack(s2) && s2@ == stack@
                    },
                    None => ran_instruction(
                        entry_state(pre.memory, fp, stack@),
                        pre.memory,
                        pre.function_stack@.drop_last(),
                        post,
                        r,
                    ),
                }
            }
        },
        Func::Executor(e) => ran_instruction(e.model(), pre.memory, pre.function_stack@, post, r),
    }
}

/// What running the machine with a tick budget yields: with no budget
/// only exhaustion; otherwise the outcome one tick and the rest of
/// the budget reach — continuation, a halt with the residual value
/// stack, or the first fatal condition.
pub open spec fn runs_to(pre: PlutoVM, fuel: nat, r: Result<Option<Seq<u32>>, VmError>) -> bool
    decreases fuel,
{
    if fuel == 0 {
        r == Ok::<Option<Seq<u32>>, VmError>(None)
    } else {
        ||| (exists|mid: PlutoVM|
            #[trigger] tick_rel(pre, mid, Ok::<bool, VmError>(true)) && runs_to(
                mid,
                (fuel - 1) as nat,
                r,
            ))
        ||| ((exists|mid: PlutoVM| #[trigger] tick_rel(pre, mid, Ok::<bool, VmError>(false))) && (
        pre.func matches Func::Stack(s) && r == Ok::<Option<Seq<u32>>, VmError>(Some(s@))))
        ||| (exists|mid: PlutoVM, e: VmError|
            #[trigger] tick_rel(pre, mid, Err::<bool, VmError>(e)) && r == Err::<
                Option<Seq<u32>>,
                VmError,
            >(e))
    }
}

/// The ghost reading of `start`'s result: the residual value stack as
/// a sequence.
pub open spec fn start_outcome(r: Result<Option<Vec<u32>>, VmError>) -> Result<
    Option<Seq<u32>>,
    VmError,
> {
    match r {
        Ok(opt) => match opt {
            Some(v) => Ok(Some(v@)),
            None => Ok(None),
        },
        Err(e) => Err(e),
    }
}

} // verus!
