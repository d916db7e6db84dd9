//! The assembler: statements in, a packed word image out. Emission is
//! single-pass with a patch list per label; after the last statement
//! every recorded use of a label is overwritten with its resolved
//! address. The whole pipeline is a function of the input text alone:
//! the ROM depends on nothing else.

use vstd::prelude::*;

use crate::codec::{bytes_of_words, lemma_bytes_of_words_push, pack_sig};
use crate::errors::AsmError;
use crate::grammar::next_spec;
use crate::parser::{
    opcode_of, Address, AddressModel, Function, Instruction, InstructionModel, Statement,
    StatementModel,
};

verus! {

/// One label's record: its address once defined, and every output
/// position waiting to be patched with it.
pub struct Label {
    pub address: Option<u32>,
    pub repl_address: Vec<u32>,
}

impl Label {
    pub fn new() -> (r: Label)
        ensures
            r.address is None,
            r.repl_address@ == Seq::<u32>::empty(),
    {
        Label { address: None, repl_address: Vec::new() }
    }
}

pub ghost struct LabelModel {
    pub address: Option<u32>,
    pub uses: Seq<u32>,
}

pub ghost struct AsmModel {
    pub data: Seq<u32>,
    pub labels: Seq<(Seq<char>, LabelModel)>,
}

/// The empty assembler state.
pub open spec fn asm_new() -> AsmModel {
    AsmModel { data: Seq::empty(), labels: Seq::empty() }
}

/// The first record carrying the given label name.
pub open spec fn find_label_from(
    labels: Seq<(Seq<char>, LabelModel)>,
    name: Seq<char>,
    k: int,
) -> Option<int>
    decreases labels.len() - k,
{
    if k < 0 || k >= labels.len() {
        None
    } else if labels[k].0 == name {
        Some(k)
    } else {
        find_label_from(labels, name, k + 1)
    }
}

pub open spec fn find_label(labels: Seq<(Seq<char>, LabelModel)>, name: Seq<char>) -> Option<
    int,
> {
    find_label_from(labels, name, 0)
}

/// A found record lies in range and carries the name; a miss means no
/// record does.
pub proof fn lemma_find_label_props(
    labels: Seq<(Seq<char>, LabelModel)>,
    name: Seq<char>,
    k: int,
)
    requires
        0 <= k <= labels.len(),
    ensures
        match find_label_from(labels, name, k) {
            Some(x) => k <= x < labels.len() && labels[x].0 == name,
            None => forall|j: int| k <= j < labels.len() ==> (#[trigger] labels[j]).0 != name,
        },
    decreases labels.len() - k,
{
    if k < labels.len() && labels[k].0 != name {
        lemma_find_label_props(labels, name, k + 1);
    }
}

/// Appending an address operand: a literal is emitted as it stands; a
/// label reference emits a zero placeholder and records the position
/// in the label's patch list.
pub open spec fn add_address_spec(m: AsmModel, a: AddressModel) -> Result<AsmModel, AsmError> {
    if m.data.len() >= 0x1000000 {
        Err(AsmError::OutputTooLarge)
    } else {
        match a {
            AddressModel::Const(n) => Ok(AsmModel { data: m.data.push(n), labels: m.labels }),
            AddressModel::Label(name) => {
                let pos = m.data.len() as u32;
                let labels2 = match find_label(m.labels, name) {
                    Some(k) => m.labels.update(
                        k,
                        (
                            m.labels[k].0,
                            LabelModel {
                                address: m.labels[k].1.address,
                                uses: m.labels[k].1.uses.push(pos),
                            },
                        ),
                    ),
                    None => m.labels.push((name, LabelModel { address: None, uses: seq![pos] })),
                };
                Ok(AsmModel { data: m.data.push(0), labels: labels2 })
            },
        }
    }
}

/// Appending a function body: each instruction's opcode word, with a
/// push's immediate following it.
pub open spec fn emit_block_spec(m: AsmModel, block: Seq<InstructionModel>) -> Result<
    AsmModel,
    AsmError,
>
    decreases block.len(),
{
    if block.len() == 0 {
        Ok(m)
    } else if m.data.len() >= 0x1000000 {
        Err(AsmError::OutputTooLarge)
    } else {
        let m1 = AsmModel { data: m.data.push(opcode_of(block[0])), labels: m.labels };
        match block[0] {
            InstructionModel::Push(a) => match add_address_spec(m1, a) {
                Ok(m2) => emit_block_spec(m2, block.drop_first()),
                Err(e) => Err(e),
            },
            _ => emit_block_spec(m1, block.drop_first()),
        }
    }
}

/// The words one instruction emits: its opcode, and for a push also
/// the immediate.
pub open spec fn inst_cost(inst: InstructionModel) -> nat {
    match inst {
        InstructionModel::Push(_) => 2,
        _ => 1,
    }
}

/// The words a whole body emits.
pub open spec fn emitted_len(block: Seq<InstructionModel>) -> nat
    decreases block.len(),
{
    if block.len() == 0 {
        0
    } else {
        inst_cost(block[0]) + emitted_len(block.drop_first())
    }
}

pub proof fn lemma_emitted_len_push(block: Seq<InstructionModel>, inst: InstructionModel)
    ensures
        emitted_len(block.push(inst)) == emitted_len(block) + inst_cost(inst),
    decreases block.len(),
{
    assert(block.push(inst)[0] == if block.len() == 0 {
        inst
    } else {
        block[0]
    });
    if block.len() == 0 {
        assert(block.push(inst).drop_first() =~= Seq::<InstructionModel>::empty());
        assert(emitted_len(block.push(inst)) == inst_cost(inst) + emitted_len(
            Seq::<InstructionModel>::empty(),
        ));
    } else {
        assert(block.push(inst).drop_first() =~= block.drop_first().push(inst));
        lemma_emitted_len_push(block.drop_first(), inst);
        assert(emitted_len(block.push(inst)) == inst_cost(block[0]) + emitted_len(
            block.drop_first().push(inst),
        ));
    }
}

/// A prefix of a body emits no more words than the whole body.
pub proof fn lemma_emitted_len_monotone(block: Seq<InstructionModel>, i: int)
    requires
        0 <= i <= block.len(),
    ensures
        emitted_len(block.take(i)) <= emitted_len(block),
    decreases block.len(),
{
    if i == 0 {
        assert(block.take(0) =~= Seq::<InstructionModel>::empty());
    } else {
        assert(block.take(i)[0] == block[0]);
        assert(block.take(i).drop_first() =~= block.drop_first().take(i - 1));
        lemma_emitted_len_monotone(block.drop_first(), i - 1);
    }
}

/// Emitting a body succeeds exactly when its words fit the address
/// space, and then grows the data by exactly that count; otherwise the
/// output would be too large.
pub proof fn lemma_emit_block_len(m: AsmModel, block: Seq<InstructionModel>)
    requires
        m.data.len() <= 0x1000000,
    ensures
        m.data.len() + emitted_len(block) <= 0x1000000 ==> (match emit_block_spec(m, block) {
            Ok(m2) => m2.data.len() == m.data.len() + emitted_len(block),
            Err(_) => false,
        }),
        m.data.len() + emitted_len(block) > 0x1000000 ==> emit_block_spec(m, block) == Err::<
            AsmModel,
            AsmError,
        >(AsmError::OutputTooLarge),
    decreases block.len(),
{
    if block.len() != 0 && m.data.len() < 0x1000000 {
        let m1 = AsmModel { data: m.data.push(opcode_of(block[0])), labels: m.labels };
        match block[0] {
            InstructionModel::Push(a) => {
                match add_address_spec(m1, a) {
                    Ok(m2) => {
                        assert(m2.data.len() == m1.data.len() + 1);
                        lemma_emit_block_len(m2, block.drop_first());
                    },
                    Err(_) => {
                        lemma_emit_block_len(m1, block.drop_first());
                    },
                }
            },
            _ => {
                lemma_emit_block_len(m1, block.drop_first());
            },
        }
    }
}

/// Appending one statement to the output.
pub open spec fn add_statement_spec(m: AsmModel, st: StatementModel) -> Result<
    AsmModel,
    AsmError,
> {
    match st {
        StatementModel::Function(f) => {
            if m.data.len() >= 0x1000000 {
                Err(AsmError::OutputTooLarge)
            } else {
                emit_block_spec(
                    AsmModel { data: m.data.push(pack_sig(f.args, f.ret)), labels: m.labels },
                    f.block,
                )
            }
        },
        StatementModel::Skip(n) => {
            if m.data.len() + n > 0x1000000 {
                Err(AsmError::OutputTooLarge)
            } else {
                Ok(AsmModel { data: m.data + Seq::new(n as nat, |q: int| 0u32), labels: m.labels })
            }
        },
        StatementModel::SkipTo(addr) => {
            if (addr as int) < m.data.len() {
                Err(AsmError::SkipToBackwards)
            } else if addr - m.data.len() > 0xffffff {
                Err(AsmError::SkipToTooFar)
            } else if addr > 0x1000000 {
                Err(AsmError::OutputTooLarge)
            } else {
                Ok(
                    AsmModel {
                        data: m.data + Seq::new((addr - m.data.len()) as nat, |q: int| 0u32),
                        labels: m.labels,
                    },
                )
            }
        },
        StatementModel::Word(a) => add_address_spec(m, a),
        StatementModel::Label(name) => {
            if m.data.len() > 0xffffff {
                Err(AsmError::OutputTooLarge)
            } else {
                let pos = m.data.len() as u32;
                match find_label(m.labels, name) {
                    Some(k) => {
                        if m.labels[k].1.address is Some {
                            Err(AsmError::DuplicateLabel)
                        } else {
                            Ok(
                                AsmModel {
                                    data: m.data,
                                    labels: m.labels.update(
                                        k,
                                        (
                                            m.labels[k].0,
                                            LabelModel {
                                                address: Some(pos),
                                                uses: m.labels[k].1.uses,
                                            },
                                        ),
                                    ),
                                },
                            )
                        }
                    },
                    None => Ok(
                        AsmModel {
                            data: m.data,
                            labels: m.labels.push(
                                (name, LabelModel { address: Some(pos), uses: Seq::empty() }),
                            ),
                        },
                    ),
                }
            }
        },
    }
}

/// The data with one label's address written into each of its
/// recorded positions.
pub open spec fn patch_uses(data: Seq<u32>, uses: Seq<u32>, addr: u32) -> Seq<u32>
    decreases uses.len(),
{
    if uses.len() == 0 {
        data
    } else {
        patch_uses(data.update(uses[0] as int, addr), uses.drop_first(), addr)
    }
}

/// The data after every label's patch list has been applied; a label
/// still lacking an address is the input's fault.
pub open spec fn resolve_spec(data: Seq<u32>, labels: Seq<(Seq<char>, LabelModel)>, k: int) -> Result<
    Seq<u32>,
    AsmError,
>
    decreases labels.len() - k,
{
    if k < 0 || k >= labels.len() {
        Ok(data)
    } else {
        match labels[k].1.address {
            None => Err(AsmError::UnresolvedLabel),
            Some(a) => resolve_spec(patch_uses(data, labels[k].1.uses, a), labels, k + 1),
        }
    }
}

/// The assembler state after every statement of the text, read from
/// position `i` on, has been appended.
pub open spec fn load_spec(text: Seq<u8>, i: int, m: AsmModel) -> Result<AsmModel, AsmError>
    decreases text.len() - i,
{
    match next_spec(text, i) {
        Err(e) => Err(e),
        Ok(opt) => match opt {
            None => Ok(m),
            Some(p) => {
                if i < p.1 <= text.len() {
                    match add_statement_spec(m, p.0) {
                        Ok(m2) => load_spec(text, p.1, m2),
                        Err(er) => Err(er),
                    }
                } else {
                    Err(AsmError::Parse { pos: i as usize })
                }
            },
        },
    }
}

/// The words of the ROM as a function of the assembly text alone:
/// parse and append every statement, then resolve every label.
pub open spec fn assemble_spec(text: Seq<u8>) -> Result<Seq<u32>, AsmError> {
    match load_spec(text, 0, asm_new()) {
        Err(e) => Err(e),
        Ok(m) => resolve_spec(m.data, m.labels, 0),
    }
}

/// The assembler: the words emitted so far and the label records.
pub struct Assembler {
    pub data: Vec<u32>,
    pub labels: Vec<(String, Label)>,
}

impl View for Assembler {
    type V = AsmModel;

    open spec fn view(&self) -> AsmModel {
        AsmModel {
            data: self.data@,
            labels: self.labels@.map_values(
                |p: (String, Label)|
                    (p.0@, LabelModel { address: p.1.address, uses: p.1.repl_address@ }),
            ),
        }
    }
}

impl Assembler {
    /// Every recorded patch position points into the emitted data, and
    /// the data never outgrows the address space.
    pub open spec fn wf(&self) -> bool {
        &&& self.data@.len() <= 0x1000000
        &&& forall|k: int, j: int|
            0 <= k < self.labels@.len() && 0 <= j < self.labels@[k].1.repl_address@.len()
                ==> (#[trigger] self.labels@[k].1.repl_address@[j]) < self.data@.len()
    }

    pub fn new() -> (r: Assembler)
        ensures
            r@ == asm_new(),
            r.wf(),
    {
        let r = Assembler { data: Vec::new(), labels: Vec::new() };
        proof {
            assert(r@.labels =~= Seq::<(Seq<char>, LabelModel)>::empty());
        }
        r
    }

    /// The first record carrying the name, as the patch pass will see
    /// it.
    #[verifier::loop_isolation(false)]
    fn find(&self, name: &String) -> (r: Option<usize>)
        ensures
            match r {
                Some(k) => find_label(self@.labels, name@) == Some(k as int) && k
                    < self.labels@.len(),
                None => find_label(self@.labels, name@) is None,
            },
    {
        let n = self.labels.len();
        let mut k: usize = 0;
        while k < n
            invariant
                0 <= k <= n,
                n == self.labels@.len(),
                find_label(self@.labels, name@) == find_label_from(self@.labels, name@, k as int),
            decreases n - k,
        {
            if self.labels[k].0.eq(name) {
                return Some(k);
            }
            k = k + 1;
        }
        None
    }

    /// Emits an address operand, recording a label use for patching.
    pub fn add_address(&mut self, address: Address) -> (r: Result<(), AsmError>)
        requires
            old(self).wf(),
        ensures
            final(self).wf(),
            match r {
                Ok(()) => add_address_spec(old(self)@, address@) == Ok::<AsmModel, AsmError>(
                    final(self)@,
                ),
                Err(e) => add_address_spec(old(self)@, address@) == Err::<AsmModel, AsmError>(e)
                    && *final(self) == *old(self),
            },
    {
        if self.data.len() >= 0x1000000 {
            return Err(AsmError::OutputTooLarge);
        }
        match address {
            Address::Const(n) => {
                self.data.push(n);
                Ok(())
            },
            Address::Label(name) => {
                let pos = self.data.len() as u32;
                match self.find(&name) {
                    Some(k) => {
                        let mut entry = self.labels.remove(k);
                        entry.1.repl_address.push(pos);
                        self.labels.insert(k, entry);
                        proof {
                            assert(self.labels@ =~= old(self).labels@.update(
                                k as int,
                                self.labels@[k as int],
                            ));
                            assert(self@.labels =~= old(self)@.labels.update(
                                k as int,
                                (
                                    old(self)@.labels[k as int].0,
                                    LabelModel {
                                        address: old(self)@.labels[k as int].1.address,
                                        uses: old(self)@.labels[k as int].1.uses.push(pos),
                                    },
                                ),
                            ));
                        }
                        self.data.push(0);
                        Ok(())
                    },
                    None => {
                        let mut uses: Vec<u32> = Vec::new();
                        uses.push(pos);
                        self.labels.push((name, Label { address: None, repl_address: uses }));
                        proof {
                            assert(self@.labels =~= old(self)@.labels.push(
                                (
                                    self.labels@.last().0@,
                                    LabelModel { address: None, uses: seq![pos] },
                                ),
                            ));
                        }
                        self.data.push(0);
                        Ok(())
                    },
                }
            },
        }
    }

    /// Emits one statement.
    #[verifier::loop_isolation(false)]
    pub fn add_statement(&mut self, statement: Statement) -> (r: Result<(), AsmError>)
        requires
            old(self).wf(),
        ensures
            final(self).wf(),
            match r {
                Ok(()) => add_statement_spec(old(self)@, statement@) == Ok::<AsmModel, AsmError>(
                    final(self)@,
                ),
                Err(e) => {
                    &&& add_statement_spec(old(self)@, statement@) == Err::<AsmModel, AsmError>(e)
                    &&& *final(self) == *old(self)
                },
            },
    {
        match statement {
            Statement::Function(func) => {
                let Function { args, ret, block } = func;
                let ghost whole = block@.map_values(|inst: Instruction| inst@);
                // count the words the function needs, so that a body
                // beyond the address space is refused before anything
                // is emitted
                let mut needed: usize = 1;
                let mut ci: usize = 0;
                while ci < block.len()
                    invariant
                        0 <= ci <= block@.len(),
                        needed == 1 + emitted_len(whole.take(ci as int)),
                        needed <= 0x1000000,
                    decreases block@.len() - ci,
                {
                    let cost: usize = (match &block[ci] {
                        Instruction::Push(_) => 2,
                        _ => 1,
                    });
                    proof {
                        assert(whole.take(ci as int + 1) =~= whole.take(ci as int).push(
                            whole[ci as int],
                        ));
                        lemma_emitted_len_push(whole.take(ci as int), whole[ci as int]);
                        assert(cost == inst_cost(whole[ci as int]));
                    }
                    needed = needed + cost;
                    ci = ci + 1;
                    if needed > 0x1000000 {
                        proof {
                            lemma_emitted_len_monotone(whole, ci as int);
                            if old(self)@.data.len() < 0x1000000 {
                                lemma_emit_block_len(
                                    AsmModel {
                                        data: old(self)@.data.push(pack_sig(args, ret)),
                                        labels: old(self)@.labels,
                                    },
                                    whole,
                                );
                            }
                        }
                        return Err(AsmError::OutputTooLarge);
                    }
                }
                proof {
                    assert(whole.take(block@.len() as int) =~= whole);
                }
                if needed > 0x1000000 - self.data.len() {
                    proof {
                        if old(self)@.data.len() < 0x1000000 {
                            lemma_emit_block_len(
                                AsmModel {
                                    data: old(self)@.data.push(pack_sig(args, ret)),
                                    labels: old(self)@.labels,
                                },
                                whole,
                            );
                        }
                    }
                    return Err(AsmError::OutputTooLarge);
                }
                self.data.push(((args & 0xfff) << 12) | (ret & 0xfff));
                let ghost m1 = self@;
                proof {
                    lemma_emit_block_len(m1, whole);
                }
                let mut blk = block;
                loop
                    invariant
                        self.wf(),
                        self@.data.len() + emitted_len(
                            blk@.map_values(|inst: Instruction| inst@),
                        ) <= 0x1000000,
                        emit_block_spec(m1, whole) == emit_block_spec(
                            self@,
                            blk@.map_values(|inst: Instruction| inst@),
                        ),
                    decreases blk@.len(),
                {
                    if blk.len() == 0 {
                        proof {
                            assert(blk@.map_values(|inst: Instruction| inst@)
                                =~= Seq::<InstructionModel>::empty());
                        }
                        return Ok(());
                    }
                    let ghost prev = blk@.map_values(|inst: Instruction| inst@);
                    let inst = blk.remove(0);
                    proof {
                        assert(blk@.map_values(|inst2: Instruction| inst2@)
                            =~= prev.drop_first());
                        assert(inst@ == prev[0]);
                    }
                    let op = inst.get_opcode();
                    self.data.push(op);
                    if let Instruction::Push(a) = inst {
                        match self.add_address(a) {
                            Ok(()) => (),
                            Err(e) => {
                                // the body was counted: the emission fits
                                return Err(e);
                            },
                        }
                    }
                }
            },
            Statement::Skip(num) => {
                if num as usize > 0x1000000 - self.data.len() {
                    return Err(AsmError::OutputTooLarge);
                }
                let ghost target = old(self)@.data + Seq::new(num as nat, |q: int| 0u32);
                let mut c: u32 = 0;
                while c < num
                    invariant
                        self.wf(),
                        0 <= c <= num,
                        self.labels@ == old(self).labels@,
                        self.data@ == old(self).data@ + Seq::new(c as nat, |q: int| 0u32),
                        self.data@.len() == old(self).data@.len() + c,
                        old(self).data@.len() + num <= 0x1000000,
                    decreases num - c,
                {
                    self.data.push(0);
                    proof {
                        assert(self.data@ =~= old(self).data@ + Seq::new(
                            (c + 1) as nat,
                            |q: int| 0u32,
                        ));
                    }
                    c = c + 1;
                }
                Ok(())
            },
            Statement::SkipTo(address) => {
                if (address as usize) < self.data.len() {
                    return Err(AsmError::SkipToBackwards);
                }
                if address as usize - self.data.len() > 0xffffff {
                    return Err(AsmError::SkipToTooFar);
                }
                if address > 0x1000000 {
                    return Err(AsmError::OutputTooLarge);
                }
                let num = address as usize - self.data.len();
                let ghost base = old(self).data@;
                let mut c: usize = 0;
                while c < num
                    invariant
                        self.wf(),
                        0 <= c <= num,
                        self.labels@ == old(self).labels@,
                        self.data@ == base + Seq::new(c as nat, |q: int| 0u32),
                        self.data@.len() == base.len() + c,
                        base.len() + num <= 0x1000000,
                    decreases num - c,
                {
                    self.data.push(0);
                    proof {
                        assert(self.data@ =~= base + Seq::new((c + 1) as nat, |q: int| 0u32));
                    }
                    c = c + 1;
                }
                Ok(())
            },
            Statement::Word(value) => self.add_address(value),
            Statement::Label(name) => {
                if self.data.len() > 0xffffff {
                    return Err(AsmError::OutputTooLarge);
                }
                let pos = self.data.len() as u32;
                match self.find(&name) {
                    Some(k) => {
                        if self.labels[k].1.address.is_some() {
                            return Err(AsmError::DuplicateLabel);
                        }
                        let mut entry = self.labels.remove(k);
                        entry.1.address = Some(pos);
                        self.labels.insert(k, entry);
                        proof {
                            assert(self.labels@ =~= old(self).labels@.update(
                                k as int,
                                self.labels@[k as int],
                            ));
                            assert(self@.labels =~= old(self)@.labels.update(
                                k as int,
                                (
                                    old(self)@.labels[k as int].0,
                                    LabelModel {
                                        address: Some(pos),
                                        uses: old(self)@.labels[k as int].1.uses,
                                    },
                                ),
                            ));
                        }
                        Ok(())
                    },
                    None => {
                        self.labels.push((name, Label { address: Some(pos), repl_address: Vec::new() }));
                        proof {
                            assert(self@.labels =~= old(self)@.labels.push(
                                (
                                    self.labels@.last().0@,
                                    LabelModel { address: Some(pos), uses: Seq::empty() },
                                ),
                            ));
                        }
                        Ok(())
                    },
                }
            },
        }
    }

    /// Writes every label's resolved address into each position of its
    /// patch list; a label that never got a definition is reported.
    #[verifier::loop_isolation(false)]
    pub fn resolve_labels(&mut self) -> (r: Result<(), AsmError>)
        requires
            old(self).wf(),
        ensures
            final(self).wf(),
            match r {
                Ok(()) => resolve_spec(old(self)@.data, old(self)@.labels, 0) == Ok::<
                    Seq<u32>,
                    AsmError,
                >(final(self)@.data),
                Err(e) => resolve_spec(old(self)@.data, old(self)@.labels, 0) == Err::<
                    Seq<u32>,
                    AsmError,
                >(e),
            },
    {
        let n = self.labels.len();
        let mut k: usize = 0;
        while k < n
            invariant
                0 <= k <= n,
                n == self.labels@.len(),
                self.wf(),
                self.labels@ == old(self).labels@,
                self.data@.len() == old(self).data@.len(),
                resolve_spec(old(self)@.data, old(self)@.labels, 0) == resolve_spec(
                    self@.data,
                    self@.labels,
                    k as int,
                ),
            decreases n - k,
        {
            let addr = match self.labels[k].1.address {
                Some(a) => a,
                None => {
                    return Err(AsmError::UnresolvedLabel);
                },
            };
            let un = self.labels[k].1.repl_address.len();
            let ghost data0 = self.data@;
            proof {
                assert(self@.labels[k as int].1.uses.skip(0) =~= self@.labels[k as int].1.uses);
            }
            let mut j: usize = 0;
            while j < un
                invariant
                    0 <= j <= un,
                    k < self.labels@.len(),
                    un == self.labels@[k as int].1.repl_address@.len(),
                    self.labels@ == old(self).labels@,
                    self.wf(),
                    self.data@.len() == data0.len(),
                    addr == self.labels@[k as int].1.address.unwrap(),
                    patch_uses(data0, self@.labels[k as int].1.uses, addr) == patch_uses(
                        self.data@,
                        self@.labels[k as int].1.uses.skip(j as int),
                        addr,
                    ),
                decreases un - j,
            {
                let pos = self.labels[k].1.repl_address[j];
                self.data[pos as usize] = addr;
                proof {
                    let uses = self@.labels[k as int].1.uses;
                    assert(uses.skip(j as int).drop_first() =~= uses.skip(j as int + 1));
                }
                j = j + 1;
            }
            proof {
                assert(self@.labels[k as int].1.uses.skip(un as int)
                    =~= Seq::<u32>::empty());
            }
            k = k + 1;
        }
        Ok(())
    }

    /// Parses the whole text and appends every statement, then
    /// resolves the labels: afterwards the data is the ROM that the
    /// text alone determines.
    #[verifier::loop_isolation(false)]
    pub fn load(&mut self, text: &Vec<u8>) -> (r: Result<(), AsmError>)
        requires
            old(self).wf(),
        ensures
            final(self).wf(),
            match r {
                Ok(()) => (match load_spec(text@, 0, old(self)@) {
                    Ok(m) => resolve_spec(m.data, m.labels, 0) == Ok::<Seq<u32>, AsmError>(
                        final(self)@.data,
                    ),
                    Err(_) => false,
                }),
                Err(e) => (match load_spec(text@, 0, old(self)@) {
                    Ok(m) => resolve_spec(m.data, m.labels, 0) == Err::<Seq<u32>, AsmError>(e),
                    Err(e2) => e == e2,
                }),
            },
    {
        let mut pos: usize = 0;
        loop
            invariant
                pos <= text@.len(),
                load_spec(text@, 0, old(self)@) == load_spec(text@, pos as int, self@),
                self.wf(),
            decreases text@.len() - pos,
        {
            let j = crate::grammar::skip_ws(text, pos);
            if j >= text.len() {
                break ;
            }
            match crate::grammar::statement(text, pos) {
                Ok(p) => {
                    let (st, e) = p;
                    if !(pos < e) {
                        return Err(AsmError::Parse { pos });
                    }
                    match self.add_statement(st) {
                        Ok(()) => (),
                        Err(e2) => {
                            return Err(e2);
                        },
                    }
                    pos = e;
                },
                Err(e) => {
                    return Err(e);
                },
            }
        }
        self.resolve_labels()
    }
}

/// The model after a function's signature word has been emitted.
pub open spec fn add_statement_sig_model(m: AsmModel, args: u32, ret: u32) -> AsmModel {
    AsmModel { data: m.data.push(pack_sig(args, ret)), labels: m.labels }
}

/// Assembles a whole text in one call.
pub fn assemble(text: &Vec<u8>) -> (r: Result<Vec<u32>, AsmError>)
    ensures
        match r {
            Ok(words) => assemble_spec(text@) == Ok::<Seq<u32>, AsmError>(words@),
            Err(e) => assemble_spec(text@) == Err::<Seq<u32>, AsmError>(e),
        },
{
    let mut assembler = Assembler::new();
    match assembler.load(text) {
        Ok(()) => Ok(assembler.data),
        Err(e) => Err(e),
    }
}

/// Packs the word image big-endian, three bytes per word.
pub fn convert_24_bit(words: Vec<u32>) -> (r: Vec<u8>)
    ensures
        r@ == bytes_of_words(words@),
{
    let n = words.len();
    let mut r: Vec<u8> = Vec::new();
    let mut i: usize = 0;
    proof {
        assert(bytes_of_words(words@.take(0)) =~= Seq::<u8>::empty());
    }
    while i < n
        invariant
            0 <= i <= n,
            n == words@.len(),
            r@ == bytes_of_words(words@.take(i as int)),
        decreases n - i,
    {
        let w = words[i];
        proof {
            lemma_bytes_of_words_push(words@.take(i as int), words@[i as int]);
            assert(words@.take(i as int + 1) =~= words@.take(i as int).push(words@[i as int]));
        }
        r.push(#[verifier::truncate] ((w >> 16) as u8));
        r.push(#[verifier::truncate] ((w >> 8) as u8));
        r.push(#[verifier::truncate] (w as u8));
        i = i + 1;
    }
    proof {
        assert(words@.take(n as int) =~= words@);
    }
    r
}

} // verus!

verus! {

/// Every emitted word is a 24-bit word, every resolved label address
/// is one, and every recorded use points into the emitted data.
pub open spec fn asm_words(m: AsmModel) -> bool {
    &&& crate::codec::all_words(m.data)
    &&& forall|k: int|
        0 <= k < m.labels.len() ==> (match (#[trigger] m.labels[k]).1.address {
            Some(a) => a < 0x1000000,
            None => true,
        })
    &&& forall|k: int, j: int|
        0 <= k < m.labels.len() && 0 <= j < m.labels[k].1.uses.len() ==> (#[trigger] m.labels[k].1.uses[j]) < m.data.len()
}

/// Appending an address operand keeps the output made of words.
pub proof fn lemma_add_address_words(m: AsmModel, a: AddressModel)
    requires
        asm_words(m),
        crate::parser::addr_words(a),
    ensures
        (match add_address_spec(m, a) {
            Ok(m2) => asm_words(m2) && m2.data.len() >= m.data.len(),
            Err(_) => true,
        }),
{
    if m.data.len() < 0x1000000 {
        match a {
            AddressModel::Const(_) => {},
            AddressModel::Label(name) => {
                let pos = m.data.len() as u32;
                lemma_find_label_props(m.labels, name, 0);
                match find_label(m.labels, name) {
                    Some(k) => {
                        let labels2 = m.labels.update(
                            k,
                            (
                                m.labels[k].0,
                                LabelModel {
                                    address: m.labels[k].1.address,
                                    uses: m.labels[k].1.uses.push(pos),
                                },
                            ),
                        );
                        let m2 = AsmModel { data: m.data.push(0), labels: labels2 };
                        assert forall|x: int, j: int|
                            0 <= x < m2.labels.len() && 0 <= j < m2.labels[x].1.uses.len() implies (
                        #[trigger] m2.labels[x].1.uses[j]) < m2.data.len() by {
                            if x == k {
                                if j < m.labels[k].1.uses.len() {
                                    assert(m2.labels[x].1.uses[j] == m.labels[k].1.uses[j]);
                                } else {
                                    assert(m2.labels[x].1.uses[j] == pos);
                                }
                            } else {
                                assert(m2.labels[x] == m.labels[x]);
                            }
                        }
                        assert(asm_words(m2));
                    },
                    None => {
                        let labels2 = m.labels.push(
                            (name, LabelModel { address: None, uses: seq![pos] }),
                        );
                        let m2 = AsmModel { data: m.data.push(0), labels: labels2 };
                        assert forall|x: int, j: int|
                            0 <= x < m2.labels.len() && 0 <= j < m2.labels[x].1.uses.len() implies (
                        #[trigger] m2.labels[x].1.uses[j]) < m2.data.len() by {
                            if x < m.labels.len() {
                                assert(m2.labels[x] == m.labels[x]);
                            } else {
                                assert(m2.labels[x].1.uses[j] == pos);
                            }
                        }
                        assert(asm_words(m2));
                    },
                }
            },
        }
    }
}

/// Emitting a body of word-sized instructions keeps the output made of
/// words.
pub proof fn lemma_emit_block_words(m: AsmModel, block: Seq<InstructionModel>)
    requires
        asm_words(m),
        forall|i: int| 0 <= i < block.len() ==> crate::parser::inst_words(#[trigger] block[i]),
    ensures
        (match emit_block_spec(m, block) {
            Ok(m2) => asm_words(m2) && m2.data.len() >= m.data.len(),
            Err(_) => true,
        }),
    decreases block.len(),
{
    if block.len() != 0 && m.data.len() < 0x1000000 {
        let inst = block[0];
        crate::parser::lemma_opcode_word(inst);
        let m1 = AsmModel { data: m.data.push(opcode_of(inst)), labels: m.labels };
        assert(asm_words(m1));
        let rest = block.drop_first();
        assert forall|i: int| 0 <= i < rest.len() implies crate::parser::inst_words(
            #[trigger] rest[i],
        ) by {
            assert(rest[i] == block[i + 1]);
        }
        match inst {
            InstructionModel::Push(a) => {
                lemma_add_address_words(m1, a);
                match add_address_spec(m1, a) {
                    Ok(m2) => {
                        lemma_emit_block_words(m2, rest);
                    },
                    Err(_) => {},
                }
            },
            _ => {
                lemma_emit_block_words(m1, rest);
            },
        }
    }
}

/// Appending a statement with word-sized literals keeps the output
/// made of words.
pub proof fn lemma_add_statement_words(m: AsmModel, st: StatementModel)
    requires
        asm_words(m),
        crate::parser::stmt_words(st),
    ensures
        (match add_statement_spec(m, st) {
            Ok(m2) => asm_words(m2) && m2.data.len() >= m.data.len(),
            Err(_) => true,
        }),
{
    match st {
        StatementModel::Function(f) => {
            if m.data.len() < 0x1000000 {
                crate::codec::lemma_pack_sig_word(f.args, f.ret);
                let m1 = AsmModel { data: m.data.push(pack_sig(f.args, f.ret)), labels: m.labels };
                assert(asm_words(m1));
                lemma_emit_block_words(m1, f.block);
            }
        },
        StatementModel::Word(a) => {
            lemma_add_address_words(m, a);
        },
        StatementModel::Skip(n) => {
            if m.data.len() + n <= 0x1000000 {
                let m2 = AsmModel {
                    data: m.data + Seq::new(n as nat, |q: int| 0u32),
                    labels: m.labels,
                };
                assert forall|q: int| 0 <= q < m2.data.len() implies crate::codec::is_word(
                    #[trigger] m2.data[q],
                ) by {
                    if q >= m.data.len() {
                        assert(m2.data[q] == 0u32);
                    }
                }
                assert(asm_words(m2));
            }
        },
        StatementModel::SkipTo(addr) => {
            if m.data.len() <= addr as int && addr - m.data.len() <= 0xffffff && addr
                <= 0x1000000 {
                let m2 = AsmModel {
                    data: m.data + Seq::new((addr - m.data.len()) as nat, |q: int| 0u32),
                    labels: m.labels,
                };
                assert forall|q: int| 0 <= q < m2.data.len() implies crate::codec::is_word(
                    #[trigger] m2.data[q],
                ) by {
                    if q >= m.data.len() {
                        assert(m2.data[q] == 0u32);
                    }
                }
                assert(asm_words(m2));
            }
        },
        StatementModel::Label(name) => {
            if m.data.len() <= 0xffffff {
                let pos = m.data.len() as u32;
                lemma_find_label_props(m.labels, name, 0);
                match find_label(m.labels, name) {
                    Some(k) => {
                        if m.labels[k].1.address is None {
                            let labels2 = m.labels.update(
                                k,
                                (
                                    m.labels[k].0,
                                    LabelModel { address: Some(pos), uses: m.labels[k].1.uses },
                                ),
                            );
                            let m2 = AsmModel { data: m.data, labels: labels2 };
                            assert forall|x: int, j: int|
                                0 <= x < m2.labels.len() && 0 <= j
                                    < m2.labels[x].1.uses.len() implies (
                            #[trigger] m2.labels[x].1.uses[j]) < m2.data.len() by {
                                if x == k {
                                    assert(m2.labels[x].1.uses[j] == m.labels[k].1.uses[j]);
                                } else {
                                    assert(m2.labels[x] == m.labels[x]);
                                }
                            }
                            assert(asm_words(m2));
                        }
                    },
                    None => {
                        let labels2 = m.labels.push(
                            (name, LabelModel { address: Some(pos), uses: Seq::empty() }),
                        );
                        let m2 = AsmModel { data: m.data, labels: labels2 };
                        assert forall|x: int, j: int|
                            0 <= x < m2.labels.len() && 0 <= j < m2.labels[x].1.uses.len() implies (
                        #[trigger] m2.labels[x].1.uses[j]) < m2.data.len() by {
                            if x < m.labels.len() {
                                assert(m2.labels[x] == m.labels[x]);
                            }
                        }
                        assert(asm_words(m2));
                    },
                }
            }
        },
    }
}

/// Patching one label's uses with a word address keeps the data made
/// of words and its length fixed.
pub proof fn lemma_patch_uses_words(data: Seq<u32>, uses: Seq<u32>, addr: u32)
    requires
        crate::codec::all_words(data),
        addr < 0x1000000,
        forall|j: int| 0 <= j < uses.len() ==> (#[trigger] uses[j]) < data.len(),
    ensures
        crate::codec::all_words(patch_uses(data, uses, addr)),
        patch_uses(data, uses, addr).len() == data.len(),
    decreases uses.len(),
{
    if uses.len() != 0 {
        let data2 = data.update(uses[0] as int, addr);
        let rest = uses.drop_first();
        assert forall|j: int| 0 <= j < rest.len() implies (#[trigger] rest[j]) < data2.len() by {
            assert(rest[j] == uses[j + 1]);
        }
        lemma_patch_uses_words(data2, rest, addr);
    }
}

/// Resolving labels keeps the data made of words.
pub proof fn lemma_resolve_words(data: Seq<u32>, labels: Seq<(Seq<char>, LabelModel)>, k: int)
    requires
        crate::codec::all_words(data),
        forall|x: int|
            0 <= x < labels.len() ==> (match (#[trigger] labels[x]).1.address {
                Some(a) => a < 0x1000000,
                None => true,
            }),
        forall|x: int, j: int|
            0 <= x < labels.len() && 0 <= j < labels[x].1.uses.len() ==> (#[trigger] labels[x].1.uses[j]) < data.len(),
    ensures
        (match resolve_spec(data, labels, k) {
            Ok(d) => crate::codec::all_words(d),
            Err(_) => true,
        }),
    decreases labels.len() - k,
{
    if 0 <= k < labels.len() {
        match labels[k].1.address {
            None => {},
            Some(a) => {
                lemma_patch_uses_words(data, labels[k].1.uses, a);
                lemma_resolve_words(patch_uses(data, labels[k].1.uses, a), labels, k + 1);
            },
        }
    }
}

/// Loading statements from text keeps the assembler state made of
/// words.
pub proof fn lemma_load_spec_words(text: Seq<u8>, i: int, m: AsmModel)
    requires
        asm_words(m),
    ensures
        (match load_spec(text, i, m) {
            Ok(m2) => asm_words(m2),
            Err(_) => true,
        }),
    decreases text.len() - i,
{
    match next_spec(text, i) {
        Err(_) => {},
        Ok(opt) => match opt {
            None => {},
            Some(p) => {
                crate::grammar::lemma_statement_spec_words(text, i);
                if i < p.1 <= text.len() {
                    lemma_add_statement_words(m, p.0);
                    match add_statement_spec(m, p.0) {
                        Ok(m2) => {
                            lemma_load_spec_words(text, p.1, m2);
                        },
                        Err(_) => {},
                    }
                }
            },
        },
    }
}

/// Whatever the assembler accepts, it emits as a sequence of 24-bit
/// words.
pub proof fn lemma_assemble_words(text: Seq<u8>)
    ensures
        (match assemble_spec(text) {
            Ok(ws) => crate::codec::all_words(ws),
            Err(_) => true,
        }),
{
    assert(asm_words(asm_new()));
    lemma_load_spec_words(text, 0, asm_new());
    match load_spec(text, 0, asm_new()) {
        Ok(m) => {
            lemma_resolve_words(m.data, m.labels, 0);
        },
        Err(_) => {},
    }
}

} // verus!
