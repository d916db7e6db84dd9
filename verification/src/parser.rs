//! The assembly language's abstract form: addresses (literal or
//! label), instructions, functions and statements, as the grammar
//! yields them and the assembler consumes them. Each carries a ghost
//! model so that contracts can speak of parsed text as mathematics.

use vstd::prelude::*;

use crate::errors::AsmError;

verus! {

/// An address operand: a literal word or a label to resolve later.
pub enum Address {
    Const(u32),
    Label(String),
}

/// The ghost form of an address: the label as its character sequence.
pub ghost enum AddressModel {
    Const(u32),
    Label(Seq<char>),
}

impl View for Address {
    type V = AddressModel;

    open spec fn view(&self) -> AddressModel {
        match self {
            Address::Const(n) => AddressModel::Const(*n),
            Address::Label(s) => AddressModel::Label(s@),
        }
    }
}

/// One instruction of a function body, terminators included.
pub enum Instruction {
    Push(Address),
    Drop,
    Peek(u32),
    Load,
    Stor,
    Neg,
    Add,
    Sub,
    Mul,
    Udiv,
    Sdiv,
    Mod,
    Rem,
    Not,
    And,
    Or,
    Xor,
    Eq,
    Ne,
    Ult,
    Slt,
    Ugt,
    Sgt,
    Ule,
    Sle,
    Uge,
    Sge,
    Ret,
    Jmp,
    If,
    Call,
}

/// The ghost form of an instruction.
pub ghost enum InstructionModel {
    Push(AddressModel),
    Drop,
    Peek(u32),
    Load,
    Stor,
    Neg,
    Add,
    Sub,
    Mul,
    Udiv,
    Sdiv,
    Mod,
    Rem,
    Not,
    And,
    Or,
    Xor,
    Eq,
    Ne,
    Ult,
    Slt,
    Ugt,
    Sgt,
    Ule,
    Sle,
    Uge,
    Sge,
    Ret,
    Jmp,
    If,
    Call,
}

impl View for Instruction {
    type V = InstructionModel;

    open spec fn view(&self) -> InstructionModel {
        match self {
            Instruction::Push(a) => InstructionModel::Push(a@),
            Instruction::Drop => InstructionModel::Drop,
            Instruction::Peek(x) => InstructionModel::Peek(*x),
            Instruction::Load => InstructionModel::Load,
            Instruction::Stor => InstructionModel::Stor,
            Instruction::Neg => InstructionModel::Neg,
            Instruction::Add => InstructionModel::Add,
            Instruction::Sub => InstructionModel::Sub,
            Instruction::Mul => InstructionModel::Mul,
            Instruction::Udiv => InstructionModel::Udiv,
            Instruction::Sdiv => InstructionModel::Sdiv,
            Instruction::Mod => InstructionModel::Mod,
            Instruction::Rem => InstructionModel::Rem,
            Instruction::Not => InstructionModel::Not,
            Instruction::And => InstructionModel::And,
            Instruction::Or => InstructionModel::Or,
            Instruction::Xor => InstructionModel::Xor,
            Instruction::Eq => InstructionModel::Eq,
            Instruction::Ne => InstructionModel::Ne,
            Instruction::Ult => InstructionModel::Ult,
            Instruction::Slt => InstructionModel::Slt,
            Instruction::Ugt => InstructionModel::Ugt,
            Instruction::Sgt => InstructionModel::Sgt,
            Instruction::Ule => InstructionModel::Ule,
            Instruction::Sle => InstructionModel::Sle,
            Instruction::Uge => InstructionModel::Uge,
            Instruction::Sge => InstructionModel::Sge,
            Instruction::Ret => InstructionModel::Ret,
            Instruction::Jmp => InstructionModel::Jmp,
            Instruction::If => InstructionModel::If,
            Instruction::Call => InstructionModel::Call,
        }
    }
}

/// The word an instruction encodes to. A `peek` encodes as its raw
/// depth; `push` additionally emits its immediate as the next word.
pub open spec fn opcode_of(inst: InstructionModel) -> u32 {
    match inst {
        InstructionModel::Push(_) => 0x001000,
        InstructionModel::Drop => 0x001001,
        InstructionModel::Peek(x) => x,
        InstructionModel::Load => 0x001002,
        InstructionModel::Stor => 0x001003,
        InstructionModel::Neg => 0x002000,
        InstructionModel::Add => 0x002001,
        InstructionModel::Sub => 0x002002,
        InstructionModel::Mul => 0x002003,
        InstructionModel::Udiv => 0x002005,
        InstructionModel::Sdiv => 0x002006,
        InstructionModel::Mod => 0x002008,
        InstructionModel::Rem => 0x002009,
        InstructionModel::Not => 0x00200b,
        InstructionModel::And => 0x00200c,
        InstructionModel::Or => 0x00200d,
        InstructionModel::Xor => 0x00200e,
        InstructionModel::Eq => 0x003000,
        InstructionModel::Ne => 0x003001,
        InstructionModel::Ult => 0x003002,
        InstructionModel::Slt => 0x003003,
        InstructionModel::Ugt => 0x003004,
        InstructionModel::Sgt => 0x003005,
        InstructionModel::Ule => 0x003006,
        InstructionModel::Sle => 0x003007,
        InstructionModel::Uge => 0x003008,
        InstructionModel::Sge => 0x003009,
        InstructionModel::Ret => 0x004000,
        InstructionModel::Jmp => 0x004001,
        InstructionModel::If => 0x004002,
        InstructionModel::Call => 0x004003,
    }
}

impl Instruction {
    /// Encodes the instruction as its opcode word.
    pub fn get_opcode(&self) -> (r: u32)
        ensures
            r == opcode_of(self@),
    {
        match self {
            Instruction::Push(_) => 0x001000,
            Instruction::Drop => 0x001001,
            Instruction::Peek(x) => *x,
            Instruction::Load => 0x001002,
            Instruction::Stor => 0x001003,
            Instruction::Neg => 0x002000,
            Instruction::Add => 0x002001,
            Instruction::Sub => 0x002002,
            Instruction::Mul => 0x002003,
            Instruction::Udiv => 0x002005,
            Instruction::Sdiv => 0x002006,
            Instruction::Mod => 0x002008,
            Instruction::Rem => 0x002009,
            Instruction::Not => 0x00200b,
            Instruction::And => 0x00200c,
            Instruction::Or => 0x00200d,
            Instruction::Xor => 0x00200e,
            Instruction::Eq => 0x003000,
            Instruction::Ne => 0x003001,
            Instruction::Ult => 0x003002,
            Instruction::Slt => 0x003003,
            Instruction::Ugt => 0x003004,
            Instruction::Sgt => 0x003005,
            Instruction::Ule => 0x003006,
            Instruction::Sle => 0x003007,
            Instruction::Uge => 0x003008,
            Instruction::Sge => 0x003009,
            Instruction::Ret => 0x004000,
            Instruction::Jmp => 0x004001,
            Instruction::If => 0x004002,
            Instruction::Call => 0x004003,
        }
    }
}

/// A parsed `func` statement: its declared arities and its body, the
/// terminator included as the last instruction.
pub struct Function {
    pub args: u32,
    pub ret: u32,
    pub block: Vec<Instruction>,
}

pub ghost struct FunctionModel {
    pub args: u32,
    pub ret: u32,
    pub block: Seq<InstructionModel>,
}

impl View for Function {
    type V = FunctionModel;

    open spec fn view(&self) -> FunctionModel {
        FunctionModel {
            args: self.args,
            ret: self.ret,
            block: self.block@.map_values(|inst: Instruction| inst@),
        }
    }
}

/// One top-level statement of the assembly text.
pub enum Statement {
    Function(Function),
    Skip(u32),
    SkipTo(u32),
    Word(Address),
    Label(String),
}

pub ghost enum StatementModel {
    Function(FunctionModel),
    Skip(u32),
    SkipTo(u32),
    Word(AddressModel),
    Label(Seq<char>),
}

impl View for Statement {
    type V = StatementModel;

    open spec fn view(&self) -> StatementModel {
        match self {
            Statement::Function(f) => StatementModel::Function(f@),
            Statement::Skip(n) => StatementModel::Skip(*n),
            Statement::SkipTo(n) => StatementModel::SkipTo(*n),
            Statement::Word(a) => StatementModel::Word(a@),
            Statement::Label(s) => StatementModel::Label(s@),
        }
    }
}


/// An address whose literal, if any, is a 24-bit word.
pub open spec fn addr_words(a: AddressModel) -> bool {
    match a {
        AddressModel::Const(n) => n < 0x1000000,
        AddressModel::Label(_) => true,
    }
}

/// An instruction whose operands are 24-bit words, so that every word
/// it encodes to is one.
pub open spec fn inst_words(inst: InstructionModel) -> bool {
    match inst {
        InstructionModel::Push(a) => addr_words(a),
        InstructionModel::Peek(x) => x < 0x1000000,
        _ => true,
    }
}

/// A statement all of whose literals are 24-bit words.
pub open spec fn stmt_words(st: StatementModel) -> bool {
    match st {
        StatementModel::Function(f) => forall|i: int|
            0 <= i < f.block.len() ==> inst_words(#[trigger] f.block[i]),
        StatementModel::Word(a) => addr_words(a),
        _ => true,
    }
}

/// Every instruction encodes to a 24-bit word once its operands are
/// words.
pub proof fn lemma_opcode_word(inst: InstructionModel)
    requires
        inst_words(inst),
    ensures
        opcode_of(inst) < 0x1000000,
{
}

/// Reads statements out of a byte buffer of assembly text, one at a
/// time, keeping its position between calls.
pub struct Parser {
    pub buffer: Vec<u8>,
    pub pos: usize,
}

impl Parser {
    pub open spec fn wf(&self) -> bool {
        self.pos <= self.buffer@.len()
    }

    pub fn new(input: Vec<u8>) -> (r: Parser)
        ensures
            r.buffer@ == input@,
            r.pos == 0,
            r.wf(),
    {
        Parser { buffer: input, pos: 0 }
    }

    /// Yields the next statement, `None` at the end of the input, or
    /// the malformation found.
    pub fn next(&mut self) -> (r: Result<Option<Statement>, AsmError>)
        requires
            old(self).wf(),
        ensures
            final(self).buffer@ == old(self).buffer@,
            final(self).wf(),
            match r {
                Ok(opt) => match opt {
                    None => crate::grammar::next_spec(old(self).buffer@, old(self).pos as int)
                        == Ok::<Option<(StatementModel, int)>, AsmError>(None),
                    Some(st) => crate::grammar::next_spec(old(self).buffer@, old(self).pos as int)
                        matches Ok(Some(p)) && p.0 == st@ && p.1 == final(self).pos as int,
                },
                Err(er) => crate::grammar::next_spec(old(self).buffer@, old(self).pos as int)
                    == Err::<Option<(StatementModel, int)>, AsmError>(er),
            },
    {
        let j = crate::grammar::skip_ws(&self.buffer, self.pos);
        if j >= self.buffer.len() {
            return Ok(None);
        }
        match crate::grammar::statement(&self.buffer, self.pos) {
            Ok(p) => {
                let (st, e) = p;
                self.pos = e;
                Ok(Some(st))
            },
            Err(er) => Err(er),
        }
    }
}

} // verus!
