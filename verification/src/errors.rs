//! Failure kinds of the machine and of the assembler. Every failure is
//! fatal to the run that raised it: the library reports it as a value
//! and the caller decides how to abort.

use vstd::prelude::*;

verus! {

/// A fatal condition raised while loading or running a ROM.
///
/// The first group is malformed input caught at load, the second an
/// undefined operation at run time, the third a stack or arity
/// violation of the machine's structural type discipline.
#[derive(Clone, Copy, Debug, PartialEq, Eq, Structural)]
pub enum VmError {
    /// The ROM byte stream is not a whole number of 3-byte words.
    RomMisaligned,
    /// The ROM holds fewer words than the 64-word header.
    RomTooShort,
    /// The ROM holds more words than the 24-bit address space.
    RomTooLarge,
    /// Header word 0 is not the required magic number.
    BadMagic { magic: u32 },
    /// Header word 1 names feature flags this machine does not know.
    BadFeatures { features: u32 },
    /// Header word 2 names a memory mapping mode this machine does not know.
    BadMapping { mapping: u32 },
    /// A read touched an address no readable block covers.
    ReadFault { addr: u32 },
    /// A write touched an address no writable block covers.
    WriteFault { addr: u32 },
    /// The word at `addr` is no instruction of the machine.
    UnknownOpcode { addr: u32, op: u32 },
    /// A division or remainder instruction met a zero divisor.
    DivideByZero { addr: u32 },
    /// A pop or peek reached below the running function's barrier.
    StackUnderflow,
    /// A function was entered with fewer stack values than its argc.
    NotEnoughArgs,
    /// A terminator's successor set does not balance the declared retc.
    ArityMismatch,
}

/// A fatal condition raised while assembling source text.
#[derive(Clone, Copy, Debug, PartialEq, Eq, Structural)]
pub enum AsmError {
    /// No statement can be read at byte position `pos` of the input.
    Parse { pos: usize },
    /// A number literal at `pos` does not fit in a 24-bit word.
    NumberTooLarge { pos: usize },
    /// A referenced label never received a definition.
    UnresolvedLabel,
    /// A label was defined a second time.
    DuplicateLabel,
    /// `skipto` named an address below the current output position.
    SkipToBackwards,
    /// `skipto` named an address more than a word-range away.
    SkipToTooFar,
    /// The output would outgrow the 24-bit address space.
    OutputTooLarge,
}

} // verus!
