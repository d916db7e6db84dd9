//! The banked 24-bit word address space. A memory map is a sequence of
//! blocks, each a contiguous run of words with read and write
//! permission flags; an access is answered by the first block that
//! covers its address with the required permission.

use vstd::prelude::*;

use crate::codec::{all_words, is_word};
use crate::errors::VmError;

verus! {

pub struct MemoryBlock {
    pub contents: Vec<u32>,
    pub offset: u32,
    pub readable: bool,
    pub writeable: bool,
}

impl MemoryBlock {
    /// The block sits inside the 24-bit address space and holds only
    /// 24-bit words.
    pub open spec fn wf(&self) -> bool {
        &&& self.offset + self.contents@.len() <= 0x1000000
        &&& all_words(self.contents@)
    }

    /// Whether the block answers an access of the given kind at the
    /// given address. The base address itself belongs to the block:
    /// containment is inclusive at the lower bound.
    pub open spec fn covers(&self, address: u32, write: bool) -> bool {
        &&& self.offset <= address
        &&& address - self.offset < self.contents@.len()
        &&& if write {
            self.writeable
        } else {
            self.readable
        }
    }

    /// The word the block holds at an address it covers.
    pub open spec fn word_at(&self, address: u32) -> u32 {
        self.contents@[address - self.offset]
    }

    pub fn check(&self, address: u32, write: bool) -> (r: bool)
        ensures
            r == self.covers(address, write),
    {
        address >= self.offset && ((address - self.offset) as usize) < self.contents.len() && (
        if write {
            self.writeable
        } else {
            self.readable
        })
    }

    pub fn read(&self, address: u32) -> (r: u32)
        requires
            self.covers(address, false),
        ensures
            r == self.word_at(address),
    {
        self.contents[(address - self.offset) as usize]
    }

    pub fn write(&mut self, address: u32, value: u32)
        requires
            old(self).covers(address, true),
        ensures
            final(self).contents@ == old(self).contents@.update(
                address - old(self).offset,
                (value & 0xffffff) as u32,
            ),
            final(self).offset == old(self).offset,
            final(self).readable == old(self).readable,
            final(self).writeable == old(self).writeable,
            old(self).wf() ==> final(self).wf(),
    {
        proof {
            assert(value & 0xffffff < 0x1000000) by (bit_vector);
        }
        self.contents[(address - self.offset) as usize] = value & 0xffffff;
    }
}

/// The index of the first block, from position `i` on, that answers an
/// access of the given kind at the given address.
pub open spec fn find_from(blocks: Seq<MemoryBlock>, address: u32, write: bool, i: int) -> Option<
    int,
>
    decreases blocks.len() - i,
{
    if i < 0 || i >= blocks.len() {
        None
    } else if blocks[i].covers(address, write) {
        Some(i)
    } else {
        find_from(blocks, address, write, i + 1)
    }
}

pub proof fn lemma_find_from_props(blocks: Seq<MemoryBlock>, address: u32, write: bool, i: int)
    requires
        0 <= i <= blocks.len(),
    ensures
        match find_from(blocks, address, write, i) {
            Some(k) => i <= k < blocks.len() && blocks[k].covers(address, write),
            None => forall|j: int| i <= j < blocks.len() ==> !blocks[j].covers(address, write),
        },
    decreases blocks.len() - i,
{
    if i < blocks.len() && !blocks[i].covers(address, write) {
        lemma_find_from_props(blocks, address, write, i + 1);
    }
}

/// A readable address of a well-formed map lies inside the 24-bit
/// address space.
pub proof fn lemma_read_ok_bound(m: MemoryAccessor, address: u32)
    requires
        m.wf(),
        m.read_ok(address),
    ensures
        address < 0x1000000,
{
    lemma_find_from_props(m.mem_blocks@, address, false, 0);
}

/// What a well-formed map yields at a readable address is a 24-bit
/// word.
pub proof fn lemma_read_spec_word(m: MemoryAccessor, address: u32)
    requires
        m.wf(),
        m.read_ok(address),
    ensures
        is_word(m.read_spec(address)),
{
    lemma_find_from_props(m.mem_blocks@, address, false, 0);
}

pub struct MemoryAccessor {
    pub mem_blocks: Vec<MemoryBlock>,
}

impl MemoryAccessor {
    pub open spec fn wf(&self) -> bool {
        forall|i: int| 0 <= i < self.mem_blocks@.len() ==> (#[trigger] self.mem_blocks@[i]).wf()
    }

    pub open spec fn find(&self, address: u32, write: bool) -> Option<int> {
        find_from(self.mem_blocks@, address, write, 0)
    }

    pub open spec fn read_ok(&self, address: u32) -> bool {
        self.find(address, false) is Some
    }

    /// The word the first readable covering block holds at the address.
    pub open spec fn read_spec(&self, address: u32) -> u32 {
        self.mem_blocks@[self.find(address, false).unwrap()].word_at(address)
    }

    pub open spec fn write_ok(&self, address: u32) -> bool {
        self.find(address, true) is Some
    }

    /// How a store relates the map before and after: the first writable
    /// covering block holds the low 24 bits of the value at the
    /// address, and everything else is unchanged.
    pub open spec fn wrote(pre: MemoryAccessor, post: MemoryAccessor, address: u32, value: u32) -> bool {
        &&& pre.write_ok(address)
        &&& post.mem_blocks@.len() == pre.mem_blocks@.len()
        &&& {
            let k = pre.find(address, true).unwrap();
            &&& post.mem_blocks@[k].contents@ == pre.mem_blocks@[k].contents@.update(
                address - pre.mem_blocks@[k].offset,
                (value & 0xffffff) as u32,
            )
            &&& post.mem_blocks@[k].offset == pre.mem_blocks@[k].offset
            &&& post.mem_blocks@[k].readable == pre.mem_blocks@[k].readable
            &&& post.mem_blocks@[k].writeable == pre.mem_blocks@[k].writeable
            &&& forall|j: int|
                0 <= j < pre.mem_blocks@.len() && j != k ==> post.mem_blocks@[j]
                    == pre.mem_blocks@[j]
        }
    }

    /// Builds the memory map for a mapping mode: mode 0 is the whole
    /// ROM as one read-only block at address 0; no other mode exists.
    pub fn new(mapping: u32, rom: Vec<u32>) -> (r: Result<MemoryAccessor, VmError>)
        requires
            all_words(rom@),
            rom@.len() <= 0x1000000,
        ensures
            match r {
                Ok(m) => {
                    &&& mapping == 0
                    &&& m.wf()
                    &&& m.mem_blocks@.len() == 1
                    &&& m.mem_blocks@[0].contents@ == rom@
                    &&& m.mem_blocks@[0].offset == 0
                    &&& m.mem_blocks@[0].readable == true
                    &&& m.mem_blocks@[0].writeable == false
                },
                Err(e) => mapping != 0 && e == (VmError::BadMapping { mapping }),
            },
    {
        if mapping != 0 {
            return Err(VmError::BadMapping { mapping });
        }
        let block = MemoryBlock { contents: rom, offset: 0, readable: true, writeable: false };
        let mut mem_blocks: Vec<MemoryBlock> = Vec::new();
        mem_blocks.push(block);
        Ok(MemoryAccessor { mem_blocks })
    }

    pub fn read(&self, address: u32) -> (r: Result<u32, VmError>)
        ensures
            r == (if self.read_ok(address) {
                Ok::<u32, VmError>(self.read_spec(address))
            } else {
                Err::<u32, VmError>(VmError::ReadFault { addr: address })
            }),
            self.wf() && self.read_ok(address) ==> is_word(self.read_spec(address)),
    {
        let n = self.mem_blocks.len();
        let mut i: usize = 0;
        while i < n
            invariant
                n == self.mem_blocks@.len(),
                0 <= i <= n,
                self.find(address, false) == find_from(self.mem_blocks@, address, false, i as int),
            decreases n - i,
        {
            if self.mem_blocks[i].check(address, false) {
                proof {
                    lemma_find_from_props(self.mem_blocks@, address, false, i as int);
                }
                return Ok(self.mem_blocks[i].read(address));
            }
            i = i + 1;
        }
        Err(VmError::ReadFault { addr: address })
    }

    pub fn write(&mut self, address: u32, value: u32) -> (r: Result<(), VmError>)
        ensures
            match r {
                Ok(()) => Self::wrote(*old(self), *final(self), address, value),
                Err(e) => {
                    &&& !old(self).write_ok(address)
                    &&& e == (VmError::WriteFault { addr: address })
                    &&& *final(self) == *old(self)
                },
            },
            old(self).wf() ==> final(self).wf(),
    {
        let n = self.mem_blocks.len();
        let mut i: usize = 0;
        while i < n
            invariant
                n == self.mem_blocks@.len(),
                0 <= i <= n,
                *self == *old(self),
                old(self).find(address, true) == find_from(
                    self.mem_blocks@,
                    address,
                    true,
                    i as int,
                ),
            decreases n - i,
        {
            if self.mem_blocks[i].check(address, true) {
                proof {
                    lemma_find_from_props(self.mem_blocks@, address, true, i as int);
                }
                let mut block = self.mem_blocks.remove(i);
                block.write(address, value);
                self.mem_blocks.insert(i, block);
                proof {
                    assert(self.mem_blocks@ =~= old(self).mem_blocks@.update(
                        i as int,
                        self.mem_blocks@[i as int],
                    ));
                }
                return Ok(());
            }
            i = i + 1;
        }
        Err(VmError::WriteFault { addr: address })
    }
}

} // verus!
