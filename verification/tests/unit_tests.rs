use pluto::func_execute::StackAccess;
use pluto::memory::{MemoryAccessor, MemoryBlock};
use pluto::errors::VmError;

#[test]
fn words_pack_big_endian() {
    let bytes = pluto::assembler::convert_24_bit(vec![0x504c54, 0x000001, 0xffffff]);
    assert_eq!(bytes, vec![0x50, 0x4c, 0x54, 0x00, 0x00, 0x01, 0xff, 0xff, 0xff]);
}

#[test]
fn bytes_decode_big_endian() {
    let words = pluto::vm::convert_24_bit(vec![0x50, 0x4c, 0x54, 0x00, 0x00, 0x01]);
    assert_eq!(words, vec![0x504c54, 0x000001]);
}

#[test]
fn words_to_bytes_and_back() {
    let words = vec![0u32, 1, 0x123456, 0xffffff, 0x800000, 42];
    let bytes = pluto::assembler::convert_24_bit(words.clone());
    assert_eq!(pluto::vm::convert_24_bit(bytes), words);
}

#[test]
fn signature_decompose_splits_the_fields() {
    assert_eq!(StackAccess::decompose_sig(0x001002), (1, 2));
    assert_eq!(StackAccess::decompose_sig(0xffffff), (0xfff, 0xfff));
    assert_eq!(StackAccess::decompose_sig(0), (0, 0));
}

#[test]
fn signature_roundtrips_through_packing() {
    for &(a, r) in &[(0u32, 0u32), (1, 2), (0xfff, 0xfff), (0x123, 0xabc)] {
        let sig = ((a & 0xfff) << 12) | (r & 0xfff);
        assert_eq!(StackAccess::decompose_sig(sig), (a, r));
    }
}

#[test]
fn memory_mapping_zero_is_read_only_rom() {
    let m = MemoryAccessor::new(0, vec![7, 8, 9]).unwrap();
    assert_eq!(m.read(0), Ok(7));
    assert_eq!(m.read(2), Ok(9));
    assert_eq!(m.read(3), Err(VmError::ReadFault { addr: 3 }));
    let mut m = m;
    assert_eq!(m.write(1, 5), Err(VmError::WriteFault { addr: 1 }));
}

#[test]
fn memory_unknown_mapping_is_rejected() {
    assert!(matches!(
        MemoryAccessor::new(2, vec![]),
        Err(VmError::BadMapping { mapping: 2 })
    ));
}

#[test]
fn memory_block_base_address_is_covered() {
    // Containment is inclusive at the block's base address.
    let b = MemoryBlock { contents: vec![1, 2], offset: 5, readable: true, writeable: false };
    assert!(b.check(5, false));
    assert!(b.check(6, false));
    assert!(!b.check(7, false));
    assert!(!b.check(4, false));
    assert!(!b.check(5, true));
}

#[test]
fn memory_write_masks_to_24_bits() {
    let block = MemoryBlock { contents: vec![0, 0], offset: 0, readable: true, writeable: true };
    let mut m = MemoryAccessor { mem_blocks: vec![block] };
    m.write(1, 0x12345678).unwrap();
    assert_eq!(m.read(1), Ok(0x345678));
}

#[test]
fn memory_first_matching_block_answers() {
    let a = MemoryBlock { contents: vec![10, 11], offset: 0, readable: true, writeable: false };
    let b = MemoryBlock { contents: vec![20, 21], offset: 1, readable: true, writeable: true };
    let mut m = MemoryAccessor { mem_blocks: vec![a, b] };
    // Address 1 is covered by both: the first block answers reads.
    assert_eq!(m.read(1), Ok(11));
    // Only the second block answers writes.
    m.write(1, 99).unwrap();
    assert_eq!(m.read(1), Ok(11));
    assert_eq!(m.read(2), Ok(21));
}

#[test]
fn stack_access_guards_the_barrier() {
    // Two values on the stack, a signature taking one argument: the
    // barrier protects the value below it.
    let s = StackAccess::new(vec![5, 6], 0x001001).unwrap();
    let mut s = s;
    assert_eq!(s.pop(), Ok(6));
    assert_eq!(s.pop(), Err(VmError::StackUnderflow));
    s.push(9);
    assert_eq!(s.peek(0), Ok(9));
    assert_eq!(s.peek(1), Err(VmError::StackUnderflow));
    assert_eq!(s.stack_height(), 1);
    assert_eq!(s.dispose(), vec![5, 9]);
}

#[test]
fn stack_access_rejects_missing_arguments() {
    assert!(matches!(
        StackAccess::new(vec![1], 0x002000),
        Err(VmError::NotEnoughArgs)
    ));
}

#[test]
fn compat_with_balances_the_stack_delta() {
    // One value above the barrier, retc 1: compatible with no
    // successors, or with successors whose deltas cancel.
    let s = StackAccess::new(vec![3], 0x001001).unwrap();
    assert!(s.compat_with(vec![]));
    assert!(s.compat_with(vec![0x001001])); // (1,1): delta 0
    assert!(!s.compat_with(vec![0x000001])); // (0,1): delta +1
    assert!(s.compat_with(vec![0x001000, 0x000001])); // -1 then +1
}

#[test]
fn from_utf32_stops_at_invalid_or_nul() {
    let chars = pluto::vm::from_utf32(&vec!['a' as u32, 'b' as u32, 0, 'c' as u32]);
    let s: String = chars.iter().collect();
    assert_eq!(s, "ab");
    let chars = pluto::vm::from_utf32(&vec![0x1F600, 0xD800, 'x' as u32]);
    let s: String = chars.iter().collect();
    assert_eq!(s, "\u{1F600}");
}

#[test]
fn push_bool_pushes_one_or_zero() {
    let mut s = StackAccess::new(vec![], 0x000002).unwrap();
    s.push_bool(true);
    s.push_bool(false);
    assert_eq!(s.dispose(), vec![1, 0]);
}

#[test]
fn label_record_starts_empty() {
    let l = pluto::assembler::Label::new();
    assert!(l.address.is_none());
    assert!(l.repl_address.is_empty());
}

#[test]
fn grammar_statement_reads_one_statement() {
    let text = b"  skip 3 word 5".to_vec();
    match pluto::grammar::statement(&text, 0) {
        Ok((pluto::parser::Statement::Skip(3), e)) => assert_eq!(e, 8),
        _ => panic!("expected skip 3"),
    }
    match pluto::grammar::statement(&text, 8) {
        Ok((pluto::parser::Statement::Word(pluto::parser::Address::Const(5)), e)) => {
            assert_eq!(e, 15)
        }
        _ => panic!("expected word 5"),
    }
}

#[test]
fn grammar_number_reads_hex_and_decimal() {
    assert_eq!(pluto::grammar::number(&b" 42".to_vec(), 0), Ok((42, 3)));
    assert_eq!(pluto::grammar::number(&b"0x10".to_vec(), 0), Ok((16, 4)));
    assert_eq!(
        pluto::grammar::number(&b"zz".to_vec(), 0),
        Err(pluto::errors::AsmError::Parse { pos: 0 })
    );
}

#[test]
fn grammar_skip_ws_passes_comments() {
    let text = b"  # note\n\t x".to_vec();
    assert_eq!(pluto::grammar::skip_ws(&text, 0), 11);
}
