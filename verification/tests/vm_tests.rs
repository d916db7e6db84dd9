use pluto::errors::VmError;
use pluto::vm::{Func, PlutoVM};

/// Builds a ROM image of 0x100 words: a valid header with reset vector
/// 0x40, and the given word runs written at their offsets.
fn build_rom(sections: &[(usize, &[u32])]) -> Vec<u8> {
    let mut words = vec![0u32; 0x100];
    words[0] = 0x504c54;
    words[0xf] = 0x40;
    for (off, ws) in sections {
        for (i, w) in ws.iter().enumerate() {
            words[off + i] = *w;
        }
    }
    pluto::assembler::convert_24_bit(words)
}

fn run(bytes: Vec<u8>) -> Result<Option<Vec<u32>>, VmError> {
    PlutoVM::new(bytes).unwrap().start(1_000_000)
}

fn run_words(sections: &[(usize, &[u32])]) -> Result<Option<Vec<u32>>, VmError> {
    run(build_rom(sections))
}

#[test]
fn smallest_valid_program_halts() {
    // func 0 0 containing only ret: the machine prints nothing on the
    // stack and halts cleanly.
    let r = run_words(&[(0x40, &[0x000000, 0x004000])]);
    assert_eq!(r, Ok(Some(vec![])));
}

#[test]
fn arithmetic_scenario() {
    // push 2; push 3; add; ret with retc 1: residue [5].
    let r = run_words(&[(0x40, &[0x000001, 0x001000, 2, 0x001000, 3, 0x002001, 0x004000])]);
    assert_eq!(r, Ok(Some(vec![5])));
}

#[test]
fn signed_division_scenario() {
    // push 0xFFFFFF (-1 signed); push 2; sdiv; ret: -1/2 truncates
    // toward zero to 0.
    let r = run_words(&[(
        0x40,
        &[0x000001, 0x001000, 0xffffff, 0x001000, 2, 0x002006, 0x004000],
    )]);
    assert_eq!(r, Ok(Some(vec![0])));
}

#[test]
fn call_and_return_through_signatures() {
    // main: push 2; push CONT; push F; call. F adds 1 to its argument;
    // CONT passes the value through. Residue [3].
    let main = [0x000001u32, 0x001000, 2, 0x001000, 0x60, 0x001000, 0x50, 0x004003];
    let f = [0x001001u32, 0x001000, 1, 0x002001, 0x004000];
    let cont = [0x001001u32, 0x004000];
    let r = run_words(&[(0x40, &main), (0x50, &f), (0x60, &cont)]);
    assert_eq!(r, Ok(Some(vec![3])));
}

#[test]
fn conditional_true_selects_f1() {
    // push 7; push 9; push 1 (condition); push FC; push TC; if.
    // The condition is nonzero, so TC runs; it drops the unused 9.
    let main = [
        0x000001u32, 0x001000, 7, 0x001000, 9, 0x001000, 1, 0x001000, 0x60, 0x001000, 0x50,
        0x004002,
    ];
    // TC: func 2 1: drop; ret  -> keeps 7
    let tcode = [((2u32 & 0xfff) << 12) | 1, 0x001001, 0x004000];
    // FC: func 2 1: add; push 7; sub; ret -> keeps 9
    let fcode = [((2u32 & 0xfff) << 12) | 1, 0x002001, 0x001000, 7, 0x002002, 0x004000];
    let r = run_words(&[(0x40, &main), (0x50, &tcode), (0x60, &fcode)]);
    assert_eq!(r, Ok(Some(vec![7])));
}

#[test]
fn conditional_false_selects_f2() {
    let main = [
        0x000001u32, 0x001000, 7, 0x001000, 9, 0x001000, 0, 0x001000, 0x60, 0x001000, 0x50,
        0x004002,
    ];
    let tcode = [((2u32 & 0xfff) << 12) | 1, 0x001001, 0x004000];
    let fcode = [((2u32 & 0xfff) << 12) | 1, 0x002001, 0x001000, 7, 0x002002, 0x004000];
    let r = run_words(&[(0x40, &main), (0x50, &tcode), (0x60, &fcode)]);
    assert_eq!(r, Ok(Some(vec![9])));
}

#[test]
fn arity_violation_is_fatal() {
    // main declared (0,0) but its body pushes 1 before ret: the stack
    // delta 1 does not match retc 0.
    let r = run_words(&[(0x40, &[0x000000, 0x001000, 1, 0x004000])]);
    assert_eq!(r, Err(VmError::ArityMismatch));
}

#[test]
fn call_composes_with_inlining() {
    // push C; push B; call: B runs first (it is on top), then C: the
    // same values as B's and C's bodies inlined in sequence.
    let main = [0x000001u32, 0x001000, 0x60, 0x001000, 0x50, 0x004003];
    let b = [0x000001u32, 0x001000, 1, 0x004000]; // (0,1): push 1
    let c = [0x001001u32, 0x001000, 1, 0x002001, 0x004000]; // (1,1): add 1
    let split = run_words(&[(0x40, &main), (0x50, &b), (0x60, &c)]);
    let inlined = run_words(&[(
        0x40,
        &[0x000001, 0x001000, 1, 0x001000, 1, 0x002001, 0x004000],
    )]);
    assert_eq!(split, Ok(Some(vec![2])));
    assert_eq!(split, inlined);
}

#[test]
fn push_then_drop_leaves_stack_unchanged() {
    let r = run_words(&[(0x40, &[0x000000, 0x001000, 5, 0x001001, 0x004000])]);
    assert_eq!(r, Ok(Some(vec![])));
}

#[test]
fn add_then_sub_cancels() {
    // push 10; push 7; add; push 7; sub: a single 10 remains.
    let r = run_words(&[(
        0x40,
        &[0x000001, 0x001000, 10, 0x001000, 7, 0x002001, 0x001000, 7, 0x002002, 0x004000],
    )]);
    assert_eq!(r, Ok(Some(vec![10])));
}

#[test]
fn eq_yields_one_and_zero() {
    let same = run_words(&[(
        0x40,
        &[0x000001, 0x001000, 1, 0x001000, 1, 0x003000, 0x004000],
    )]);
    assert_eq!(same, Ok(Some(vec![1])));
    let diff = run_words(&[(
        0x40,
        &[0x000001, 0x001000, 1, 0x001000, 2, 0x003000, 0x004000],
    )]);
    assert_eq!(diff, Ok(Some(vec![0])));
}

#[test]
fn neg_is_logical_negation() {
    let zero = run_words(&[(0x40, &[0x000001, 0x001000, 0, 0x002000, 0x004000])]);
    assert_eq!(zero, Ok(Some(vec![1])));
    let five = run_words(&[(0x40, &[0x000001, 0x001000, 5, 0x002000, 0x004000])]);
    assert_eq!(five, Ok(Some(vec![0])));
}

#[test]
fn signed_and_unsigned_compare_differ() {
    // x = 0xFFFFFF (-1 signed), y = 1: slt says 1, ult says 0.
    let slt = run_words(&[(
        0x40,
        &[0x000001, 0x001000, 0xffffff, 0x001000, 1, 0x003003, 0x004000],
    )]);
    assert_eq!(slt, Ok(Some(vec![1])));
    let ult = run_words(&[(
        0x40,
        &[0x000001, 0x001000, 0xffffff, 0x001000, 1, 0x003002, 0x004000],
    )]);
    assert_eq!(ult, Ok(Some(vec![0])));
}

#[test]
fn addition_wraps_at_24_bits() {
    let r = run_words(&[(
        0x40,
        &[0x000001, 0x001000, 0xffffff, 0x001000, 2, 0x002001, 0x004000],
    )]);
    assert_eq!(r, Ok(Some(vec![1])));
}

#[test]
fn subtraction_wraps_below_zero() {
    let r = run_words(&[(
        0x40,
        &[0x000001, 0x001000, 0, 0x001000, 1, 0x002002, 0x004000],
    )]);
    assert_eq!(r, Ok(Some(vec![0xffffff])));
}

#[test]
fn multiplication_wraps_at_24_bits() {
    let r = run_words(&[(
        0x40,
        &[0x000001, 0x001000, 0x1000, 0x001000, 0x1000, 0x002003, 0x004000],
    )]);
    assert_eq!(r, Ok(Some(vec![0])));
}

#[test]
fn unsigned_div_and_mod() {
    let q = run_words(&[(
        0x40,
        &[0x000001, 0x001000, 7, 0x001000, 2, 0x002005, 0x004000],
    )]);
    assert_eq!(q, Ok(Some(vec![3])));
    let m = run_words(&[(
        0x40,
        &[0x000001, 0x001000, 7, 0x001000, 2, 0x002008, 0x004000],
    )]);
    assert_eq!(m, Ok(Some(vec![1])));
}

#[test]
fn signed_remainder_carries_dividend_sign() {
    // -7 rem 2 = -1, wrapped to 0xFFFFFF.
    let r = run_words(&[(
        0x40,
        &[0x000001, 0x001000, 0xfffff9, 0x001000, 2, 0x002009, 0x004000],
    )]);
    assert_eq!(r, Ok(Some(vec![0xffffff])));
}

#[test]
fn bitwise_ops() {
    let and = run_words(&[(
        0x40,
        &[0x000001, 0x001000, 0xff00ff, 0x001000, 0x0f0f0f, 0x00200c, 0x004000],
    )]);
    assert_eq!(and, Ok(Some(vec![0x0f000f])));
    let or = run_words(&[(
        0x40,
        &[0x000001, 0x001000, 0xf000f0, 0x001000, 0x0f000f, 0x00200d, 0x004000],
    )]);
    assert_eq!(or, Ok(Some(vec![0xff00ff])));
    let xor = run_words(&[(
        0x40,
        &[0x000001, 0x001000, 0xffffff, 0x001000, 0x0000ff, 0x00200e, 0x004000],
    )]);
    assert_eq!(xor, Ok(Some(vec![0xffff00])));
    let not = run_words(&[(0x40, &[0x000001, 0x001000, 0x00ff00, 0x00200b, 0x004000])]);
    assert_eq!(not, Ok(Some(vec![0xff00ff])));
}

#[test]
fn peek_copies_at_depth() {
    // push 4; push 9; peek 1: copies the 4 under the 9.
    let r = run_words(&[(
        0x40,
        &[0x000003, 0x001000, 4, 0x001000, 9, 0x000001, 0x004000],
    )]);
    assert_eq!(r, Ok(Some(vec![4, 9, 4])));
}

#[test]
fn load_reads_memory() {
    // push 0; load: reads the magic word of the header itself.
    let r = run_words(&[(0x40, &[0x000001, 0x001000, 0, 0x001002, 0x004000])]);
    assert_eq!(r, Ok(Some(vec![0x504c54])));
}

#[test]
fn stor_to_rom_is_a_write_fault() {
    // The only mapping is read-only: any stor faults.
    let r = run_words(&[(
        0x40,
        &[0x000000, 0x001000, 5, 0x001000, 0x80, 0x001003, 0x004000],
    )]);
    assert_eq!(r, Err(VmError::WriteFault { addr: 0x80 }));
}

#[test]
fn unknown_opcode_is_fatal() {
    let r = run_words(&[(0x40, &[0x000000, 0x005000, 0x004000])]);
    assert_eq!(r, Err(VmError::UnknownOpcode { addr: 0x41, op: 0x005000 }));
}

#[test]
fn division_by_zero_is_fatal() {
    let r = run_words(&[(
        0x40,
        &[0x000001, 0x001000, 1, 0x001000, 0, 0x002005, 0x004000],
    )]);
    assert_eq!(r, Err(VmError::DivideByZero { addr: 0x45 }));
}

#[test]
fn popping_below_the_barrier_is_fatal() {
    // drop on an empty stack reaches below the barrier.
    let r = run_words(&[(0x40, &[0x000000, 0x001001, 0x004000])]);
    assert_eq!(r, Err(VmError::StackUnderflow));
}

#[test]
fn entering_short_of_arguments_is_fatal() {
    // The reset function declares argc 1 but the stack starts empty.
    let r = run_words(&[(0x40, &[0x001001, 0x004000])]);
    assert_eq!(r, Err(VmError::NotEnoughArgs));
}

#[test]
fn jump_to_unmapped_address_is_a_read_fault() {
    let r = run_words(&[(0x40, &[0x000000, 0x001000, 0xffffff, 0x004001, 0x004000])]);
    assert_eq!(r, Err(VmError::ReadFault { addr: 0xffffff }));
}

#[test]
fn jmp_transfers_control() {
    // main (0,1): push F; jmp. F (0,1): push 8; ret.
    let main = [0x000001u32, 0x001000, 0x50, 0x004001];
    let f = [0x000001u32, 0x001000, 8, 0x004000];
    let r = run_words(&[(0x40, &main), (0x50, &f)]);
    assert_eq!(r, Ok(Some(vec![8])));
}

#[test]
fn rom_too_short_is_rejected() {
    let bytes = pluto::assembler::convert_24_bit(vec![0x504c54, 0, 0]);
    assert_eq!(PlutoVM::new(bytes).err(), Some(VmError::RomTooShort));
}

#[test]
fn misaligned_rom_is_rejected() {
    let bytes = vec![0x50, 0x4c, 0x54, 0x00];
    assert_eq!(PlutoVM::new(bytes).err(), Some(VmError::RomMisaligned));
}

#[test]
fn bad_magic_is_rejected() {
    let mut words = vec![0u32; 0x40];
    words[0] = 0x504c55;
    let bytes = pluto::assembler::convert_24_bit(words);
    assert_eq!(PlutoVM::new(bytes).err(), Some(VmError::BadMagic { magic: 0x504c55 }));
}

#[test]
fn bad_features_are_rejected() {
    let mut words = vec![0u32; 0x40];
    words[0] = 0x504c54;
    words[1] = 7;
    let bytes = pluto::assembler::convert_24_bit(words);
    assert_eq!(PlutoVM::new(bytes).err(), Some(VmError::BadFeatures { features: 7 }));
}

#[test]
fn bad_mapping_is_rejected() {
    let mut words = vec![0u32; 0x40];
    words[0] = 0x504c54;
    words[2] = 3;
    let bytes = pluto::assembler::convert_24_bit(words);
    assert_eq!(PlutoVM::new(bytes).err(), Some(VmError::BadMapping { mapping: 3 }));
}

#[test]
fn header_perturbation_is_caught() {
    // Flipping any byte of the magic, feature or mapping words breaks
    // validation.
    let mut words = vec![0u32; 0x40];
    words[0] = 0x504c54;
    let good = pluto::assembler::convert_24_bit(words);
    assert!(PlutoVM::new(good.clone()).is_ok());
    for k in 0..9 {
        let mut bad = good.clone();
        bad[k] ^= 0x01;
        assert!(PlutoVM::new(bad).is_err(), "byte {} unchecked", k);
    }
}

#[test]
fn header_strings_decode_until_nul() {
    let mut words = vec![0u32; 0x40];
    words[0] = 0x504c54;
    words[0x10] = 'H' as u32;
    words[0x11] = 'I' as u32;
    // words[0x12] stays 0: the terminator.
    words[0x20] = 'm' as u32;
    words[0x21] = 0xD800; // invalid code point: terminates early
    words[0x22] = 'x' as u32;
    let vm = PlutoVM::new(pluto::assembler::convert_24_bit(words)).unwrap();
    let title: String = vm.header.title.iter().collect();
    let developer: String = vm.header.developer.iter().collect();
    let publisher: String = vm.header.publisher.iter().collect();
    assert_eq!(title, "HI");
    assert_eq!(developer, "m");
    assert_eq!(publisher, "");
}

#[test]
fn start_budget_runs_out_on_a_loop() {
    // A function that jumps to itself never halts: the budget expires.
    let f = [0x000000u32, 0x001000, 0x40, 0x004001];
    let r = run(build_rom(&[(0x40, &f)]));
    // jmp back into itself: argc 0, the successor check passes each
    // time, and the machine spins forever.
    assert_eq!(r, Ok(None));
}

#[test]
fn smallest_program_ticks_true_once() {
    // Entering the reset function executes its ret in the same tick:
    // one true tick, then the halting false one.
    let mut vm = PlutoVM::new(build_rom(&[(0x40, &[0x000000, 0x004000])])).unwrap();
    assert_eq!(vm.tick(), Ok(true));
    assert_eq!(vm.tick(), Ok(false));
}

#[test]
fn each_tick_runs_one_instruction() {
    // Four instructions (push, push, add, ret): four true ticks, then
    // the halt.
    let rom = build_rom(&[(0x40, &[0x000001, 0x001000, 2, 0x001000, 3, 0x002001, 0x004000])]);
    let mut vm = PlutoVM::new(rom).unwrap();
    let mut trues = 0;
    loop {
        match vm.tick() {
            Ok(true) => trues += 1,
            Ok(false) => break,
            Err(e) => panic!("unexpected fault: {:?}", e),
        }
    }
    assert_eq!(trues, 4);
}

#[test]
fn entry_fault_reports_and_pins_the_machine() {
    // The reset function demands an argument the empty stack lacks:
    // the tick reports the fault with the pointer popped and the value
    // stack still in the machine's hands.
    let mut vm = PlutoVM::new(build_rom(&[(0x40, &[0x001001, 0x004000])])).unwrap();
    assert_eq!(vm.tick(), Err(VmError::NotEnoughArgs));
    assert!(vm.function_stack.is_empty());
    assert!(matches!(vm.func, Func::Stack(_)));
}
