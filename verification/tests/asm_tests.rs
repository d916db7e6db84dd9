use pluto::assembler::{assemble, convert_24_bit, Assembler};
use pluto::errors::AsmError;
use pluto::parser::{Address, Instruction, Parser, Statement};
use pluto::vm::PlutoVM;

fn asm_text(text: &str) -> Result<Vec<u32>, AsmError> {
    assemble(&text.as_bytes().to_vec())
}

#[test]
fn assembles_the_smallest_function() {
    assert_eq!(asm_text("func 0 0 ret"), Ok(vec![0x000000, 0x004000]));
}

#[test]
fn signature_packs_both_arities() {
    assert_eq!(asm_text("func 1 2 ret"), Ok(vec![0x001002, 0x004000]));
    assert_eq!(asm_text("func 4095 4095 ret"), Ok(vec![0xffffff, 0x004000]));
}

#[test]
fn push_emits_opcode_then_immediate() {
    assert_eq!(
        asm_text("func 0 1 push 0x2A add ret"),
        Ok(vec![0x000001, 0x001000, 42, 0x002001, 0x004000])
    );
}

#[test]
fn every_mnemonic_encodes_to_its_opcode() {
    let words = asm_text(
        "func 0 0 push 1 drop load stor neg add sub mul udiv sdiv mod rem not and or xor \
         eq ne ult slt ugt sgt ule sle uge sge peek 3 ret",
    )
    .unwrap();
    assert_eq!(
        words,
        vec![
            0x000000, 0x001000, 1, 0x001001, 0x001002, 0x001003, 0x002000, 0x002001, 0x002002,
            0x002003, 0x002005, 0x002006, 0x002008, 0x002009, 0x00200b, 0x00200c, 0x00200d,
            0x00200e, 0x003000, 0x003001, 0x003002, 0x003003, 0x003004, 0x003005, 0x003006,
            0x003007, 0x003008, 0x003009, 0x000003, 0x004000,
        ]
    );
}

#[test]
fn mnemonics_are_case_insensitive() {
    assert_eq!(asm_text("FUNC 0 0 RET"), asm_text("func 0 0 ret"));
    assert_eq!(asm_text("FuNc 0 1 PuSh 5 rEt"), asm_text("func 0 1 push 5 ret"));
}

#[test]
fn comments_and_whitespace_are_skipped() {
    let text = "# a program\n  func 0 0 # body follows\n\tret # done\n# trailing\n";
    assert_eq!(asm_text(text), Ok(vec![0x000000, 0x004000]));
}

#[test]
fn label_reference_is_patched_forward() {
    // The word refers to a label defined later: the placeholder is
    // patched with the label's position.
    assert_eq!(asm_text("word end skip 3 :end"), Ok(vec![4, 0, 0, 0]));
}

#[test]
fn label_reference_is_patched_backward() {
    assert_eq!(asm_text(":start skip 2 word start"), Ok(vec![0, 0, 0]));
}

#[test]
fn push_of_a_label_is_patched() {
    let words = asm_text(":top func 0 1 push top ret").unwrap();
    assert_eq!(words, vec![0x000001, 0x001000, 0, 0x004000]);
}

#[test]
fn unresolved_label_is_an_error() {
    assert_eq!(asm_text("word nowhere"), Err(AsmError::UnresolvedLabel));
}

#[test]
fn duplicate_label_is_an_error() {
    assert_eq!(asm_text(":a skip 1 :a"), Err(AsmError::DuplicateLabel));
}

#[test]
fn skip_emits_zero_words() {
    assert_eq!(asm_text("skip 4 word 7"), Ok(vec![0, 0, 0, 0, 7]));
}

#[test]
fn skipto_pads_to_the_address() {
    assert_eq!(asm_text("word 1 skipto 0x4 word 2"), Ok(vec![1, 0, 0, 0, 2]));
}

#[test]
fn skipto_backwards_is_an_error() {
    assert_eq!(asm_text("skip 5 skipto 2"), Err(AsmError::SkipToBackwards));
}

#[test]
fn number_beyond_24_bits_is_an_error() {
    assert_eq!(asm_text("word 0x1000000"), Err(AsmError::NumberTooLarge { pos: 5 }));
    assert_eq!(asm_text("word 16777216"), Err(AsmError::NumberTooLarge { pos: 5 }));
    assert_eq!(asm_text("word 0xffffff"), Ok(vec![0xffffff]));
}

#[test]
fn malformed_statement_is_an_error() {
    assert!(matches!(asm_text("bogus"), Err(AsmError::Parse { .. })));
    assert!(matches!(asm_text("func 0 0 push"), Err(AsmError::Parse { .. })));
    assert!(matches!(asm_text("func 0 0"), Err(AsmError::Parse { .. })));
}

#[test]
fn hex_and_decimal_agree() {
    assert_eq!(asm_text("word 0xFF"), asm_text("word 255"));
    assert_eq!(asm_text("word 0Xff"), asm_text("word 255"));
}

#[test]
fn output_is_a_pure_function_of_the_text() {
    let text = ":a word b skip 2 :b word a func 0 0 push a ret";
    let first = asm_text(text);
    let second = asm_text(text);
    assert!(first.is_ok());
    assert_eq!(first, second);
}

#[test]
fn parser_yields_statements_in_order() {
    let mut p = Parser::new(b"skip 2 :lab word lab".to_vec());
    assert!(matches!(p.next(), Ok(Some(Statement::Skip(2)))));
    match p.next() {
        Ok(Some(Statement::Label(name))) => assert_eq!(name, "lab"),
        other => panic!("unexpected: {:?}", other.is_ok()),
    }
    match p.next() {
        Ok(Some(Statement::Word(Address::Label(name)))) => assert_eq!(name, "lab"),
        _ => panic!("expected a word statement"),
    }
    assert!(matches!(p.next(), Ok(None)));
    assert!(matches!(p.next(), Ok(None)));
}

#[test]
fn get_opcode_encodes_instructions() {
    assert_eq!(Instruction::Push(Address::Const(3)).get_opcode(), 0x001000);
    assert_eq!(Instruction::Peek(5).get_opcode(), 5);
    assert_eq!(Instruction::Call.get_opcode(), 0x004003);
    assert_eq!(Instruction::Xor.get_opcode(), 0x00200e);
}

#[test]
fn assembler_builds_incrementally() {
    let mut a = Assembler::new();
    a.add_statement(Statement::Word(Address::Const(9))).unwrap();
    a.add_address(Address::Label("t".to_string())).unwrap();
    a.add_statement(Statement::Label("t".to_string())).unwrap();
    a.resolve_labels().unwrap();
    assert_eq!(a.data, vec![9, 2]);
}

#[test]
fn assembled_program_runs_on_the_machine() {
    // A whole ROM written in assembly: header by hand, then the
    // program of the arithmetic scenario.
    let text = "word 0x504c54 word 0 word 0 skipto 0xf word main skipto 0x40 \
                :main func 0 1 push 2 push 3 add ret";
    let words = asm_text(text).unwrap();
    let bytes = convert_24_bit(words);
    let r = PlutoVM::new(bytes).unwrap().start(10_000);
    assert_eq!(r, Ok(Some(vec![5])));
}

#[test]
fn assembled_conditional_runs_on_the_machine() {
    let text = "word 0x504c54 word 0 word 0 skipto 0xf word main skipto 0x40 \
                :main func 0 1 push 7 push 9 push 1 push fc push tc if \
                :tc func 2 1 drop ret \
                :fc func 2 1 add push 7 sub ret";
    let words = asm_text(text).unwrap();
    let r = PlutoVM::new(convert_24_bit(words)).unwrap().start(10_000);
    assert_eq!(r, Ok(Some(vec![7])));
}

#[test]
fn oversized_function_leaves_the_assembler_untouched() {
    // A function that would overflow the remaining address space is
    // refused before any of its words are emitted.
    let mut a = Assembler::new();
    a.add_statement(Statement::SkipTo(0xffffff)).unwrap();
    a.add_statement(Statement::Skip(1)).unwrap();
    let f = pluto::parser::Function {
        args: 0,
        ret: 0,
        block: vec![Instruction::Ret],
    };
    assert_eq!(a.add_statement(Statement::Function(f)), Err(AsmError::OutputTooLarge));
    assert_eq!(a.data.len(), 0x1000000);
}

