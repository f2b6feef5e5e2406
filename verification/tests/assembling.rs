use mvm::assembler::compile;
use mvm::assembler::AsmCmd;
use mvm::ops::Op;
use mvm::ast::parse;
use mvm::ast::CompileError;
use mvm::ast::Value;

fn assemble(src: &str) -> Result<Vec<u8>, CompileError> {
    compile(&parse(src).expect("parse failed"))
}

#[test]
fn output_length_is_sizes_plus_reserved_byte() {
    // nop: 1; addb with a 1-byte immediate: 1 + 8 + 1; xit: 1 -> 12, plus
    // the reserved leading byte.
    let buf = assemble("nop\naddb &100 5\nxit\n").unwrap();
    assert_eq!(buf.len(), 13);
    assert_eq!(buf[0], 0);
}

#[test]
fn word_class_immediate_is_eight_bytes() {
    // addw immediate: 1 + 8 + 8, plus the reserved byte.
    let buf = assemble("addw &100 5\n").unwrap();
    assert_eq!(buf.len(), 18);
}

#[test]
fn label_resolves_to_preceding_sizes_plus_base() {
    // .a is at the base offset + 1; after the 1-byte nop, .b is one past
    // it, and the jmp encodes exactly that address.
    let buf = assemble(".a\nnop\n.b\njmp .b\n").unwrap();
    assert_eq!(buf, vec![0, 0, 54, 66, 0, 0, 0, 0, 0, 0, 0]);
}

#[test]
fn zero_label_resolves_to_base_offset() {
    // addb ._zero 10: opcode 2, destination 64 little-endian, immediate 10.
    let buf = assemble("addb ._zero 10\n").unwrap();
    assert_eq!(buf, vec![0, 2, 64, 0, 0, 0, 0, 0, 0, 0, 10]);
}

#[test]
fn pointer_source_picks_pointer_variant() {
    // addb with an address source: opcode 3 (base 2 + pointer flag).
    let buf = assemble("addb &100 &108\n").unwrap();
    assert_eq!(buf[1], 3);
    assert_eq!(buf.len(), 18);
}

#[test]
fn mnemonics_are_case_insensitive() {
    let upper = assemble("AdDb ._zero 10\nXIT\n").unwrap();
    let lower = assemble("addb ._zero 10\nxit\n").unwrap();
    assert_eq!(upper, lower);
}

#[test]
fn duplicate_label_is_rejected_with_its_name() {
    assert_eq!(
        assemble(".a\n.a\nxit\n"),
        Err(CompileError::DuplicateLabel(".a".to_string()))
    );
}

#[test]
fn redefining_the_builtin_label_is_a_duplicate() {
    assert_eq!(
        assemble("._zero\nxit\n"),
        Err(CompileError::DuplicateLabel("._zero".to_string()))
    );
}

#[test]
fn undefined_label_is_rejected_with_its_name() {
    assert_eq!(
        assemble("jmp .nowhere\n"),
        Err(CompileError::UndefinedLabel(".nowhere".to_string()))
    );
}

#[test]
fn unknown_mnemonic_is_rejected() {
    assert_eq!(
        assemble("bogus 1 2\n"),
        Err(CompileError::UnknownMnemonic("bogus".to_string()))
    );
}

#[test]
fn wrong_argument_count_is_rejected() {
    assert_eq!(
        assemble("xit 5\n"),
        Err(CompileError::WrongArgCount("xit".to_string(), 0, 1))
    );
    assert_eq!(
        assemble("addb &65\n"),
        Err(CompileError::WrongArgCount("addb".to_string(), 2, 1))
    );
}

#[test]
fn string_destination_is_unsupported() {
    assert_eq!(
        assemble("addb \"x\" 5\n"),
        Err(CompileError::UnsupportedOperand(
            "addb".to_string(),
            Value::Str("x".to_string())
        ))
    );
}

#[test]
fn string_source_is_unsupported() {
    assert_eq!(
        assemble("addb &65 \"x\"\n"),
        Err(CompileError::UnsupportedOperand(
            "addb".to_string(),
            Value::Str("x".to_string())
        ))
    );
}

#[test]
fn float_immediate_source_is_unsupported() {
    // Float instructions take addresses only.
    assert_eq!(
        assemble("addf &100 5\n"),
        Err(CompileError::UnsupportedOperand("addf".to_string(), Value::Int(5)))
    );
}

#[test]
fn comments_produce_no_bytes() {
    let with = assemble("; a comment\nnop ; another\n").unwrap();
    let without = assemble("nop\n").unwrap();
    assert_eq!(with, without);
}

#[test]
fn mnemonic_lookup_is_exact() {
    assert_eq!(AsmCmd::from_string("ADDB"), Some(AsmCmd::ADDB));
    assert_eq!(AsmCmd::from_string("cpaw"), Some(AsmCmd::CPAW));
    assert_eq!(AsmCmd::from_string("addx"), None);
    assert_eq!(AsmCmd::from_string(""), None);
}

#[test]
fn family_base_bytes_select_the_variants() {
    // addb with a pointer source encodes base + width offset + flag.
    assert_eq!(AsmCmd::ADDB.base_op_code(), Op::ADD1.to_byte());
    assert_eq!(AsmCmd::ADDB.base_op_offset(), 0);
    assert_eq!(AsmCmd::ADDW.base_op_offset(), 2);
    assert_eq!(
        AsmCmd::ADDW.base_op_code() + AsmCmd::ADDW.base_op_offset() + 1,
        Op::ADD4.to_byte()
    );
}

#[test]
fn sizes_follow_the_operand_kinds() {
    let addr = Value::Addr(100);
    let imm = Value::Int(5);
    assert_eq!(AsmCmd::size_from_string("addb", &vec![addr.clone(), imm.clone()]), Ok(10));
    assert_eq!(AsmCmd::size_from_string("addb", &vec![addr.clone(), addr.clone()]), Ok(17));
    assert_eq!(AsmCmd::size_from_string("addw", &vec![addr.clone(), imm.clone()]), Ok(17));
    assert_eq!(AsmCmd::size_from_string("jit", &vec![addr.clone(), addr.clone()]), Ok(17));
    assert_eq!(AsmCmd::size_from_string("jmp", &vec![addr.clone()]), Ok(9));
    assert_eq!(AsmCmd::size_from_string("ret", &vec![]), Ok(1));
}
