use evmasm::builder::{Instruction, Item};
use evmasm::error::AsmError;
use evmasm::opcode::{is_push_variant, lookup};
use evmasm::tokenizer::tokenize;

#[test]
fn lookup_is_case_insensitive() {
    assert_eq!(lookup("STOP"), Some(0x00));
    assert_eq!(lookup("stop"), Some(0x00));
    assert_eq!(lookup("Add"), Some(0x01));
    assert_eq!(lookup("selfdestruct"), Some(0xff));
    assert_eq!(lookup("PUSH"), Some(0xb0));
    assert_eq!(lookup("PUSH32"), Some(0x7f));
    assert_eq!(lookup("REVERT"), Some(0xfd));
    assert_eq!(lookup("NOPE"), None);
    assert_eq!(lookup(""), None);
}

#[test]
fn push_variant_widths() {
    assert_eq!(is_push_variant(0x60), Some(1));
    assert_eq!(is_push_variant(0x7f), Some(32));
    assert_eq!(is_push_variant(0x5f), None);
    assert_eq!(is_push_variant(0x80), None);
    assert_eq!(is_push_variant(0xb0), None);
}

#[test]
fn tokenize_strips_comments_and_blanks() {
    let lines = tokenize("A B ; c\n\n  d / e\n;x");
    assert_eq!(lines.len(), 2);
    assert_eq!(lines[0].number, 1);
    assert_eq!(lines[0].tokens, vec![String::from("A"), String::from("B")]);
    assert_eq!(lines[1].number, 3);
    assert_eq!(lines[1].tokens, vec![String::from("d")]);
}

#[test]
fn build_label_line() {
    let raw = vec![String::from("loop:")];
    match Instruction::new_ins_from_raw_str(&raw, 7).unwrap() {
        Item::Label(l) => {
            assert_eq!(l.name, "loop");
            assert_eq!(l.line, 7);
        }
        Item::Ins(_) => panic!("expected a label declaration"),
    }
}

#[test]
fn build_instruction_line() {
    let raw = vec![String::from("PUSH1"), String::from("0x05")];
    match Instruction::new_ins_from_raw_str(&raw, 3).unwrap() {
        Item::Ins(i) => {
            assert_eq!(i.opcode, 0x60);
            assert_eq!(i.raw_operand_text, Some(String::from("0x05")));
            assert_eq!(i.operand_bytes, None);
            assert_eq!(i.line, 3);
        }
        Item::Label(_) => panic!("expected an instruction"),
    }
}

#[test]
fn build_rejects_extra_tokens() {
    let raw = vec![
        String::from("ADD"),
        String::from("x"),
        String::from("y"),
    ];
    match Instruction::new_ins_from_raw_str(&raw, 9) {
        Err(e) => assert_eq!(e, AsmError::MalformedLine { line: 9 }),
        Ok(_) => panic!("expected a malformed-line error"),
    }
}
