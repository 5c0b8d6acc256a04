use evmasm::assemble;
use evmasm::error::AsmError;

#[test]
fn test_is_valid_ip() {
    assert_eq!(usize::from_str_radix("123", 16).unwrap(), 0x123);
}

#[test]
fn single_stop() {
    assert_eq!(assemble("STOP").unwrap(), vec![0x00]);
}

#[test]
fn push_and_add() {
    assert_eq!(assemble("PUSH1 0x05\nADD").unwrap(), vec![0x60, 0x05, 0x01]);
}

#[test]
fn label_jump_target() {
    let out = assemble("loop:\nPUSH1 0x00\nPUSH loop").unwrap();
    assert_eq!(out, vec![0x60, 0x00, 0xb0, 0x00]);
}

#[test]
fn duplicate_label_fails() {
    let r = assemble("a:\nSTOP\na:\nSTOP");
    assert_eq!(
        r,
        Err(AsmError::DuplicateLabel { line: 3, name: String::from("a") })
    );
}

#[test]
fn unknown_mnemonic_fails() {
    let r = assemble("FOO");
    assert_eq!(
        r,
        Err(AsmError::UnknownMnemonic { line: 1, name: String::from("FOO") })
    );
}

#[test]
fn odd_hex_digits_rejected() {
    // The committed parsing rule: hex operands need an even number of
    // digits (two per byte), so `0x1` is malformed rather than padded.
    let r = assemble("PUSH2 0x1");
    assert_eq!(
        r,
        Err(AsmError::MalformedOperand { line: 1, text: String::from("0x1") })
    );
}

#[test]
fn hex_shorter_than_width_is_zero_padded() {
    assert_eq!(assemble("PUSH2 0x05").unwrap(), vec![0x61, 0x00, 0x05]);
}

#[test]
fn hex_longer_than_width_keeps_low_bytes() {
    assert_eq!(assemble("PUSH1 0x1234").unwrap(), vec![0x60, 0x34]);
}

#[test]
fn decimal_operand_big_endian() {
    assert_eq!(assemble("PUSH2 300").unwrap(), vec![0x61, 0x01, 0x2c]);
}

#[test]
fn decimal_operand_truncates_to_width() {
    assert_eq!(assemble("PUSH1 256").unwrap(), vec![0x60, 0x00]);
}

#[test]
fn decimal_with_letters_rejected() {
    let r = assemble("PUSH1 12a");
    assert_eq!(
        r,
        Err(AsmError::MalformedOperand { line: 1, text: String::from("12a") })
    );
}

#[test]
fn comments_and_blank_lines_ignored() {
    let src = "ADD ; a comment\n\n   \nMUL / another\n; only comment\nSUB";
    assert_eq!(assemble(src).unwrap(), vec![0x01, 0x02, 0x03]);
}

#[test]
fn mnemonics_are_case_insensitive() {
    assert_eq!(assemble("add\nAdD\nmUl").unwrap(), vec![0x01, 0x01, 0x02]);
}

#[test]
fn dangling_label_fails() {
    let r = assemble("STOP\nend:");
    assert_eq!(
        r,
        Err(AsmError::DanglingLabel { line: 2, name: String::from("end") })
    );
}

#[test]
fn undefined_label_fails() {
    let r = assemble("PUSH missing\nSTOP");
    assert_eq!(
        r,
        Err(AsmError::UndefinedLabel { line: 1, name: String::from("missing") })
    );
}

#[test]
fn missing_operand_fails() {
    assert_eq!(
        assemble("PUSH1"),
        Err(AsmError::MissingOperand { line: 1, opcode: 0x60 })
    );
    assert_eq!(
        assemble("PUSH"),
        Err(AsmError::MissingOperand { line: 1, opcode: 0xb0 })
    );
}

#[test]
fn malformed_line_fails() {
    assert_eq!(assemble("ADD 1 2"), Err(AsmError::MalformedLine { line: 1 }));
}

#[test]
fn empty_source_yields_empty_output() {
    assert_eq!(assemble("").unwrap(), Vec::<u8>::new());
}

#[test]
fn assembling_twice_is_deterministic() {
    let src = "start:\nPUSH2 0xbeef\nPUSH start\nADD ; end";
    assert_eq!(assemble(src), assemble(src));
}

#[test]
fn addresses_follow_encoded_lengths() {
    // PUSH2 occupies 3 bytes, STOP 1, ADD 1; the label binds to ADD at
    // address 4 and the jump-target instruction encodes exactly that.
    let out = assemble("PUSH2 0x0102\nSTOP\nlab:\nADD\nPUSH lab").unwrap();
    assert_eq!(out, vec![0x61, 0x01, 0x02, 0x00, 0x01, 0xb0, 0x04]);
}

#[test]
fn push32_full_width() {
    let mut expected = vec![0x7f];
    expected.extend((1..=32).map(|b| b as u8));
    let digits: String = (1..=32).map(|b| format!("{:02x}", b)).collect();
    let src = format!("PUSH32 0x{}", digits);
    assert_eq!(assemble(&src).unwrap(), expected);
}

#[test]
fn label_address_is_truncated_to_one_byte() {
    // 128 two-byte instructions put the label at address 256, which the
    // one-byte committed address width truncates to 0.
    let mut src = String::new();
    for _ in 0..128 {
        src.push_str("PUSH1 0xff\n");
    }
    src.push_str("tgt:\nSTOP\nPUSH tgt");
    let out = assemble(&src).unwrap();
    assert_eq!(out.len(), 128 * 2 + 1 + 2);
    assert_eq!(out[128 * 2], 0x00); // STOP at address 256
    assert_eq!(out[128 * 2 + 1], 0xb0);
    assert_eq!(out[128 * 2 + 2], 0x00); // 256 % 256
}

#[test]
fn bare_hex_prefix_pads_to_width() {
    // `0x` with no digits is an even (empty) digit run under the
    // committed rule: it pads to the opcode's width with zero bytes.
    assert_eq!(assemble("PUSH2 0x").unwrap(), vec![0x61, 0x00, 0x00]);
}

#[test]
fn comment_may_start_mid_token() {
    // The comment rule cuts at the first `/` or `;` wherever it stands.
    let src = "ADD/ignored\nMUL;x";
    assert_eq!(assemble(src).unwrap(), vec![0x01, 0x02]);
}

#[test]
fn decimal_digit_cap() {
    // Decimal literals are capped at 38 digits (they always fit 128
    // bits); the 39th digit makes the operand malformed.
    let thirty_eight_nines = "9".repeat(38);
    let v: u128 = thirty_eight_nines.parse().unwrap();
    let mut expected = vec![0x7f];
    expected.extend([0u8; 16]);
    expected.extend(v.to_be_bytes());
    let src = format!("PUSH32 {}", thirty_eight_nines);
    assert_eq!(assemble(&src).unwrap(), expected);

    let thirty_nine = "9".repeat(39);
    let r = assemble(&format!("PUSH32 {}", thirty_nine));
    assert_eq!(
        r,
        Err(AsmError::MalformedOperand { line: 1, text: thirty_nine })
    );
}
