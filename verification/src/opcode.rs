//! The static mnemonic table: case-insensitive lookup from mnemonic text to
//! a one-byte opcode, and the opcode metadata (push-variant widths, operand
//! widths, encoded lengths) that the later passes depend on.

use vstd::prelude::*;

verus! {

/// Uppercases one ASCII letter; every other character is left alone.
pub open spec fn spec_upper_char(c: char) -> char {
    if 'a' <= c && c <= 'z' {
        (c as u8 - 32) as char
    } else {
        c
    }
}

/// The character sequence `s` with every ASCII letter uppercased.
pub open spec fn spec_upper(s: Seq<char>) -> Seq<char> {
    s.map_values(|c: char| spec_upper_char(c))
}

/// Uppercases one ASCII letter; every other character is left alone.
pub fn upper_char(c: char) -> (r: char)
    ensures
        r == spec_upper_char(c),
{
    if 'a' <= c && c <= 'z' {
        (c as u8 - 32) as char
    } else {
        c
    }
}

/// True exactly when `t`, uppercased, equals `lit` character for character.
pub fn mnemonic_matches(t: &str, lit: &str) -> (r: bool)
    ensures
        r == (spec_upper(t@) == lit@),
{
    let n = t.unicode_len();
    if n != lit.unicode_len() {
        proof {
            assert(spec_upper(t@).len() == t@.len());
            assert(spec_upper(t@) != lit@);
        }
        return false;
    }
    let mut i: usize = 0;
    while i < n
        invariant
            n == t@.len(),
            n == lit@.len(),
            i <= n,
            forall|j: int| 0 <= j < i ==> spec_upper(t@)[j] == lit@[j],
        decreases n - i,
    {
        let c = upper_char(t.get_char(i));
        if c != lit.get_char(i) {
            proof {
                assert(spec_upper(t@)[i as int] != lit@[i as int]);
            }
            return false;
        }
        i = i + 1;
    }
    proof {
        assert(spec_upper(t@) =~= lit@);
    }
    true
}

/// One section of the mnemonic table, tried in order by `spec_opcode_of`.
pub open spec fn spec_opcode_chunk0(s: Seq<char>) -> Option<u8> {
    if s == "STOP"@ {
        Some(0x00u8)
    } else if s == "ADD"@ {
        Some(0x01u8)
    } else if s == "MUL"@ {
        Some(0x02u8)
    } else if s == "SUB"@ {
        Some(0x03u8)
    } else if s == "DIV"@ {
        Some(0x04u8)
    } else if s == "SDIV"@ {
        Some(0x05u8)
    } else if s == "MOD"@ {
        Some(0x06u8)
    } else if s == "SMOD"@ {
        Some(0x07u8)
    } else if s == "ADDMOD"@ {
        Some(0x08u8)
    } else if s == "MULMOD"@ {
        Some(0x09u8)
    } else if s == "EXP"@ {
        Some(0x0au8)
    } else if s == "SIGNEXTEND"@ {
        Some(0x0bu8)
    } else if s == "LT"@ {
        Some(0x10u8)
    } else if s == "GT"@ {
        Some(0x11u8)
    } else if s == "SLT"@ {
        Some(0x12u8)
    } else if s == "SGT"@ {
        Some(0x13u8)
    } else if s == "EQ"@ {
        Some(0x14u8)
    } else if s == "ISZERO"@ {
        Some(0x15u8)
    } else if s == "AND"@ {
        Some(0x16u8)
    } else if s == "OR"@ {
        Some(0x17u8)
    } else if s == "XOR"@ {
        Some(0x18u8)
    } else if s == "NOT"@ {
        Some(0x19u8)
    } else if s == "BYTE"@ {
        Some(0x1au8)
    } else if s == "SHL"@ {
        Some(0x1bu8)
    } else {
        None
    }
}

fn opcode_chunk0(t: &str) -> (r: Option<u8>)
    ensures
        r == spec_opcode_chunk0(spec_upper(t@)),
{
    if mnemonic_matches(t, "STOP") {
        Some(0x00u8)
    } else if mnemonic_matches(t, "ADD") {
        Some(0x01u8)
    } else if mnemonic_matches(t, "MUL") {
        Some(0x02u8)
    } else if mnemonic_matches(t, "SUB") {
        Some(0x03u8)
    } else if mnemonic_matches(t, "DIV") {
        Some(0x04u8)
    } else if mnemonic_matches(t, "SDIV") {
        Some(0x05u8)
    } else if mnemonic_matches(t, "MOD") {
        Some(0x06u8)
    } else if mnemonic_matches(t, "SMOD") {
        Some(0x07u8)
    } else if mnemonic_matches(t, "ADDMOD") {
        Some(0x08u8)
    } else if mnemonic_matches(t, "MULMOD") {
        Some(0x09u8)
    } else if mnemonic_matches(t, "EXP") {
        Some(0x0au8)
    } else if mnemonic_matches(t, "SIGNEXTEND") {
        Some(0x0bu8)
    } else if mnemonic_matches(t, "LT") {
        Some(0x10u8)
    } else if mnemonic_matches(t, "GT") {
        Some(0x11u8)
    } else if mnemonic_matches(t, "SLT") {
        Some(0x12u8)
    } else if mnemonic_matches(t, "SGT") {
        Some(0x13u8)
    } else if mnemonic_matches(t, "EQ") {
        Some(0x14u8)
    } else if mnemonic_matches(t, "ISZERO") {
        Some(0x15u8)
    } else if mnemonic_matches(t, "AND") {
        Some(0x16u8)
    } else if mnemonic_matches(t, "OR") {
        Some(0x17u8)
    } else if mnemonic_matches(t, "XOR") {
        Some(0x18u8)
    } else if mnemonic_matches(t, "NOT") {
        Some(0x19u8)
    } else if mnemonic_matches(t, "BYTE") {
        Some(0x1au8)
    } else if mnemonic_matches(t, "SHL") {
        Some(0x1bu8)
    } else {
        None
    }
}

/// One section of the mnemonic table, tried in order by `spec_opcode_of`.
pub open spec fn spec_opcode_chunk1(s: Seq<char>) -> Option<u8> {
    if s == "SHR"@ {
        Some(0x1cu8)
    } else if s == "SAR"@ {
        Some(0x1du8)
    } else if s == "SHA3"@ {
        Some(0x20u8)
    } else if s == "ADDRESS"@ {
        Some(0x30u8)
    } else if s == "BALANCE"@ {
        Some(0x31u8)
    } else if s == "ORIGIN"@ {
        Some(0x32u8)
    } else if s == "CALLER"@ {
        Some(0x33u8)
    } else if s == "CALLVALUE"@ {
        Some(0x34u8)
    } else if s == "CALLDATALOAD"@ {
        Some(0x35u8)
    } else if s == "CALLDATASIZE"@ {
        Some(0x36u8)
    } else if s == "CALLDATACOPY"@ {
        Some(0x37u8)
    } else if s == "CODESIZE"@ {
        Some(0x38u8)
    } else if s == "CODECOPY"@ {
        Some(0x39u8)
    } else if s == "GASPRICE"@ {
        Some(0x3au8)
    } else if s == "EXTCODESIZE"@ {
        Some(0x3bu8)
    } else if s == "EXTCODECOPY"@ {
        Some(0x3cu8)
    } else if s == "RETURNDATASIZE"@ {
        Some(0x3du8)
    } else if s == "RETURNDATACOPY"@ {
        Some(0x3eu8)
    } else if s == "EXTCODEHASH"@ {
        Some(0x3fu8)
    } else if s == "BLOCKHASH"@ {
        Some(0x40u8)
    } else if s == "COINBASE"@ {
        Some(0x41u8)
    } else if s == "TIMESTAMP"@ {
        Some(0x42u8)
    } else if s == "NUMBER"@ {
        Some(0x43u8)
    } else if s == "DIFFICULTY"@ {
        Some(0x44u8)
    } else {
        None
    }
}

fn opcode_chunk1(t: &str) -> (r: Option<u8>)
    ensures
        r == spec_opcode_chunk1(spec_upper(t@)),
{
    if mnemonic_matches(t, "SHR") {
        Some(0x1cu8)
    } else if mnemonic_matches(t, "SAR") {
        Some(0x1du8)
    } else if mnemonic_matches(t, "SHA3") {
        Some(0x20u8)
    } else if mnemonic_matches(t, "ADDRESS") {
        Some(0x30u8)
    } else if mnemonic_matches(t, "BALANCE") {
        Some(0x31u8)
    } else if mnemonic_matches(t, "ORIGIN") {
        Some(0x32u8)
    } else if mnemonic_matches(t, "CALLER") {
        Some(0x33u8)
    } else if mnemonic_matches(t, "CALLVALUE") {
        Some(0x34u8)
    } else if mnemonic_matches(t, "CALLDATALOAD") {
        Some(0x35u8)
    } else if mnemonic_matches(t, "CALLDATASIZE") {
        Some(0x36u8)
    } else if mnemonic_matches(t, "CALLDATACOPY") {
        Some(0x37u8)
    } else if mnemonic_matches(t, "CODESIZE") {
        Some(0x38u8)
    } else if mnemonic_matches(t, "CODECOPY") {
        Some(0x39u8)
    } else if mnemonic_matches(t, "GASPRICE") {
        Some(0x3au8)
    } else if mnemonic_matches(t, "EXTCODESIZE") {
        Some(0x3bu8)
    } else if mnemonic_matches(t, "EXTCODECOPY") {
        Some(0x3cu8)
    } else if mnemonic_matches(t, "RETURNDATASIZE") {
        Some(0x3du8)
    } else if mnemonic_matches(t, "RETURNDATACOPY") {
        Some(0x3eu8)
    } else if mnemonic_matches(t, "EXTCODEHASH") {
        Some(0x3fu8)
    } else if mnemonic_matches(t, "BLOCKHASH") {
        Some(0x40u8)
    } else if mnemonic_matches(t, "COINBASE") {
        Some(0x41u8)
    } else if mnemonic_matches(t, "TIMESTAMP") {
        Some(0x42u8)
    } else if mnemonic_matches(t, "NUMBER") {
        Some(0x43u8)
    } else if mnemonic_matches(t, "DIFFICULTY") {
        Some(0x44u8)
    } else {
        None
    }
}

/// One section of the mnemonic table, tried in order by `spec_opcode_of`.
pub open spec fn spec_opcode_chunk2(s: Seq<char>) -> Option<u8> {
    if s == "GASLIMIT"@ {
        Some(0x45u8)
    } else if s == "CHAINID"@ {
        Some(0x46u8)
    } else if s == "SELFBALANCE"@ {
        Some(0x47u8)
    } else if s == "POP"@ {
        Some(0x50u8)
    } else if s == "MLOAD"@ {
        Some(0x51u8)
    } else if s == "MSTORE"@ {
        Some(0x52u8)
    } else if s == "MSTORE8"@ {
        Some(0x53u8)
    } else if s == "SLOAD"@ {
        Some(0x54u8)
    } else if s == "SSTORE"@ {
        Some(0x55u8)
    } else if s == "JUMP"@ {
        Some(0x56u8)
    } else if s == "JUMPI"@ {
        Some(0x57u8)
    } else if s == "PC"@ {
        Some(0x58u8)
    } else if s == "MSIZE"@ {
        Some(0x59u8)
    } else if s == "GAS"@ {
        Some(0x5au8)
    } else if s == "JUMPDEST"@ {
        Some(0x5bu8)
    } else if s == "PUSH1"@ {
        Some(0x60u8)
    } else if s == "PUSH2"@ {
        Some(0x61u8)
    } else if s == "PUSH3"@ {
        Some(0x62u8)
    } else if s == "PUSH4"@ {
        Some(0x63u8)
    } else if s == "PUSH5"@ {
        Some(0x64u8)
    } else if s == "PUSH6"@ {
        Some(0x65u8)
    } else if s == "PUSH7"@ {
        Some(0x66u8)
    } else if s == "PUSH8"@ {
        Some(0x67u8)
    } else if s == "PUSH9"@ {
        Some(0x68u8)
    } else {
        None
    }
}

fn opcode_chunk2(t: &str) -> (r: Option<u8>)
    ensures
        r == spec_opcode_chunk2(spec_upper(t@)),
{
    if mnemonic_matches(t, "GASLIMIT") {
        Some(0x45u8)
    } else if mnemonic_matches(t, "CHAINID") {
        Some(0x46u8)
    } else if mnemonic_matches(t, "SELFBALANCE") {
        Some(0x47u8)
    } else if mnemonic_matches(t, "POP") {
        Some(0x50u8)
    } else if mnemonic_matches(t, "MLOAD") {
        Some(0x51u8)
    } else if mnemonic_matches(t, "MSTORE") {
        Some(0x52u8)
    } else if mnemonic_matches(t, "MSTORE8") {
        Some(0x53u8)
    } else if mnemonic_matches(t, "SLOAD") {
        Some(0x54u8)
    } else if mnemonic_matches(t, "SSTORE") {
        Some(0x55u8)
    } else if mnemonic_matches(t, "JUMP") {
        Some(0x56u8)
    } else if mnemonic_matches(t, "JUMPI") {
        Some(0x57u8)
    } else if mnemonic_matches(t, "PC") {
        Some(0x58u8)
    } else if mnemonic_matches(t, "MSIZE") {
        Some(0x59u8)
    } else if mnemonic_matches(t, "GAS") {
        Some(0x5au8)
    } else if mnemonic_matches(t, "JUMPDEST") {
        Some(0x5bu8)
    } else if mnemonic_matches(t, "PUSH1") {
        Some(0x60u8)
    } else if mnemonic_matches(t, "PUSH2") {
        Some(0x61u8)
    } else if mnemonic_matches(t, "PUSH3") {
        Some(0x62u8)
    } else if mnemonic_matches(t, "PUSH4") {
        Some(0x63u8)
    } else if mnemonic_matches(t, "PUSH5") {
        Some(0x64u8)
    } else if mnemonic_matches(t, "PUSH6") {
        Some(0x65u8)
    } else if mnemonic_matches(t, "PUSH7") {
        Some(0x66u8)
    } else if mnemonic_matches(t, "PUSH8") {
        Some(0x67u8)
    } else if mnemonic_matches(t, "PUSH9") {
        Some(0x68u8)
    } else {
        None
    }
}

/// One section of the mnemonic table, tried in order by `spec_opcode_of`.
pub open spec fn spec_opcode_chunk3(s: Seq<char>) -> Option<u8> {
    if s == "PUSH10"@ {
        Some(0x69u8)
    } else if s == "PUSH11"@ {
        Some(0x6au8)
    } else if s == "PUSH12"@ {
        Some(0x6bu8)
    } else if s == "PUSH13"@ {
        Some(0x6cu8)
    } else if s == "PUSH14"@ {
        Some(0x6du8)
    } else if s == "PUSH15"@ {
        Some(0x6eu8)
    } else if s == "PUSH16"@ {
        Some(0x6fu8)
    } else if s == "PUSH17"@ {
        Some(0x70u8)
    } else if s == "PUSH18"@ {
        Some(0x71u8)
    } else if s == "PUSH19"@ {
        Some(0x72u8)
    } else if s == "PUSH20"@ {
        Some(0x73u8)
    } else if s == "PUSH21"@ {
        Some(0x74u8)
    } else if s == "PUSH22"@ {
        Some(0x75u8)
    } else if s == "PUSH23"@ {
        Some(0x76u8)
    } else if s == "PUSH24"@ {
        Some(0x77u8)
    } else if s == "PUSH25"@ {
        Some(0x78u8)
    } else if s == "PUSH26"@ {
        Some(0x79u8)
    } else if s == "PUSH27"@ {
        Some(0x7au8)
    } else if s == "PUSH28"@ {
        Some(0x7bu8)
    } else if s == "PUSH29"@ {
        Some(0x7cu8)
    } else if s == "PUSH30"@ {
        Some(0x7du8)
    } else if s == "PUSH31"@ {
        Some(0x7eu8)
    } else if s == "PUSH32"@ {
        Some(0x7fu8)
    } else if s == "DUP1"@ {
        Some(0x80u8)
    } else {
        None
    }
}

fn opcode_chunk3(t: &str) -> (r: Option<u8>)
    ensures
        r == spec_opcode_chunk3(spec_upper(t@)),
{
    if mnemonic_matches(t, "PUSH10") {
        Some(0x69u8)
    } else if mnemonic_matches(t, "PUSH11") {
        Some(0x6au8)
    } else if mnemonic_matches(t, "PUSH12") {
        Some(0x6bu8)
    } else if mnemonic_matches(t, "PUSH13") {
        Some(0x6cu8)
    } else if mnemonic_matches(t, "PUSH14") {
        Some(0x6du8)
    } else if mnemonic_matches(t, "PUSH15") {
        Some(0x6eu8)
    } else if mnemonic_matches(t, "PUSH16") {
        Some(0x6fu8)
    } else if mnemonic_matches(t, "PUSH17") {
        Some(0x70u8)
    } else if mnemonic_matches(t, "PUSH18") {
        Some(0x71u8)
    } else if mnemonic_matches(t, "PUSH19") {
        Some(0x72u8)
    } else if mnemonic_matches(t, "PUSH20") {
        Some(0x73u8)
    } else if mnemonic_matches(t, "PUSH21") {
        Some(0x74u8)
    } else if mnemonic_matches(t, "PUSH22") {
        Some(0x75u8)
    } else if mnemonic_matches(t, "PUSH23") {
        Some(0x76u8)
    } else if mnemonic_matches(t, "PUSH24") {
        Some(0x77u8)
    } else if mnemonic_matches(t, "PUSH25") {
        Some(0x78u8)
    } else if mnemonic_matches(t, "PUSH26") {
        Some(0x79u8)
    } else if mnemonic_matches(t, "PUSH27") {
        Some(0x7au8)
    } else if mnemonic_matches(t, "PUSH28") {
        Some(0x7bu8)
    } else if mnemonic_matches(t, "PUSH29") {
        Some(0x7cu8)
    } else if mnemonic_matches(t, "PUSH30") {
        Some(0x7du8)
    } else if mnemonic_matches(t, "PUSH31") {
        Some(0x7eu8)
    } else if mnemonic_matches(t, "PUSH32") {
        Some(0x7fu8)
    } else if mnemonic_matches(t, "DUP1") {
        Some(0x80u8)
    } else {
        None
    }
}

/// One section of the mnemonic table, tried in order by `spec_opcode_of`.
pub open spec fn spec_opcode_chunk4(s: Seq<char>) -> Option<u8> {
    if s == "DUP2"@ {
        Some(0x81u8)
    } else if s == "DUP3"@ {
        Some(0x82u8)
    } else if s == "DUP4"@ {
        Some(0x83u8)
    } else if s == "DUP5"@ {
        Some(0x84u8)
    } else if s == "DUP6"@ {
        Some(0x85u8)
    } else if s == "DUP7"@ {
        Some(0x86u8)
    } else if s == "DUP8"@ {
        Some(0x87u8)
    } else if s == "DUP9"@ {
        Some(0x88u8)
    } else if s == "DUP10"@ {
        Some(0x89u8)
    } else if s == "DUP11"@ {
        Some(0x8au8)
    } else if s == "DUP12"@ {
        Some(0x8bu8)
    } else if s == "DUP13"@ {
        Some(0x8cu8)
    } else if s == "DUP14"@ {
        Some(0x8du8)
    } else if s == "DUP15"@ {
        Some(0x8eu8)
    } else if s == "DUP16"@ {
        Some(0x8fu8)
    } else if s == "SWAP1"@ {
        Some(0x90u8)
    } else if s == "SWAP2"@ {
        Some(0x91u8)
    } else if s == "SWAP3"@ {
        Some(0x92u8)
    } else if s == "SWAP4"@ {
        Some(0x93u8)
    } else if s == "SWAP5"@ {
        Some(0x94u8)
    } else if s == "SWAP6"@ {
        Some(0x95u8)
    } else if s == "SWAP7"@ {
        Some(0x96u8)
    } else if s == "SWAP8"@ {
        Some(0x97u8)
    } else if s == "SWAP9"@ {
        Some(0x98u8)
    } else {
        None
    }
}

fn opcode_chunk4(t: &str) -> (r: Option<u8>)
    ensures
        r == spec_opcode_chunk4(spec_upper(t@)),
{
    if mnemonic_matches(t, "DUP2") {
        Some(0x81u8)
    } else if mnemonic_matches(t, "DUP3") {
        Some(0x82u8)
    } else if mnemonic_matches(t, "DUP4") {
        Some(0x83u8)
    } else if mnemonic_matches(t, "DUP5") {
        Some(0x84u8)
    } else if mnemonic_matches(t, "DUP6") {
        Some(0x85u8)
    } else if mnemonic_matches(t, "DUP7") {
        Some(0x86u8)
    } else if mnemonic_matches(t, "DUP8") {
        Some(0x87u8)
    } else if mnemonic_matches(t, "DUP9") {
        Some(0x88u8)
    } else if mnemonic_matches(t, "DUP10") {
        Some(0x89u8)
    } else if mnemonic_matches(t, "DUP11") {
        Some(0x8au8)
    } else if mnemonic_matches(t, "DUP12") {
        Some(0x8bu8)
    } else if mnemonic_matches(t, "DUP13") {
        Some(0x8cu8)
    } else if mnemonic_matches(t, "DUP14") {
        Some(0x8du8)
    } else if mnemonic_matches(t, "DUP15") {
        Some(0x8eu8)
    } else if mnemonic_matches(t, "DUP16") {
        Some(0x8fu8)
    } else if mnemonic_matches(t, "SWAP1") {
        Some(0x90u8)
    } else if mnemonic_matches(t, "SWAP2") {
        Some(0x91u8)
    } else if mnemonic_matches(t, "SWAP3") {
        Some(0x92u8)
    } else if mnemonic_matches(t, "SWAP4") {
        Some(0x93u8)
    } else if mnemonic_matches(t, "SWAP5") {
        Some(0x94u8)
    } else if mnemonic_matches(t, "SWAP6") {
        Some(0x95u8)
    } else if mnemonic_matches(t, "SWAP7") {
        Some(0x96u8)
    } else if mnemonic_matches(t, "SWAP8") {
        Some(0x97u8)
    } else if mnemonic_matches(t, "SWAP9") {
        Some(0x98u8)
    } else {
        None
    }
}

/// One section of the mnemonic table, tried in order by `spec_opcode_of`.
pub open spec fn spec_opcode_chunk5(s: Seq<char>) -> Option<u8> {
    if s == "SWAP10"@ {
        Some(0x99u8)
    } else if s == "SWAP11"@ {
        Some(0x9au8)
    } else if s == "SWAP12"@ {
        Some(0x9bu8)
    } else if s == "SWAP13"@ {
        Some(0x9cu8)
    } else if s == "SWAP14"@ {
        Some(0x9du8)
    } else if s == "SWAP15"@ {
        Some(0x9eu8)
    } else if s == "SWAP16"@ {
        Some(0x9fu8)
    } else if s == "LOG0"@ {
        Some(0xa0u8)
    } else if s == "LOG1"@ {
        Some(0xa1u8)
    } else if s == "LOG2"@ {
        Some(0xa2u8)
    } else if s == "LOG3"@ {
        Some(0xa3u8)
    } else if s == "LOG4"@ {
        Some(0xa4u8)
    } else if s == "PUSH"@ {
        Some(0xb0u8)
    } else if s == "CREATE"@ {
        Some(0xf0u8)
    } else if s == "CALL"@ {
        Some(0xf1u8)
    } else if s == "CALLCODE"@ {
        Some(0xf2u8)
    } else if s == "RETURN"@ {
        Some(0xf3u8)
    } else if s == "DELEGATECALL"@ {
        Some(0xf4u8)
    } else if s == "CREATE2"@ {
        Some(0xf5u8)
    } else if s == "STATICCALL"@ {
        Some(0xfau8)
    } else if s == "REVERT"@ {
        Some(0xfdu8)
    } else if s == "SELFDESTRUCT"@ {
        Some(0xffu8)
    } else {
        None
    }
}

fn opcode_chunk5(t: &str) -> (r: Option<u8>)
    ensures
        r == spec_opcode_chunk5(spec_upper(t@)),
{
    if mnemonic_matches(t, "SWAP10") {
        Some(0x99u8)
    } else if mnemonic_matches(t, "SWAP11") {
        Some(0x9au8)
    } else if mnemonic_matches(t, "SWAP12") {
        Some(0x9bu8)
    } else if mnemonic_matches(t, "SWAP13") {
        Some(0x9cu8)
    } else if mnemonic_matches(t, "SWAP14") {
        Some(0x9du8)
    } else if mnemonic_matches(t, "SWAP15") {
        Some(0x9eu8)
    } else if mnemonic_matches(t, "SWAP16") {
        Some(0x9fu8)
    } else if mnemonic_matches(t, "LOG0") {
        Some(0xa0u8)
    } else if mnemonic_matches(t, "LOG1") {
        Some(0xa1u8)
    } else if mnemonic_matches(t, "LOG2") {
        Some(0xa2u8)
    } else if mnemonic_matches(t, "LOG3") {
        Some(0xa3u8)
    } else if mnemonic_matches(t, "LOG4") {
        Some(0xa4u8)
    } else if mnemonic_matches(t, "PUSH") {
        Some(0xb0u8)
    } else if mnemonic_matches(t, "CREATE") {
        Some(0xf0u8)
    } else if mnemonic_matches(t, "CALL") {
        Some(0xf1u8)
    } else if mnemonic_matches(t, "CALLCODE") {
        Some(0xf2u8)
    } else if mnemonic_matches(t, "RETURN") {
        Some(0xf3u8)
    } else if mnemonic_matches(t, "DELEGATECALL") {
        Some(0xf4u8)
    } else if mnemonic_matches(t, "CREATE2") {
        Some(0xf5u8)
    } else if mnemonic_matches(t, "STATICCALL") {
        Some(0xfau8)
    } else if mnemonic_matches(t, "REVERT") {
        Some(0xfdu8)
    } else if mnemonic_matches(t, "SELFDESTRUCT") {
        Some(0xffu8)
    } else {
        None
    }
}

/// The full mnemonic table: the opcode for `s` (already uppercased), or
/// `None` when no mnemonic matches.
pub open spec fn spec_opcode_of(s: Seq<char>) -> Option<u8> {
    if spec_opcode_chunk0(s) is Some {
        spec_opcode_chunk0(s)
    } else if spec_opcode_chunk1(s) is Some {
        spec_opcode_chunk1(s)
    } else if spec_opcode_chunk2(s) is Some {
        spec_opcode_chunk2(s)
    } else if spec_opcode_chunk3(s) is Some {
        spec_opcode_chunk3(s)
    } else if spec_opcode_chunk4(s) is Some {
        spec_opcode_chunk4(s)
    } else {
        spec_opcode_chunk5(s)
    }
}

/// The opcode that `lookup` returns for mnemonic text `m`: the table entry
/// for the uppercased text, so lookup is case-insensitive.
pub open spec fn spec_lookup(m: Seq<char>) -> Option<u8> {
    spec_opcode_of(spec_upper(m))
}

/// Case-insensitive mnemonic-to-opcode lookup over the static table;
/// `None` when the mnemonic is unknown.
pub fn lookup(mnemonic: &str) -> (r: Option<u8>)
    ensures
        r == spec_lookup(mnemonic@),
{
    if let Some(op) = opcode_chunk0(mnemonic) {
        Some(op)
    } else if let Some(op) = opcode_chunk1(mnemonic) {
        Some(op)
    } else if let Some(op) = opcode_chunk2(mnemonic) {
        Some(op)
    } else if let Some(op) = opcode_chunk3(mnemonic) {
        Some(op)
    } else if let Some(op) = opcode_chunk4(mnemonic) {
        Some(op)
    } else {
        opcode_chunk5(mnemonic)
    }
}


/// First opcode of the push-variant family.
pub const PUSH_START: u8 = 0x60;

/// Last opcode of the push-variant family.
pub const PUSH_END: u8 = 0x7f;

/// The jump-target pseudo-opcode: its operand is a label reference that is
/// resolved to a one-byte address.
pub const PUSH: u8 = 0xb0;

/// The push-variant width of `op`: `Some(n)` with `n` in 1..=32 for the
/// push family, `None` for every other opcode.
pub open spec fn spec_is_push_variant(op: u8) -> Option<u8> {
    if PUSH_START <= op && op <= PUSH_END {
        Some((op - PUSH_START + 1) as u8)
    } else {
        None
    }
}

/// Push-variant test: `Some(width)` for the push family, `None` otherwise.
pub fn is_push_variant(op: u8) -> (r: Option<u8>)
    ensures
        r == spec_is_push_variant(op),
{
    if PUSH_START <= op && op <= PUSH_END {
        Some(op - PUSH_START + 1)
    } else {
        None
    }
}

/// How many operand bytes the opcode `op` carries in the output stream:
/// its push-variant width, 1 for the jump-target pseudo-opcode, else 0.
pub open spec fn spec_operand_width(op: u8) -> nat {
    if PUSH_START <= op && op <= PUSH_END {
        (op - PUSH_START + 1) as nat
    } else if op == PUSH {
        1
    } else {
        0
    }
}

/// The encoded length of an instruction with opcode `op`: the opcode byte
/// plus its operand bytes.  Never more than 33.
pub open spec fn spec_encoded_len(op: u8) -> nat {
    1 + spec_operand_width(op)
}

/// The encoded length, computed at address-resolution time.
pub fn encoded_len(op: u8) -> (r: usize)
    ensures
        r == spec_encoded_len(op),
        1 <= r <= 33,
{
    if PUSH_START <= op && op <= PUSH_END {
        2 + (op - PUSH_START) as usize
    } else if op == PUSH {
        2
    } else {
        1
    }
}

} // verus!


