//! Pass 3: operand encoding.
//!
//! Jump-target instructions look their label up in the resolved bindings
//! and encode the address as a single byte (the committed address width of
//! this design; larger addresses are truncated, a documented limitation).
//! Push-variant instructions parse their literal: `0x` followed by an even
//! number of hex digits, read pairwise most-significant first and
//! zero-padded or truncated on the left to the opcode's width, or an
//! unsigned decimal of at most 38 digits, encoded big-endian at exactly
//! that width.  Anything else is a malformed operand.

use vstd::prelude::*;

use crate::builder::{InsModel, Instruction};
use crate::error::{AsmError, ErrModel};
use crate::opcode;
use crate::resolver::{spec_label_address, ResolvedLabel, ResolvedLabelModel};

verus! {

/// The largest number of decimal digits accepted in a literal operand;
/// every such literal fits in 128 bits.
pub const MAX_DEC_DIGITS: usize = 38;

/// Whether `c` is a hexadecimal digit (either case).
pub open spec fn spec_is_hex_digit(c: char) -> bool {
    ('0' <= c && c <= '9') || ('a' <= c && c <= 'f') || ('A' <= c && c <= 'F')
}

/// The value of the hexadecimal digit `c`.
pub open spec fn spec_hex_val(c: char) -> u8 {
    if '0' <= c && c <= '9' {
        (c as u8 - 48) as u8
    } else if 'a' <= c && c <= 'f' {
        (c as u8 - 87) as u8
    } else {
        (c as u8 - 55) as u8
    }
}

/// Whether `d` is a well-formed run of hex digits: even length (two digits
/// per byte), all digits hexadecimal.
pub open spec fn spec_hex_ok(d: Seq<char>) -> bool {
    d.len() % 2 == 0 && (forall|i: int| 0 <= i < d.len() ==> spec_is_hex_digit(#[trigger] d[i]))
}

/// The bytes denoted by the hex digit run `d`, most significant first.
pub open spec fn spec_hex_bytes(d: Seq<char>) -> Seq<u8>
    decreases d.len(),
{
    if d.len() < 2 {
        seq![]
    } else {
        seq![(spec_hex_val(d[0]) * 16 + spec_hex_val(d[1])) as u8] + spec_hex_bytes(d.skip(2))
    }
}

/// `b` left-padded with zero bytes, or left-truncated, to exactly `w`
/// bytes: the least significant `w` bytes survive.
pub open spec fn spec_pad_trunc(w: nat, b: Seq<u8>) -> Seq<u8> {
    if b.len() <= w {
        Seq::new((w - b.len()) as nat, |i: int| 0u8) + b
    } else {
        b.skip(b.len() - w)
    }
}

/// Whether `c` is a decimal digit.
pub open spec fn spec_is_dec_digit(c: char) -> bool {
    '0' <= c && c <= '9'
}

/// Whether `d` is a well-formed decimal literal: nonempty, at most
/// [`MAX_DEC_DIGITS`] digits, all decimal.
pub open spec fn spec_dec_ok(d: Seq<char>) -> bool {
    1 <= d.len() <= MAX_DEC_DIGITS && (forall|i: int|
        0 <= i < d.len() ==> spec_is_dec_digit(#[trigger] d[i]))
}

/// The value of the decimal literal `d`.
pub open spec fn spec_dec_val(d: Seq<char>) -> nat
    decreases d.len(),
{
    if d.len() == 0 {
        0
    } else {
        spec_dec_val(d.take(d.len() - 1)) * 10 + (d.last() as u8 - 48) as nat
    }
}

/// `10 ^ n`.
pub open spec fn spec_pow10(n: nat) -> nat
    decreases n,
{
    if n == 0 {
        1
    } else {
        10 * spec_pow10((n - 1) as nat)
    }
}

/// `256 ^ n`.
pub open spec fn spec_pow256(n: nat) -> nat
    decreases n,
{
    if n == 0 {
        1
    } else {
        256 * spec_pow256((n - 1) as nat)
    }
}

/// The value `v`, modulo `256 ^ w`, as exactly `w` big-endian bytes.
pub open spec fn spec_be_bytes(w: nat, v: nat) -> Seq<u8>
    decreases w,
{
    if w == 0 {
        seq![]
    } else {
        spec_be_bytes((w - 1) as nat, v / 256).push((v % 256) as u8)
    }
}

/// What parsing the literal operand `text` at width `w` yields: the
/// padded/truncated hex bytes after a `0x` prefix, the big-endian encoding
/// of a decimal literal, or nothing when the text is malformed under the
/// rule its prefix selects.
pub open spec fn spec_parse_operand(text: Seq<char>, w: nat) -> Option<Seq<u8>> {
    if text.len() >= 2 && text[0] == '0' && text[1] == 'x' {
        if spec_hex_ok(text.skip(2)) {
            Some(spec_pad_trunc(w, spec_hex_bytes(text.skip(2))))
        } else {
            None
        }
    } else {
        if spec_dec_ok(text) {
            Some(spec_be_bytes(w, spec_dec_val(text)))
        } else {
            None
        }
    }
}

/// What the operand encoder does to one resolved instruction: jump targets
/// get the one-byte (truncated) address of their label, push variants get
/// their parsed literal at the opcode's width, and every other instruction
/// passes through untouched.
pub open spec fn spec_encode_ins(ins: InsModel, labels: Seq<ResolvedLabelModel>) -> Result<
    InsModel,
    ErrModel,
> {
    if ins.opcode == opcode::PUSH {
        match ins.raw_operand_text {
            None => Err(ErrModel::MissingOperand { line: ins.line, opcode: ins.opcode }),
            Some(name) => match spec_label_address(labels, name) {
                None => Err(ErrModel::UndefinedLabel { line: ins.line, name }),
                Some(a) => Ok(InsModel { operand_bytes: Some(seq![(a % 256) as u8]), ..ins }),
            },
        }
    } else if opcode::PUSH_START <= ins.opcode && ins.opcode <= opcode::PUSH_END {
        match ins.raw_operand_text {
            None => Err(ErrModel::MissingOperand { line: ins.line, opcode: ins.opcode }),
            Some(text) => match spec_parse_operand(
                text,
                (ins.opcode - opcode::PUSH_START + 1) as nat,
            ) {
                None => Err(ErrModel::MalformedOperand { line: ins.line, text }),
                Some(bytes) => Ok(InsModel { operand_bytes: Some(bytes), ..ins }),
            },
        }
    } else {
        Ok(ins)
    }
}

/// The whole operand-encoding pass, in order, stopping at the first error.
pub open spec fn spec_encode(ins: Seq<InsModel>, labels: Seq<ResolvedLabelModel>) -> Result<
    Seq<InsModel>,
    ErrModel,
>
    decreases ins.len(),
{
    if ins.len() == 0 {
        Ok(seq![])
    } else {
        match spec_encode_ins(ins[0], labels) {
            Err(e) => Err(e),
            Ok(enc) => match spec_encode(ins.skip(1), labels) {
                Err(e) => Err(e),
                Ok(rest) => Ok(seq![enc] + rest),
            },
        }
    }
}

/// Hex digit test matching [`spec_is_hex_digit`], with the digit's value.
fn hex_val(c: char) -> (r: Option<u8>)
    ensures
        r is Some <==> spec_is_hex_digit(c),
        r is Some ==> r->0 == spec_hex_val(c) && r->0 <= 15,
{
    if '0' <= c && c <= '9' {
        Some(c as u8 - 48)
    } else if 'a' <= c && c <= 'f' {
        Some(c as u8 - 87)
    } else if 'A' <= c && c <= 'F' {
        Some(c as u8 - 55)
    } else {
        None
    }
}

/// Appending one digit pair appends one byte to the denoted byte run.
proof fn lemma_hex_bytes_snoc(d: Seq<char>, k: int)
    requires
        0 <= k,
        k % 2 == 0,
        k + 2 <= d.len(),
    ensures
        spec_hex_bytes(d.take(k + 2)) == spec_hex_bytes(d.take(k)) + seq![
            (spec_hex_val(d[k]) * 16 + spec_hex_val(d[k + 1])) as u8,
        ],
    decreases k,
{
    if k == 0 {
        reveal_with_fuel(spec_hex_bytes, 3);
        assert(d.take(2).skip(2) =~= Seq::<char>::empty());
        assert(d.take(0) =~= Seq::<char>::empty());
        assert(d.take(2)[0] == d[0] && d.take(2)[1] == d[1]);
        assert(spec_hex_bytes(d.take(2)) =~= seq![
            (spec_hex_val(d[0]) * 16 + spec_hex_val(d[1])) as u8,
        ]);
        assert(spec_hex_bytes(d.take(0)) + seq![
            (spec_hex_val(d[0]) * 16 + spec_hex_val(d[1])) as u8,
        ] =~= seq![(spec_hex_val(d[0]) * 16 + spec_hex_val(d[1])) as u8]);
    } else {
        lemma_hex_bytes_snoc(d.skip(2), k - 2);
        assert(d.take(k + 2).skip(2) =~= d.skip(2).take(k));
        assert(d.take(k).skip(2) =~= d.skip(2).take(k - 2));
        assert(d.skip(2)[k - 2] == d[k] && d.skip(2)[k - 1] == d[k + 1]);
        assert(d.take(k + 2)[0] == d[0] && d.take(k + 2)[1] == d[1]);
        assert(d.take(k)[0] == d[0] && d.take(k)[1] == d[1]);
        let b0 = seq![(spec_hex_val(d[0]) * 16 + spec_hex_val(d[1])) as u8];
        let bk = seq![(spec_hex_val(d[k]) * 16 + spec_hex_val(d[k + 1])) as u8];
        assert(spec_hex_bytes(d.take(k + 2)) == b0 + spec_hex_bytes(d.skip(2).take(k)));
        assert(spec_hex_bytes(d.skip(2).take(k)) == spec_hex_bytes(d.skip(2).take(k - 2)) + bk);
        assert(spec_hex_bytes(d.take(k)) == b0 + spec_hex_bytes(d.skip(2).take(k - 2)));
        assert(b0 + (spec_hex_bytes(d.skip(2).take(k - 2)) + bk) =~= (b0 + spec_hex_bytes(
            d.skip(2).take(k - 2),
        )) + bk);
    }
}

/// `10 ^ n` is monotone.
proof fn lemma_pow10_mono(a: nat, b: nat)
    requires
        a <= b,
    ensures
        spec_pow10(a) <= spec_pow10(b),
    decreases b,
{
    if a < b {
        lemma_pow10_mono(a, (b - 1) as nat);
        assert(spec_pow10(b) == 10 * spec_pow10((b - 1) as nat));
        assert(spec_pow10((b - 1) as nat) >= 1) by {
            lemma_pow10_pos((b - 1) as nat);
        }
    }
}

/// `10 ^ n` is positive.
proof fn lemma_pow10_pos(n: nat)
    ensures
        spec_pow10(n) >= 1,
    decreases n,
{
    if n > 0 {
        lemma_pow10_pos((n - 1) as nat);
    }
}

/// The numeric bound behind [`MAX_DEC_DIGITS`]: every literal of at most
/// 38 digits fits in 128 bits.
proof fn lemma_pow10_38_fits()
    ensures
        spec_pow10(38) <= u128::MAX,
{
    assert(spec_pow10(38) == 100000000000000000000000000000000000000) by {
        reveal_with_fuel(spec_pow10, 39);
    }
}

/// A decimal literal's value is below `10 ^ digits`.
proof fn lemma_dec_val_bound(d: Seq<char>)
    requires
        forall|i: int| 0 <= i < d.len() ==> spec_is_dec_digit(#[trigger] d[i]),
    ensures
        spec_dec_val(d) < spec_pow10(d.len()),
    decreases d.len(),
{
    if d.len() == 0 {
    } else {
        let p = d.take(d.len() - 1);
        lemma_dec_val_bound(p);
        assert(spec_pow10(d.len()) == 10 * spec_pow10(p.len()));
        assert((d.last() as u8 - 48) as nat <= 9);
        assert(spec_dec_val(p) * 10 + 9 < 10 * spec_pow10(p.len())) by (nonlinear_arith)
            requires
                spec_dec_val(p) < spec_pow10(p.len()),
        ;
    }
}

/// Prepending the most significant byte: `w + 1` bytes of `v` are the byte
/// `(v / 256^w) % 256` followed by the `w` low bytes of `v`.
proof fn lemma_be_bytes_prepend(w: nat, v: nat)
    ensures
        spec_be_bytes(w + 1, v) == seq![((v / spec_pow256(w)) % 256) as u8] + spec_be_bytes(w, v),
    decreases w,
{
    if w == 0 {
        reveal_with_fuel(spec_be_bytes, 3);
        assert(spec_pow256(0) == 1);
        vstd::arithmetic::div_mod::lemma_div_basics_2(v as int);
        assert(v / 1 == v);
        assert(spec_be_bytes(1, v) =~= seq![(v % 256) as u8]);
        assert(seq![((v / 1) % 256) as u8] + spec_be_bytes(0, v) =~= seq![(v % 256) as u8]);
    } else {
        lemma_be_bytes_prepend((w - 1) as nat, v / 256);
        assert((v / 256) / spec_pow256((w - 1) as nat) == v / (256 * spec_pow256((w - 1) as nat)))
            by {
            lemma_pow256_pos((w - 1) as nat);
            vstd::arithmetic::div_mod::lemma_div_denominator(
                v as int,
                256,
                spec_pow256((w - 1) as nat) as int,
            );
        }
        assert(spec_pow256(w) == 256 * spec_pow256((w - 1) as nat));
        let b = seq![((v / spec_pow256(w)) % 256) as u8];
        assert(spec_be_bytes(w, v / 256) == b + spec_be_bytes((w - 1) as nat, v / 256));
        assert((b + spec_be_bytes((w - 1) as nat, v / 256)).push((v % 256) as u8) =~= b
            + spec_be_bytes((w - 1) as nat, v / 256).push((v % 256) as u8));
    }
}

/// `256 ^ n` is positive.
proof fn lemma_pow256_pos(n: nat)
    ensures
        spec_pow256(n) >= 1,
    decreases n,
{
    if n > 0 {
        lemma_pow256_pos((n - 1) as nat);
    }
}

/// `v` as exactly `w` big-endian bytes (the low `w` bytes of `v`).
fn be_bytes_exec(w: usize, v0: u128) -> (r: Vec<u8>)
    ensures
        r@ == spec_be_bytes(w as nat, v0 as nat),
{
    let mut r: Vec<u8> = Vec::new();
    let mut v: u128 = v0;
    let mut j: usize = 0;
    proof {
        vstd::arithmetic::div_mod::lemma_div_basics_2(v0 as int);
        assert(v0 as nat / spec_pow256(0) == v0 as nat);
    }
    while j < w
        invariant
            j <= w,
            r@ == spec_be_bytes(j as nat, v0 as nat),
            v as nat == v0 as nat / spec_pow256(j as nat),
        decreases w - j,
    {
        let ghost prev = r@;
        let b = (v % 256) as u8;
        r.insert(0, b);
        proof {
            lemma_be_bytes_prepend(j as nat, v0 as nat);
            assert(r@ =~= seq![b] + prev);
            assert(b == ((v0 as nat / spec_pow256(j as nat)) % 256) as u8);
        }
        v = v / 256;
        proof {
            lemma_pow256_pos(j as nat);
            vstd::arithmetic::div_mod::lemma_div_denominator(v0 as int, spec_pow256(
                j as nat,
            ) as int, 256);
            assert(spec_pow256(j as nat + 1) == 256 * spec_pow256(j as nat));
            assert(spec_pow256(j as nat) * 256 == 256 * spec_pow256(j as nat)) by (nonlinear_arith);
        }
        j = j + 1;
    }
    r
}

/// `b` left-padded with zeros or left-truncated to exactly `w` bytes.
fn pad_trunc_exec(w: usize, b: &Vec<u8>) -> (r: Vec<u8>)
    ensures
        r@ == spec_pad_trunc(w as nat, b@),
{
    let mut r: Vec<u8> = Vec::new();
    if b.len() <= w {
        let pad = w - b.len();
        let mut i: usize = 0;
        while i < pad
            invariant
                i <= pad,
                r@ =~= Seq::new(i as nat, |k: int| 0u8),
            decreases pad - i,
        {
            r.push(0);
            proof {
                assert(r@ =~= Seq::new(i as nat + 1, |k: int| 0u8));
            }
            i = i + 1;
        }
        let mut j: usize = 0;
        while j < b.len()
            invariant
                j <= b@.len(),
                w as int - b@.len() == pad,
                r@ =~= Seq::new(pad as nat, |k: int| 0u8) + b@.take(j as int),
            decreases b@.len() - j,
        {
            r.push(b[j]);
            proof {
                assert(r@ =~= Seq::new(pad as nat, |k: int| 0u8) + b@.take(j as int + 1));
            }
            j = j + 1;
        }
        proof {
            assert(b@.take(b@.len() as int) =~= b@);
        }
        r
    } else {
        let start = b.len() - w;
        let mut j: usize = start;
        while j < b.len()
            invariant
                start <= j <= b@.len(),
                start == b@.len() - w,
                r@ =~= b@.subrange(start as int, j as int),
            decreases b@.len() - j,
        {
            r.push(b[j]);
            proof {
                assert(r@ =~= b@.subrange(start as int, j as int + 1));
            }
            j = j + 1;
        }
        r
    }
}

/// Parses the literal operand `text` at width `w` bytes: `Some` encoded
/// bytes exactly when the text is well formed under the selected rule.
pub fn parse_operand(text: &str, w: usize) -> (r: Option<Vec<u8>>)
    ensures
        (match r {
            Some(v) => spec_parse_operand(text@, w as nat) == Some(v@),
            None => spec_parse_operand(text@, w as nat) is None,
        }),
{
    let n = text.unicode_len();
    if n >= 2 && text.get_char(0) == '0' && text.get_char(1) == 'x' {
        let ghost d = text@.skip(2);
        if (n - 2) % 2 != 0 {
            return None;
        }
        let mut bytes: Vec<u8> = Vec::new();
        let mut i: usize = 2;
        proof {
            assert(d.take(0) =~= Seq::<char>::empty());
        }
        while i < n
            invariant
                n == text@.len(),
                text@.len() >= 2 && text@[0] == '0' && text@[1] == 'x',
                d == text@.skip(2),
                2 <= i <= n,
                i % 2 == 0,
                n % 2 == 0,
                bytes@ == spec_hex_bytes(d.take(i - 2)),
                forall|k: int| 0 <= k < i - 2 ==> spec_is_hex_digit(#[trigger] d[k]),
            decreases n - i,
        {
            let c0 = text.get_char(i);
            let c1 = text.get_char(i + 1);
            proof {
                assert(d[i - 2] == text@[i as int]);
                assert(d[i - 1] == text@[i as int + 1]);
            }
            let v0 = match hex_val(c0) {
                None => {
                    proof {
                        assert(!spec_is_hex_digit(d[i - 2]));
                        assert(!spec_hex_ok(d));
                    }
                    return None;
                },
                Some(x) => x,
            };
            let v1 = match hex_val(c1) {
                None => {
                    proof {
                        assert(!spec_is_hex_digit(d[i - 1]));
                        assert(!spec_hex_ok(d));
                    }
                    return None;
                },
                Some(x) => x,
            };
            bytes.push(v0 * 16 + v1);
            proof {
                lemma_hex_bytes_snoc(d, i - 2);
                assert(bytes@ =~= spec_hex_bytes(d.take(i - 2)) + seq![
                    (spec_hex_val(d[i - 2]) * 16 + spec_hex_val(d[i - 1])) as u8,
                ]);
            }
            i = i + 2;
        }
        proof {
            assert(d.take(n - 2) =~= d);
            assert(spec_hex_ok(d));
        }
        Some(pad_trunc_exec(w, &bytes))
    } else {
        if n == 0 || n > MAX_DEC_DIGITS {
            return None;
        }
        let mut v: u128 = 0;
        let mut i: usize = 0;
        proof {
            assert(text@.take(0) =~= Seq::<char>::empty());
        }
        while i < n
            invariant
                n == text@.len(),
                !(text@.len() >= 2 && text@[0] == '0' && text@[1] == 'x'),
                1 <= n <= MAX_DEC_DIGITS,
                i <= n,
                v as nat == spec_dec_val(text@.take(i as int)),
                (v as nat) < spec_pow10(i as nat),
                forall|k: int| 0 <= k < i ==> spec_is_dec_digit(#[trigger] text@[k]),
            decreases n - i,
        {
            let c = text.get_char(i);
            if c < '0' || c > '9' {
                proof {
                    assert(!spec_is_dec_digit(text@[i as int]));
                    assert(!spec_dec_ok(text@));
                }
                return None;
            }
            let dig = c as u8 - 48;
            proof {
                lemma_pow10_mono(i as nat + 1, 38);
                lemma_pow10_38_fits();
                assert((v as nat) * 10 + 9 < 10 * spec_pow10(i as nat)) by (nonlinear_arith)
                    requires
                        (v as nat) < spec_pow10(i as nat),
                ;
                assert(10 * spec_pow10(i as nat) == spec_pow10(i as nat + 1));
            }
            v = v * 10 + (dig as u128);
            proof {
                assert(text@.take(i as int + 1).take(i as int) =~= text@.take(i as int));
                assert(text@.take(i as int + 1).last() == text@[i as int]);
            }
            i = i + 1;
        }
        proof {
            assert(text@.take(n as int) =~= text@);
            assert(spec_dec_ok(text@));
        }
        Some(be_bytes_exec(w, v))
    }
}

/// Encodes the operand of one resolved instruction against the label
/// bindings.
fn encode_ins(ins: &Instruction, labels: &Vec<ResolvedLabel>) -> (r: Result<Instruction, AsmError>)
    ensures
        (match r {
            Ok(e) => spec_encode_ins(ins.deep_view(), labels.deep_view()) == Ok::<
                InsModel,
                ErrModel,
            >(e.deep_view()),
            Err(e) => spec_encode_ins(ins.deep_view(), labels.deep_view()) == Err::<
                InsModel,
                ErrModel,
            >(e@),
        }),
{
    if ins.opcode == opcode::PUSH {
        match &ins.raw_operand_text {
            None => Err(AsmError::MissingOperand { line: ins.line, opcode: ins.opcode }),
            Some(name) => match crate::resolver::find_label(labels, name) {
                None => Err(AsmError::UndefinedLabel { line: ins.line, name: name.clone() }),
                Some(a) => {
                    let out = Instruction {
                        address: ins.address,
                        opcode: ins.opcode,
                        operand_bytes: Some(vec![(a % 256) as u8]),
                        raw_operand_text: Some(name.clone()),
                        encoded_length: ins.encoded_length,
                        line: ins.line,
                    };
                    proof {
                        assert(out.operand_bytes.deep_view() =~= Some(seq![(((a as nat) % 256)
                            as u8)]));
                        assert(out.deep_view() == InsModel {
                            operand_bytes: Some(seq![(((a as nat) % 256) as u8)]),
                            ..ins.deep_view()
                        });
                    }
                    Ok(out)
                },
            },
        }
    } else if opcode::PUSH_START <= ins.opcode && ins.opcode <= opcode::PUSH_END {
        match &ins.raw_operand_text {
            None => Err(AsmError::MissingOperand { line: ins.line, opcode: ins.opcode }),
            Some(text) => {
                let w = (ins.opcode - opcode::PUSH_START) as usize + 1;
                match parse_operand(text.as_str(), w) {
                    None => Err(
                        AsmError::MalformedOperand { line: ins.line, text: text.clone() },
                    ),
                    Some(bytes) => {
                        let ghost bv = bytes@;
                        let out = Instruction {
                            address: ins.address,
                            opcode: ins.opcode,
                            operand_bytes: Some(bytes),
                            raw_operand_text: Some(text.clone()),
                            encoded_length: ins.encoded_length,
                            line: ins.line,
                        };
                        proof {
                            assert(out.operand_bytes.deep_view() =~= Some(bv));
                            assert(out.deep_view() == InsModel {
                                operand_bytes: Some(bv),
                                ..ins.deep_view()
                            });
                        }
                        Ok(out)
                    },
                }
            },
        }
    } else {
        let operand_bytes: Option<Vec<u8>> = match &ins.operand_bytes {
            None => None,
            Some(v) => Some(crate::resolver::clone_bytes(v)),
        };
        let raw_operand_text: Option<String> = match &ins.raw_operand_text {
            None => None,
            Some(s) => Some(s.clone()),
        };
        let out = Instruction {
            address: ins.address,
            opcode: ins.opcode,
            operand_bytes,
            raw_operand_text,
            encoded_length: ins.encoded_length,
            line: ins.line,
        };
        proof {
            assert(out.operand_bytes.deep_view() == ins.operand_bytes.deep_view());
            assert(out.raw_operand_text.deep_view() == ins.raw_operand_text.deep_view());
            assert(out.deep_view() == ins.deep_view());
        }
        Ok(out)
    }
}

/// Encodes every instruction's operand, in order, stopping at the first
/// error.
pub fn encode_operands(ins: &Vec<Instruction>, labels: &Vec<ResolvedLabel>) -> (r: Result<
    Vec<Instruction>,
    AsmError,
>)
    ensures
        (match r {
            Ok(enc) => spec_encode(ins.deep_view(), labels.deep_view()) == Ok::<
                Seq<InsModel>,
                ErrModel,
            >(enc.deep_view()),
            Err(e) => spec_encode(ins.deep_view(), labels.deep_view()) == Err::<
                Seq<InsModel>,
                ErrModel,
            >(e@),
        }),
{
    let ghost whole = ins.deep_view();
    let ghost labs = labels.deep_view();
    let mut out: Vec<Instruction> = Vec::new();
    let mut i: usize = 0;
    proof {
        assert(whole.skip(0) =~= whole);
        assert(out.deep_view() =~= Seq::<InsModel>::empty());
    }
    while i < ins.len()
        invariant
            whole == ins.deep_view(),
            labs == labels.deep_view(),
            whole.len() == ins@.len(),
            i <= ins@.len(),
            (match spec_encode(whole.skip(i as int), labs) {
                Ok(rest) => spec_encode(whole, labs) == Ok::<Seq<InsModel>, ErrModel>(
                    out.deep_view() + rest,
                ),
                Err(e) => spec_encode(whole, labs) == Err::<Seq<InsModel>, ErrModel>(e),
            }),
        decreases ins@.len() - i,
    {
        let ghost prev = out.deep_view();
        proof {
            assert(whole.skip(i as int)[0] == whole[i as int]);
            assert(whole.skip(i as int).skip(1) =~= whole.skip(i as int + 1));
            assert(ins@[i as int].deep_view() == whole[i as int]);
        }
        match encode_ins(&ins[i], labels) {
            Err(e) => {
                return Err(e);
            },
            Ok(enc) => {
                out.push(enc);
                proof {
                    assert(out.deep_view() =~= prev + seq![out@[out@.len() - 1].deep_view()]);
                    if spec_encode(whole.skip(i as int + 1), labs) is Ok {
                        let rest = spec_encode(whole.skip(i as int + 1), labs)->Ok_0;
                        assert((prev + seq![out@[out@.len() - 1].deep_view()]) + rest =~= prev + (
                        seq![out@[out@.len() - 1].deep_view()] + rest));
                    }
                }
            },
        }
        i = i + 1;
    }
    proof {
        assert(whole.skip(ins@.len() as int).len() == 0);
        assert(out.deep_view() + Seq::<InsModel>::empty() =~= out.deep_view());
    }
    Ok(out)
}

} // verus!
