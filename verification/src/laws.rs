//! The guarantees of the pipeline, stated and proved over its
//! specification functions: determinism, address monotonicity, the
//! round-trip offset invariant, label-resolution correctness and
//! push-width correctness.

use vstd::prelude::*;

use crate::builder::{InsModel, ItemModel};
use crate::emitter::{spec_emit, spec_ins_bytes};
use crate::encoder::{spec_encode, spec_encode_ins, spec_parse_operand};
use crate::error::ErrModel;
use crate::opcode;
use crate::resolver::{
    spec_bind_pending, spec_label_address, spec_resolve, spec_resolve_go, ResolvedLabelModel,
};

verus! {

/// Determinism: the whole translation is a mathematical function of the
/// source text, so assembling the same source twice yields byte-identical
/// output.  `assemble` returns exactly `spec_assemble` of its input, and
/// equal inputs give equal results.
pub proof fn lemma_determinism(a: Seq<char>, b: Seq<char>)
    requires
        a == b,
    ensures
        crate::spec_assemble(a) == crate::spec_assemble(b),
{
}

/// The instructions that resolution produces from `items`, starting at
/// byte address `cursor`: addresses start at the cursor, lengths are
/// computed from the opcode, every address is the previous address plus
/// the previous length, and operands stay as they were (absent, for a
/// freshly built program).
proof fn lemma_resolve_go_addresses(
    items: Seq<ItemModel>,
    cursor: nat,
    labels: Seq<ResolvedLabelModel>,
    pending: Seq<crate::builder::LabelDeclModel>,
)
    requires
        spec_resolve_go(items, cursor, labels, pending) is Ok,
    ensures
        ({
            let ins = spec_resolve_go(items, cursor, labels, pending)->Ok_0.0;
            &&& ins.len() > 0 ==> ins[0].address == cursor
            &&& forall|i: int|
                0 <= i < ins.len() ==> (#[trigger] ins[i].encoded_length)
                    == opcode::spec_encoded_len(ins[i].opcode)
            &&& forall|i: int|
                0 <= i < ins.len() - 1 ==> (#[trigger] ins[i + 1].address) == ins[i].address
                    + ins[i].encoded_length
        }),
    decreases items.len(),
{
    if items.len() == 0 {
    } else {
        match items[0] {
            ItemModel::Label(ld) => {
                lemma_resolve_go_addresses(items.skip(1), cursor, labels, pending.push(ld));
                assert(forall|i: int|
                    1 <= i < items.len() ==> items.skip(1)[i - 1] == #[trigger] items[i]);
            },
            ItemModel::Ins(m) => {
                let el = opcode::spec_encoded_len(m.opcode);
                let resolved = InsModel { address: cursor, encoded_length: el, ..m };
                lemma_resolve_go_addresses(
                    items.skip(1),
                    cursor + el,
                    labels + spec_bind_pending(pending, cursor),
                    seq![],
                );
                let rest = spec_resolve_go(
                    items.skip(1),
                    cursor + el,
                    labels + spec_bind_pending(pending, cursor),
                    seq![],
                )->Ok_0.0;
                let ins = spec_resolve_go(items, cursor, labels, pending)->Ok_0.0;
                assert(ins == seq![resolved] + rest);
                assert(ins[0] == resolved);
                assert forall|i: int| 1 <= i < ins.len() implies #[trigger] ins[i] == rest[i
                    - 1] by {
                    assert(ins[i] == (seq![resolved] + rest)[i]);
                }
                assert forall|i: int| 0 <= i < ins.len() - 1 implies (#[trigger] ins[i
                    + 1].address) == ins[i].address + ins[i].encoded_length by {
                    if i == 0 {
                        if rest.len() > 0 {
                            assert(rest[0].address == cursor + el);
                        }
                    } else {
                        let j = i - 1;
                        assert(ins[i + 1] == rest[j + 1]);
                        assert(ins[i] == rest[j]);
                        assert(rest[j + 1].address == rest[j].address + rest[j].encoded_length);
                    }
                }
            },
        }
    }
}

/// Address monotonicity: after resolution, the first instruction sits at
/// address 0 and every further instruction sits at the previous address
/// plus the previous encoded length; every length is determined by the
/// opcode alone.
pub proof fn lemma_address_monotonic(items: Seq<ItemModel>)
    requires
        spec_resolve(items) is Ok,
    ensures
        ({
            let ins = spec_resolve(items)->Ok_0.0;
            &&& ins.len() > 0 ==> ins[0].address == 0
            &&& forall|i: int|
                0 <= i < ins.len() ==> (#[trigger] ins[i].encoded_length)
                    == opcode::spec_encoded_len(ins[i].opcode)
            &&& forall|i: int|
                0 <= i < ins.len() - 1 ==> (#[trigger] ins[i + 1].address) == ins[i].address
                    + ins[i].encoded_length
        }),
{
    lemma_resolve_go_addresses(items, 0, seq![], seq![]);
}

/// Operands are absent in a freshly built program: the builder leaves
/// `operand_bytes` unset on every instruction.
pub proof fn lemma_build_operands_none(tls: Seq<crate::tokenizer::TokenLineModel>)
    requires
        crate::builder::spec_build(tls) is Ok,
    ensures
        ({
            let items = crate::builder::spec_build(tls)->Ok_0;
            forall|i: int|
                0 <= i < items.len() && items[i] is Ins ==> (#[trigger] items[i])->Ins_0.operand_bytes
                    is None
        }),
    decreases tls.len(),
{
    if tls.len() != 0 {
        lemma_build_operands_none(tls.skip(1));
        let items = crate::builder::spec_build(tls)->Ok_0;
        let rest = crate::builder::spec_build(tls.skip(1))->Ok_0;
        assert forall|i: int|
            0 <= i < items.len() && items[i] is Ins implies (#[trigger] items[i])->Ins_0.operand_bytes
            is None by {
            if i > 0 {
                assert(items[i] == rest[i - 1]);
            }
        }
    }
}

/// Resolution does not touch operands: if no input instruction carries
/// operand bytes, no output instruction does.
proof fn lemma_resolve_go_operands(
    items: Seq<ItemModel>,
    cursor: nat,
    labels: Seq<ResolvedLabelModel>,
    pending: Seq<crate::builder::LabelDeclModel>,
)
    requires
        spec_resolve_go(items, cursor, labels, pending) is Ok,
        forall|i: int|
            0 <= i < items.len() && items[i] is Ins ==> (#[trigger] items[i])->Ins_0.operand_bytes
                is None,
    ensures
        ({
            let ins = spec_resolve_go(items, cursor, labels, pending)->Ok_0.0;
            forall|i: int| 0 <= i < ins.len() ==> (#[trigger] ins[i].operand_bytes) is None
        }),
    decreases items.len(),
{
    if items.len() != 0 {
        assert(forall|i: int|
            1 <= i < items.len() ==> items.skip(1)[i - 1] == #[trigger] items[i]);
        match items[0] {
            ItemModel::Label(ld) => {
                lemma_resolve_go_operands(items.skip(1), cursor, labels, pending.push(ld));
            },
            ItemModel::Ins(m) => {
                let el = opcode::spec_encoded_len(m.opcode);
                lemma_resolve_go_operands(
                    items.skip(1),
                    cursor + el,
                    labels + spec_bind_pending(pending, cursor),
                    seq![],
                );
                let rest = spec_resolve_go(
                    items.skip(1),
                    cursor + el,
                    labels + spec_bind_pending(pending, cursor),
                    seq![],
                )->Ok_0.0;
                let ins = spec_resolve_go(items, cursor, labels, pending)->Ok_0.0;
                assert forall|i: int| 0 <= i < ins.len() implies (#[trigger] ins[i].operand_bytes)
                    is None by {
                    if i > 0 {
                        assert(ins[i] == rest[i - 1]);
                    }
                }
            },
        }
    }
}

/// Encoding is pointwise: on success every output instruction is exactly
/// what `spec_encode_ins` makes of the input instruction at that index.
pub proof fn lemma_encode_pointwise(ins: Seq<InsModel>, labels: Seq<ResolvedLabelModel>)
    requires
        spec_encode(ins, labels) is Ok,
    ensures
        ({
            let enc = spec_encode(ins, labels)->Ok_0;
            &&& enc.len() == ins.len()
            &&& forall|i: int|
                0 <= i < ins.len() ==> spec_encode_ins(#[trigger] ins[i], labels) == Ok::<
                    InsModel,
                    ErrModel,
                >(enc[i])
        }),
    decreases ins.len(),
{
    if ins.len() != 0 {
        lemma_encode_pointwise(ins.skip(1), labels);
        let enc = spec_encode(ins, labels)->Ok_0;
        let rest = spec_encode(ins.skip(1), labels)->Ok_0;
        assert forall|i: int|
            0 <= i < ins.len() implies spec_encode_ins(#[trigger] ins[i], labels) == Ok::<
            InsModel,
            ErrModel,
        >(enc[i]) by {
            if i > 0 {
                assert(ins[i] == ins.skip(1)[i - 1]);
                assert(enc[i] == rest[i - 1]);
            }
        }
    }
}

/// `w` big-endian bytes are `w` bytes.
pub proof fn lemma_be_bytes_len(w: nat, v: nat)
    ensures
        crate::encoder::spec_be_bytes(w, v).len() == w,
    decreases w,
{
    if w > 0 {
        lemma_be_bytes_len((w - 1) as nat, v / 256);
    }
}

/// A successfully parsed literal operand has exactly the opcode's width.
pub proof fn lemma_parse_operand_len(text: Seq<char>, w: nat)
    requires
        spec_parse_operand(text, w) is Some,
    ensures
        spec_parse_operand(text, w)->0.len() == w,
{
    if text.len() >= 2 && text[0] == '0' && text[1] == 'x' {
    } else {
        lemma_be_bytes_len(w, crate::encoder::spec_dec_val(text));
    }
}

/// What one encoding step preserves and produces: address, opcode, length
/// and source line survive, and the emitted bytes of the result are
/// exactly `encoded_length` long.
proof fn lemma_encode_ins_len(m: InsModel, labels: Seq<ResolvedLabelModel>)
    requires
        spec_encode_ins(m, labels) is Ok,
        m.encoded_length == opcode::spec_encoded_len(m.opcode),
        (m.opcode != opcode::PUSH && !(opcode::PUSH_START <= m.opcode && m.opcode
            <= opcode::PUSH_END)) ==> m.operand_bytes is None,
    ensures
        ({
            let e = spec_encode_ins(m, labels)->Ok_0;
            &&& e.address == m.address
            &&& e.opcode == m.opcode
            &&& e.encoded_length == m.encoded_length
            &&& e.raw_operand_text == m.raw_operand_text
            &&& spec_ins_bytes(e).len() == e.encoded_length
        }),
{
    let e = spec_encode_ins(m, labels)->Ok_0;
    if m.opcode == opcode::PUSH {
        assert(e.operand_bytes->0 =~= seq![
            ((spec_label_address(labels, m.raw_operand_text->0)->0 % 256) as u8),
        ]);
    } else if opcode::PUSH_START <= m.opcode && m.opcode <= opcode::PUSH_END {
        let w = (m.opcode - opcode::PUSH_START + 1) as nat;
        lemma_parse_operand_len(m.raw_operand_text->0, w);
    }
}

/// The offsets of the emitted stream: under the resolver's address
/// discipline, each instruction's bytes begin at its address (counted
/// from `base`), so its opcode byte sits exactly there.
proof fn lemma_emit_offsets(enc: Seq<InsModel>, base: nat)
    requires
        enc.len() > 0 ==> enc[0].address == base,
        forall|i: int|
            0 <= i < enc.len() ==> spec_ins_bytes(#[trigger] enc[i]).len() == enc[i].encoded_length,
        forall|i: int|
            0 <= i < enc.len() - 1 ==> (#[trigger] enc[i + 1].address) == enc[i].address
                + enc[i].encoded_length,
    ensures
        forall|i: int|
            0 <= i < enc.len() ==> base <= (#[trigger] enc[i].address) && enc[i].address - base
                + enc[i].encoded_length <= spec_emit(enc).len() && spec_emit(enc)[enc[i].address
                - base] == enc[i].opcode,
    decreases enc.len(),
{
    if enc.len() > 0 {
        let el0 = enc[0].encoded_length;
        let rest = enc.skip(1);
        assert(forall|i: int| 0 <= i < rest.len() ==> #[trigger] rest[i] == enc[i + 1]);
        assert forall|i: int|
            0 <= i < rest.len() - 1 implies (#[trigger] rest[i + 1].address) == rest[i].address
            + rest[i].encoded_length by {
            assert(rest[i + 1] == enc[i + 2]);
            assert(rest[i] == enc[i + 1]);
            assert(enc[i + 1 + 1].address == enc[i + 1].address + enc[i + 1].encoded_length);
        }
        if rest.len() > 0 {
            let z: int = 0;
            assert(rest[z] == enc[z + 1]);
            assert(enc[z + 1].address == enc[z].address + enc[z].encoded_length);
        }
        lemma_emit_offsets(rest, base + el0);
        let whole = spec_emit(enc);
        let tail = spec_emit(rest);
        assert(whole == spec_ins_bytes(enc[0]) + tail);
        assert(spec_ins_bytes(enc[0]).len() == el0);
        assert forall|i: int|
            0 <= i < enc.len() implies base <= (#[trigger] enc[i].address) && enc[i].address - base
            + enc[i].encoded_length <= whole.len() && whole[enc[i].address - base]
            == enc[i].opcode by {
            if i == 0 {
                assert(whole[0] == spec_ins_bytes(enc[0])[0]);
                assert(spec_ins_bytes(enc[0])[0] == enc[0].opcode);
            } else {
                assert(enc[i] == rest[i - 1]);
                let off = enc[i].address - (base + el0);
                assert(tail[off] == enc[i].opcode);
                assert(whole[el0 + off] == tail[off]);
            }
        }
    }
}

/// Round-trip offset invariant: for a program built, resolved and
/// encoded by the pipeline, the opcode byte of instruction `i` appears in
/// the emitted output at offset `address(i)`, and the instruction's bytes
/// fit inside the output.
pub proof fn lemma_round_trip_offset(
    tls: Seq<crate::tokenizer::TokenLineModel>,
    items: Seq<ItemModel>,
    ins: Seq<InsModel>,
    labels: Seq<ResolvedLabelModel>,
    enc: Seq<InsModel>,
)
    requires
        crate::builder::spec_build(tls) == Ok::<Seq<ItemModel>, ErrModel>(items),
        spec_resolve(items) == Ok::<(Seq<InsModel>, Seq<ResolvedLabelModel>), ErrModel>(
            (ins, labels),
        ),
        spec_encode(ins, labels) == Ok::<Seq<InsModel>, ErrModel>(enc),
    ensures
        enc.len() == ins.len(),
        forall|i: int|
            0 <= i < enc.len() ==> (#[trigger] enc[i].address) == ins[i].address && enc[i].opcode
                == ins[i].opcode,
        forall|i: int|
            0 <= i < enc.len() ==> (#[trigger] enc[i].address) + enc[i].encoded_length <= spec_emit(
                enc,
            ).len() && spec_emit(enc)[enc[i].address as int] == enc[i].opcode,
{
    lemma_build_operands_none(tls);
    lemma_address_monotonic(items);
    lemma_resolve_go_operands(items, 0, seq![], seq![]);
    lemma_encode_pointwise(ins, labels);
    assert forall|i: int|
        0 <= i < enc.len() implies (#[trigger] enc[i].address) == ins[i].address && enc[i].opcode
        == ins[i].opcode && enc[i].encoded_length == ins[i].encoded_length by {
        lemma_encode_ins_len(ins[i], labels);
    }
    assert forall|i: int|
        0 <= i < enc.len() implies spec_ins_bytes(#[trigger] enc[i]).len()
        == enc[i].encoded_length by {
        lemma_encode_ins_len(ins[i], labels);
    }
    assert forall|i: int|
        0 <= i < enc.len() - 1 implies (#[trigger] enc[i + 1].address) == enc[i].address
        + enc[i].encoded_length by {
        assert(ins[i + 1].address == ins[i].address + ins[i].encoded_length);
    }
    if enc.len() > 0 {
        assert(enc[0].address == ins[0].address);
    }
    lemma_emit_offsets(enc, 0);
}



/// Whether some instruction of the program sits at address `a`.
pub open spec fn has_instruction_at(ins: Seq<InsModel>, a: nat) -> bool {
    exists|i: int| 0 <= i < ins.len() && (#[trigger] ins[i].address) == a
}

/// Pairwise distinctness of the bound label names.
pub open spec fn label_names_distinct(labels: Seq<ResolvedLabelModel>) -> bool {
    forall|i: int, j: int|
        0 <= i < j < labels.len() ==> (#[trigger] labels[i].name) != (#[trigger] labels[j].name)
}

/// Joint distinctness of the resolver's intermediate state: bound names,
/// pending names, and no name in both.
pub open spec fn state_names_distinct(
    labels: Seq<ResolvedLabelModel>,
    pending: Seq<crate::builder::LabelDeclModel>,
) -> bool {
    &&& label_names_distinct(labels)
    &&& forall|i: int, j: int|
        0 <= i < j < pending.len() ==> (#[trigger] pending[i].name) != (
        #[trigger] pending[j].name)
    &&& forall|i: int, j: int|
        0 <= i < labels.len() && 0 <= j < pending.len() ==> (#[trigger] labels[i].name) != (
        #[trigger] pending[j].name)
}

/// Lookup misses exactly the unbound names, and on a duplicate-free list
/// it returns the address of the one entry carrying the name.
pub proof fn lemma_label_address_char(labels: Seq<ResolvedLabelModel>, name: Seq<char>)
    ensures
        (spec_label_address(labels, name) is Some) <==> exists|i: int|
            0 <= i < labels.len() && (#[trigger] labels[i].name) == name,
        label_names_distinct(labels) ==> forall|k: int|
            0 <= k < labels.len() && (#[trigger] labels[k].name) == name ==> spec_label_address(
                labels,
                name,
            ) == Some(labels[k].resolved_address),
    decreases labels.len(),
{
    if labels.len() > 0 {
        lemma_label_address_char(labels.skip(1), name);
        assert(forall|i: int|
            1 <= i < labels.len() ==> labels.skip(1)[i - 1] == #[trigger] labels[i]);
        if spec_label_address(labels, name) is Some {
            if labels[0].name == name {
                assert(exists|i: int|
                    0 <= i < labels.len() && (#[trigger] labels[i].name) == name);
            } else {
                let w = choose|i: int|
                    0 <= i < labels.skip(1).len() && (#[trigger] labels.skip(1)[i].name) == name;
                assert(labels[w + 1].name == name);
            }
        }
        if exists|i: int| 0 <= i < labels.len() && (#[trigger] labels[i].name) == name {
            let w = choose|i: int| 0 <= i < labels.len() && (#[trigger] labels[i].name) == name;
            if w > 0 {
                assert(labels.skip(1)[w - 1].name == name);
            }
        }
        if label_names_distinct(labels) {
            assert forall|k: int|
                0 <= k < labels.len() && (#[trigger] labels[k].name) == name implies
                spec_label_address(labels, name) == Some(labels[k].resolved_address) by {
                if labels[0].name == name {
                    if k != 0 {
                        assert(labels[0].name != labels[k].name);
                    }
                } else {
                    assert(k > 0);
                    assert(labels.skip(1)[k - 1].name == name);
                }
            }
        }
    }
}

/// What resolution does to the label bindings: names stay pairwise
/// distinct, already-bound entries are kept unchanged, and every newly
/// bound entry carries the address of one of the produced instructions.
proof fn lemma_resolve_go_labels(
    items: Seq<ItemModel>,
    cursor: nat,
    labels: Seq<ResolvedLabelModel>,
    pending: Seq<crate::builder::LabelDeclModel>,
)
    requires
        spec_resolve_go(items, cursor, labels, pending) is Ok,
        state_names_distinct(labels, pending),
    ensures
        ({
            let r = spec_resolve_go(items, cursor, labels, pending)->Ok_0;
            &&& label_names_distinct(r.1)
            &&& r.1.len() >= labels.len()
            &&& forall|k: int| 0 <= k < labels.len() ==> #[trigger] r.1[k] == labels[k]
            &&& forall|k: int|
                #![trigger r.1[k]]
                labels.len() <= k < r.1.len() ==> has_instruction_at(
                    r.0,
                    r.1[k].resolved_address,
                )
        }),
    decreases items.len(),
{
    let r = spec_resolve_go(items, cursor, labels, pending)->Ok_0;
    if items.len() == 0 {
        assert(r.1 == labels);
    } else {
        match items[0] {
            ItemModel::Label(ld) => {
                lemma_label_address_char(labels, ld.name);
                assert(state_names_distinct(labels, pending.push(ld))) by {
                    assert(forall|j: int|
                        0 <= j < pending.len() ==> #[trigger] pending.push(ld)[j] == pending[j]);
                    assert(pending.push(ld)[pending.len() as int] == ld);
                }
                lemma_resolve_go_labels(items.skip(1), cursor, labels, pending.push(ld));
            },
            ItemModel::Ins(m) => {
                let el = opcode::spec_encoded_len(m.opcode);
                let resolved = InsModel { address: cursor, encoded_length: el, ..m };
                let labels1 = labels + spec_bind_pending(pending, cursor);
                assert(forall|j: int|
                    0 <= j < pending.len() ==> (#[trigger] spec_bind_pending(
                        pending,
                        cursor,
                    )[j]).name == pending[j].name && spec_bind_pending(
                        pending,
                        cursor,
                    )[j].resolved_address == cursor);
                assert(state_names_distinct(labels1, seq![])) by {
                    assert(forall|k: int|
                        0 <= k < labels.len() ==> #[trigger] labels1[k] == labels[k]);
                    assert(forall|k: int|
                        labels.len() <= k < labels1.len() ==> (#[trigger] labels1[k]).name
                            == pending[k - labels.len()].name);
                }
                lemma_resolve_go_labels(items.skip(1), cursor + el, labels1, seq![]);
                let rr = spec_resolve_go(items.skip(1), cursor + el, labels1, seq![])->Ok_0;
                assert(r.0 == seq![resolved] + rr.0);
                assert(r.1 == rr.1);
                assert(forall|i: int| 0 <= i < rr.0.len() ==> #[trigger] rr.0[i] == r.0[i + 1]);
                assert forall|k: int|
                    #![trigger r.1[k]]
                    labels.len() <= k < r.1.len() implies has_instruction_at(
                    r.0,
                    r.1[k].resolved_address,
                ) by {
                    if k < labels1.len() {
                        assert(r.1[k] == labels1[k]);
                        assert(r.1[k].resolved_address == cursor);
                        assert(r.0[0].address == cursor);
                    } else {
                        assert(rr.1[k] == r.1[k]);
                        assert(has_instruction_at(rr.0, rr.1[k].resolved_address));
                        let i = choose|i: int|
                            0 <= i < rr.0.len() && (#[trigger] rr.0[i].address)
                                == rr.1[k].resolved_address;
                        assert(r.0[i + 1].address == r.1[k].resolved_address);
                    }
                }
            },
        }
    }
}

/// Label bindings of a resolved program: pairwise-distinct names, each
/// bound to the address of one of the program's instructions.
pub proof fn lemma_resolve_labels(items: Seq<ItemModel>)
    requires
        spec_resolve(items) is Ok,
    ensures
        ({
            let r = spec_resolve(items)->Ok_0;
            &&& label_names_distinct(r.1)
            &&& forall|k: int|
                #![trigger r.1[k]]
                0 <= k < r.1.len() ==> has_instruction_at(r.0, r.1[k].resolved_address)
        }),
{
    lemma_resolve_go_labels(items, 0, seq![], seq![]);
    let r = spec_resolve(items)->Ok_0;
    let rg = spec_resolve_go(items, 0, seq![], seq![])->Ok_0;
    assert(rg == r);
    assert forall|k: int|
        #![trigger r.1[k]]
        0 <= k < r.1.len() implies has_instruction_at(r.0, r.1[k].resolved_address) by {
        assert(rg.1[k] == r.1[k]);
        assert(has_instruction_at(rg.0, rg.1[k].resolved_address));
    }
}

/// Label resolution correctness: a label bound to instruction `i` makes
/// every jump-target operand that references it encode exactly that
/// instruction's address (as the one committed address byte).
pub proof fn lemma_label_resolution(
    items: Seq<ItemModel>,
    ins: Seq<InsModel>,
    labels: Seq<ResolvedLabelModel>,
    enc: Seq<InsModel>,
    k: int,
    j: int,
)
    requires
        spec_resolve(items) == Ok::<(Seq<InsModel>, Seq<ResolvedLabelModel>), ErrModel>(
            (ins, labels),
        ),
        spec_encode(ins, labels) == Ok::<Seq<InsModel>, ErrModel>(enc),
        0 <= k < labels.len(),
        0 <= j < ins.len(),
        ins[j].opcode == opcode::PUSH,
        ins[j].raw_operand_text == Some(labels[k].name),
    ensures
        has_instruction_at(ins, labels[k].resolved_address),
        enc[j].operand_bytes == Some(seq![((labels[k].resolved_address % 256) as u8)]),
{
    lemma_resolve_labels(items);
    assert(labels[k] == spec_resolve(items)->Ok_0.1[k]);
    assert(has_instruction_at(ins, labels[k].resolved_address));
    lemma_label_address_char(labels, labels[k].name);
    assert(spec_label_address(labels, labels[k].name) == Some(labels[k].resolved_address));
    lemma_encode_pointwise(ins, labels);
    assert(spec_encode_ins(ins[j], labels) == Ok::<InsModel, ErrModel>(enc[j]));
}

/// Push width correctness: a push-variant instruction of width `w`
/// carries exactly `w` operand bytes, which are the parsed (big-endian,
/// width-padded/truncated) encoding of its literal, so it contributes
/// exactly `w + 1` bytes to the output.
pub proof fn lemma_push_width(
    ins: Seq<InsModel>,
    labels: Seq<ResolvedLabelModel>,
    enc: Seq<InsModel>,
    j: int,
    w: u8,
)
    requires
        spec_encode(ins, labels) == Ok::<Seq<InsModel>, ErrModel>(enc),
        0 <= j < ins.len(),
        opcode::spec_is_push_variant(ins[j].opcode) == Some(w),
    ensures
        ins[j].raw_operand_text is Some,
        spec_parse_operand(ins[j].raw_operand_text->0, w as nat) == Some(
            enc[j].operand_bytes->0,
        ),
        enc[j].operand_bytes->0.len() == w as nat,
        spec_ins_bytes(enc[j]).len() == w as nat + 1,
{
    lemma_encode_pointwise(ins, labels);
    assert(spec_encode_ins(ins[j], labels) == Ok::<InsModel, ErrModel>(enc[j]));
    lemma_parse_operand_len(ins[j].raw_operand_text->0, w as nat);
}


/// The round-trip offset invariant, stated at the top level: when
/// assembly succeeds, the output is the emission of the encoded program,
/// and the opcode byte of instruction `i` sits in the output at offset
/// `address(i)`.
pub proof fn lemma_assemble_offsets(src: Seq<char>)
    requires
        crate::spec_assemble(src) is Ok,
    ensures
        ({
            let tls = crate::tokenizer::spec_token_lines(src);
            let items = crate::builder::spec_build(tls)->Ok_0;
            let p = spec_resolve(items)->Ok_0;
            let enc = spec_encode(p.0, p.1)->Ok_0;
            let out = crate::spec_assemble(src)->Ok_0;
            &&& out == spec_emit(enc)
            &&& forall|i: int|
                0 <= i < enc.len() ==> (#[trigger] enc[i].address) + enc[i].encoded_length
                    <= out.len() && out[enc[i].address as int] == enc[i].opcode
        }),
{
    let tls = crate::tokenizer::spec_token_lines(src);
    let items = crate::builder::spec_build(tls)->Ok_0;
    let p = spec_resolve(items)->Ok_0;
    let enc = spec_encode(p.0, p.1)->Ok_0;
    lemma_round_trip_offset(tls, items, p.0, p.1, enc);
}

} // verus!
