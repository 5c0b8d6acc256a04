//! Pass 2: address resolution.
//!
//! A single left-to-right pass over the program items computes each
//! instruction's encoded length from its opcode, assigns it the running
//! byte address, and binds every label declaration to the address of the
//! nearest following instruction.  A label with no following instruction
//! is dangling, and re-declaring a name is a duplicate; both are fatal.

use vstd::prelude::*;

use crate::builder::{InsModel, Instruction, Item, ItemModel, LabelDeclModel, LabelDeclaration};
use crate::error::{AsmError, ErrModel};
use crate::opcode;

verus! {

/// The largest number of program items (instructions and labels) the
/// assembler accepts.  Each instruction occupies at most 33 output bytes,
/// so under this cap the running address fits comfortably in `usize` and
/// address arithmetic can never wrap.
pub const MAX_ITEMS: usize = 0x00FF_FFFF;

/// A label declaration whose address has been resolved: the address of
/// the instruction that immediately follows it in program order.
pub struct ResolvedLabel {
    pub name: String,
    pub resolved_address: usize,
    /// 1-based source line of the declaration.
    pub line: usize,
}

/// Ghost mirror of [`ResolvedLabel`].
pub struct ResolvedLabelModel {
    pub name: Seq<char>,
    pub resolved_address: nat,
    pub line: nat,
}

impl DeepView for ResolvedLabel {
    type V = ResolvedLabelModel;

    open spec fn deep_view(&self) -> ResolvedLabelModel {
        ResolvedLabelModel {
            name: self.name@,
            resolved_address: self.resolved_address as nat,
            line: self.line as nat,
        }
    }
}

/// The address bound to `name`: the first matching entry of the resolved
/// label list, or `None` when the name is unbound.
pub open spec fn spec_label_address(labels: Seq<ResolvedLabelModel>, name: Seq<char>) -> Option<
    nat,
>
    decreases labels.len(),
{
    if labels.len() == 0 {
        None
    } else if labels[0].name == name {
        Some(labels[0].resolved_address)
    } else {
        spec_label_address(labels.skip(1), name)
    }
}

/// Whether a not-yet-bound declaration of `name` is pending.
pub open spec fn spec_has_pending(pending: Seq<LabelDeclModel>, name: Seq<char>) -> bool {
    exists|i: int| 0 <= i < pending.len() && pending[i].name == name
}

/// Binds every pending declaration to the address `addr`.
pub open spec fn spec_bind_pending(pending: Seq<LabelDeclModel>, addr: nat) -> Seq<
    ResolvedLabelModel,
> {
    pending.map_values(
        |ld: LabelDeclModel|
            ResolvedLabelModel { name: ld.name, resolved_address: addr, line: ld.line },
    )
}

/// The resolution pass over the remaining `items`, with `cursor` the next
/// byte address, `labels` the names bound so far and `pending` the
/// declarations waiting for their instruction.  Returns the instructions
/// produced from `items` (addresses and encoded lengths assigned) and the
/// final label bindings.
pub open spec fn spec_resolve_go(
    items: Seq<ItemModel>,
    cursor: nat,
    labels: Seq<ResolvedLabelModel>,
    pending: Seq<LabelDeclModel>,
) -> Result<(Seq<InsModel>, Seq<ResolvedLabelModel>), ErrModel>
    decreases items.len(),
{
    if items.len() == 0 {
        if pending.len() > 0 {
            Err(ErrModel::DanglingLabel { line: pending[0].line, name: pending[0].name })
        } else {
            Ok((seq![], labels))
        }
    } else {
        match items[0] {
            ItemModel::Label(ld) => {
                if spec_label_address(labels, ld.name) is Some || spec_has_pending(
                    pending,
                    ld.name,
                ) {
                    Err(ErrModel::DuplicateLabel { line: ld.line, name: ld.name })
                } else {
                    spec_resolve_go(items.skip(1), cursor, labels, pending.push(ld))
                }
            },
            ItemModel::Ins(ins) => {
                let el = opcode::spec_encoded_len(ins.opcode);
                let resolved = InsModel { address: cursor, encoded_length: el, ..ins };
                match spec_resolve_go(
                    items.skip(1),
                    cursor + el,
                    labels + spec_bind_pending(pending, cursor),
                    seq![],
                ) {
                    Err(e) => Err(e),
                    Ok((rest, labs)) => Ok((seq![resolved] + rest, labs)),
                }
            },
        }
    }
}

/// What the resolver produces for the whole program.
pub open spec fn spec_resolve(items: Seq<ItemModel>) -> Result<
    (Seq<InsModel>, Seq<ResolvedLabelModel>),
    ErrModel,
> {
    spec_resolve_go(items, 0, seq![], seq![])
}

/// A fresh copy of a byte vector.
pub(crate) fn clone_bytes(v: &Vec<u8>) -> (r: Vec<u8>)
    ensures
        r@ == v@,
{
    let mut r: Vec<u8> = Vec::new();
    let mut i: usize = 0;
    while i < v.len()
        invariant
            i <= v@.len(),
            r@ == v@.subrange(0, i as int),
        decreases v@.len() - i,
    {
        r.push(v[i]);
        proof {
            assert(r@ =~= v@.subrange(0, i as int + 1));
        }
        i = i + 1;
    }
    proof {
        assert(v@.subrange(0, v@.len() as int) =~= v@);
    }
    r
}

/// The address bound to `name` so far, searched in binding order.
pub(crate) fn find_label(labels: &Vec<ResolvedLabel>, name: &String) -> (r: Option<usize>)
    ensures
        (match r {
            Some(a) => spec_label_address(labels.deep_view(), name@) == Some(a as nat),
            None => spec_label_address(labels.deep_view(), name@) is None,
        }),
{
    let ghost whole = labels.deep_view();
    let mut i: usize = 0;
    proof {
        assert(whole.skip(0) =~= whole);
    }
    while i < labels.len()
        invariant
            whole == labels.deep_view(),
            whole.len() == labels@.len(),
            i <= labels@.len(),
            spec_label_address(whole, name@) == spec_label_address(whole.skip(i as int), name@),
        decreases labels@.len() - i,
    {
        proof {
            assert(whole.skip(i as int)[0] == whole[i as int]);
            assert(whole.skip(i as int).skip(1) =~= whole.skip(i as int + 1));
        }
        if labels[i].name.eq(name) {
            return Some(labels[i].resolved_address);
        }
        i = i + 1;
    }
    proof {
        assert(whole.skip(labels@.len() as int).len() == 0);
    }
    None
}

/// Whether `name` is among the pending declarations.
fn pending_has(pending: &Vec<LabelDeclaration>, name: &String) -> (r: bool)
    ensures
        r == spec_has_pending(pending.deep_view(), name@),
{
    let ghost whole = pending.deep_view();
    let mut i: usize = 0;
    while i < pending.len()
        invariant
            whole == pending.deep_view(),
            whole.len() == pending@.len(),
            i <= pending@.len(),
            forall|j: int| 0 <= j < i ==> whole[j].name != name@,
        decreases pending@.len() - i,
    {
        if pending[i].name.eq(name) {
            proof {
                assert(whole[i as int].name == name@);
            }
            return true;
        }
        i = i + 1;
    }
    false
}

/// Assigns encoded lengths and byte addresses to every instruction and
/// binds every label to the address of the instruction that follows it.
/// Fails on a duplicate label name or on a declaration with no following
/// instruction.
pub fn resolve(items: &Vec<Item>) -> (r: Result<(Vec<Instruction>, Vec<ResolvedLabel>), AsmError>)
    requires
        items@.len() <= MAX_ITEMS,
    ensures
        (match r {
            Ok(p) => spec_resolve(items.deep_view()) == Ok::<
                (Seq<InsModel>, Seq<ResolvedLabelModel>),
                ErrModel,
            >((p.0.deep_view(), p.1.deep_view())),
            Err(e) => spec_resolve(items.deep_view()) == Err::<
                (Seq<InsModel>, Seq<ResolvedLabelModel>),
                ErrModel,
            >(e@),
        }),
{
    let ghost whole = items.deep_view();
    let mut out: Vec<Instruction> = Vec::new();
    let mut labels: Vec<ResolvedLabel> = Vec::new();
    let mut pending: Vec<LabelDeclaration> = Vec::new();
    let mut cursor: usize = 0;
    let mut i: usize = 0;
    proof {
        assert(whole.skip(0) =~= whole);
        assert(out.deep_view() =~= Seq::<InsModel>::empty());
        assert(labels.deep_view() =~= Seq::<ResolvedLabelModel>::empty());
        assert(pending.deep_view() =~= Seq::<LabelDeclModel>::empty());
    }
    while i < items.len()
        invariant
            whole == items.deep_view(),
            whole.len() == items@.len(),
            items@.len() <= MAX_ITEMS,
            i <= items@.len(),
            cursor <= 33 * i,
            (match spec_resolve_go(
                whole.skip(i as int),
                cursor as nat,
                labels.deep_view(),
                pending.deep_view(),
            ) {
                Ok(p) => spec_resolve(whole) == Ok::<
                    (Seq<InsModel>, Seq<ResolvedLabelModel>),
                    ErrModel,
                >((out.deep_view() + p.0, p.1)),
                Err(e) => spec_resolve(whole) == Err::<
                    (Seq<InsModel>, Seq<ResolvedLabelModel>),
                    ErrModel,
                >(e),
            }),
        decreases items@.len() - i,
    {
        proof {
            assert(whole.skip(i as int)[0] == whole[i as int]);
            assert(whole.skip(i as int).skip(1) =~= whole.skip(i as int + 1));
            assert(items@[i as int].deep_view() == whole[i as int]);
        }
        match &items[i] {
            Item::Label(ld) => {
                if find_label(&labels, &ld.name).is_some() {
                    return Err(AsmError::DuplicateLabel { line: ld.line, name: ld.name.clone() });
                }
                if pending_has(&pending, &ld.name) {
                    return Err(AsmError::DuplicateLabel { line: ld.line, name: ld.name.clone() });
                }
                let ghost prev = pending.deep_view();
                pending.push(LabelDeclaration { name: ld.name.clone(), line: ld.line });
                proof {
                    assert(pending.deep_view() =~= prev.push(ld.deep_view()));
                }
            },
            Item::Ins(ins) => {
                let el = opcode::encoded_len(ins.opcode);
                let operand_bytes: Option<Vec<u8>> = match &ins.operand_bytes {
                    None => None,
                    Some(v) => Some(clone_bytes(v)),
                };
                let raw_operand_text: Option<String> = match &ins.raw_operand_text {
                    None => None,
                    Some(s) => Some(s.clone()),
                };
                let resolved = Instruction {
                    address: cursor,
                    opcode: ins.opcode,
                    operand_bytes,
                    raw_operand_text,
                    encoded_length: el,
                    line: ins.line,
                };
                let ghost prev_out = out.deep_view();
                let ghost ins_model = (match whole[i as int] {
                    ItemModel::Ins(m) => m,
                    ItemModel::Label(l) => arbitrary(),
                });
                proof {
                    assert(resolved.deep_view() == InsModel {
                        address: cursor as nat,
                        encoded_length: opcode::spec_encoded_len(ins.opcode),
                        ..ins_model
                    });
                }
                out.push(resolved);
                proof {
                    assert(out.deep_view() =~= prev_out + seq![out@[out@.len() - 1].deep_view()]);
                }
                // Bind every pending declaration to this instruction's address.
                let ghost prev_labels = labels.deep_view();
                let ghost pend = pending.deep_view();
                let mut k: usize = 0;
                while k < pending.len()
                    invariant
                        pend == pending.deep_view(),
                        pend.len() == pending@.len(),
                        k <= pending@.len(),
                        labels.deep_view() == prev_labels + spec_bind_pending(
                            pend,
                            cursor as nat,
                        ).take(k as int),
                    decreases pending@.len() - k,
                {
                    let ghost before = labels.deep_view();
                    labels.push(
                        ResolvedLabel {
                            name: pending[k].name.clone(),
                            resolved_address: cursor,
                            line: pending[k].line,
                        },
                    );
                    proof {
                        assert(labels.deep_view() =~= before.push(
                            labels@[labels@.len() - 1].deep_view(),
                        ));
                        assert(spec_bind_pending(pend, cursor as nat)[k as int]
                            == labels@[labels@.len() - 1].deep_view());
                        assert(spec_bind_pending(pend, cursor as nat).take(k as int).push(
                            spec_bind_pending(pend, cursor as nat)[k as int],
                        ) =~= spec_bind_pending(pend, cursor as nat).take(k as int + 1));
                    }
                    k = k + 1;
                }
                proof {
                    assert(spec_bind_pending(pend, cursor as nat).take(pend.len() as int)
                        =~= spec_bind_pending(pend, cursor as nat));
                }
                pending = Vec::new();
                proof {
                    assert(pending.deep_view() =~= Seq::<LabelDeclModel>::empty());
                }
                cursor = cursor + el;
                proof {
                    if spec_resolve_go(
                        whole.skip(i as int + 1),
                        cursor as nat,
                        labels.deep_view(),
                        pending.deep_view(),
                    ) is Ok {
                        let p = spec_resolve_go(
                            whole.skip(i as int + 1),
                            cursor as nat,
                            labels.deep_view(),
                            pending.deep_view(),
                        )->Ok_0;
                        assert((prev_out + (seq![resolved.deep_view()] + p.0)) =~= (prev_out
                            + seq![resolved.deep_view()]) + p.0);
                    }
                }
            },
        }
        i = i + 1;
    }
    proof {
        assert(whole.skip(items@.len() as int).len() == 0);
    }
    if pending.len() > 0 {
        return Err(
            AsmError::DanglingLabel { line: pending[0].line, name: pending[0].name.clone() },
        );
    }
    proof {
        assert(out.deep_view() + Seq::<InsModel>::empty() =~= out.deep_view());
    }
    Ok((out, labels))
}

} // verus!
