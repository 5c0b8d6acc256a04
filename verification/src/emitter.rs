//! Pass 4: emission.
//!
//! The output byte stream is the concatenation, in address order, of each
//! instruction's opcode byte followed by its already-encoded operand
//! bytes.  No padding, no alignment, no separators.

use vstd::prelude::*;

use crate::builder::{InsModel, Instruction};

verus! {

/// The bytes one instruction contributes to the output: its opcode byte,
/// then its operand bytes, if any.
pub open spec fn spec_ins_bytes(i: InsModel) -> Seq<u8> {
    seq![i.opcode] + (match i.operand_bytes {
        Some(b) => b,
        None => seq![],
    })
}

/// The full output stream of the instruction sequence `ins`.
pub open spec fn spec_emit(ins: Seq<InsModel>) -> Seq<u8>
    decreases ins.len(),
{
    if ins.len() == 0 {
        seq![]
    } else {
        spec_ins_bytes(ins[0]) + spec_emit(ins.skip(1))
    }
}

/// A single instruction emits exactly its own bytes.
pub proof fn lemma_emit_one(i: InsModel)
    ensures
        spec_emit(seq![i]) == spec_ins_bytes(i),
{
    reveal_with_fuel(spec_emit, 3);
    assert(seq![i].skip(1) =~= Seq::<InsModel>::empty());
    assert(seq![i][0] == i);
    assert(spec_ins_bytes(i) + Seq::<u8>::empty() =~= spec_ins_bytes(i));
}

/// Emission distributes over concatenation of instruction sequences.
pub proof fn lemma_emit_append(a: Seq<InsModel>, b: Seq<InsModel>)
    ensures
        spec_emit(a + b) == spec_emit(a) + spec_emit(b),
    decreases a.len(),
{
    if a.len() == 0 {
        assert(a + b =~= b);
        assert(Seq::<u8>::empty() + spec_emit(b) =~= spec_emit(b));
    } else {
        lemma_emit_append(a.skip(1), b);
        assert((a + b).skip(1) =~= a.skip(1) + b);
        assert((a + b)[0] == a[0]);
        assert(spec_ins_bytes(a[0]) + (spec_emit(a.skip(1)) + spec_emit(b)) =~= (spec_ins_bytes(
            a[0],
        ) + spec_emit(a.skip(1))) + spec_emit(b));
    }
}

/// Concatenates opcode byte and operand bytes of every instruction, in
/// order, into the final output buffer.
pub fn emit(ins: &Vec<Instruction>) -> (r: Vec<u8>)
    ensures
        r@ == spec_emit(ins.deep_view()),
{
    let ghost whole = ins.deep_view();
    let mut r: Vec<u8> = Vec::new();
    let mut i: usize = 0;
    proof {
        assert(whole.take(0) =~= Seq::<InsModel>::empty());
        assert(r@ =~= spec_emit(whole.take(0)));
    }
    while i < ins.len()
        invariant
            whole == ins.deep_view(),
            whole.len() == ins@.len(),
            i <= ins@.len(),
            r@ == spec_emit(whole.take(i as int)),
        decreases ins@.len() - i,
    {
        let ghost prev = r@;
        proof {
            assert(ins@[i as int].deep_view() == whole[i as int]);
        }
        r.push(ins[i].opcode);
        let ghost mid = r@;
        match &ins[i].operand_bytes {
            None => {
                proof {
                    assert(mid =~= prev + spec_ins_bytes(whole[i as int]));
                }
            },
            Some(v) => {
                let mut k: usize = 0;
                while k < v.len()
                    invariant
                        k <= v@.len(),
                        r@ == mid + v@.take(k as int),
                    decreases v@.len() - k,
                {
                    r.push(v[k]);
                    proof {
                        assert(mid + v@.take(k as int + 1) =~= (mid + v@.take(k as int)).push(
                            v@[k as int],
                        ));
                    }
                    k = k + 1;
                }
                proof {
                    assert(v@.take(v@.len() as int) =~= v@);
                    assert(whole[i as int].operand_bytes == Some(v@));
                    assert(prev + spec_ins_bytes(whole[i as int]) =~= (prev + seq![
                        whole[i as int].opcode,
                    ]) + v@);
                    assert(mid =~= prev + seq![whole[i as int].opcode]);
                }
            },
        }
        proof {
            assert(whole.take(i as int + 1) =~= whole.take(i as int) + seq![whole[i as int]]);
            lemma_emit_append(whole.take(i as int), seq![whole[i as int]]);
            lemma_emit_one(whole[i as int]);
        }
        i = i + 1;
    }
    proof {
        assert(whole.take(ins@.len() as int) =~= whole);
    }
    r
}

} // verus!
