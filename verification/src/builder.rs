//! Pass 1b: turning token lines into the instruction/label model.
//!
//! A line with a single token ending in `:` declares a label; any other
//! line is an instruction: mnemonic first, then at most one operand token.
//! Lines with more than two tokens are malformed, unknown mnemonics are
//! errors, and everything is reported with its source line number.

use vstd::prelude::*;

use crate::error::{AsmError, ErrModel};
use crate::opcode;
use crate::tokenizer::{TokenLine, TokenLineModel};

verus! {

/// One emitted unit.  `address`, `encoded_length` and `operand_bytes` are
/// placeholders (`0`, `1`, `None`) until the resolver and the operand
/// encoder fill them in.
pub struct Instruction {
    /// Byte offset in the final stream; assigned by the resolver.
    pub address: usize,
    /// The opcode byte, looked up once at construction.
    pub opcode: u8,
    /// The encoded operand; absent until the operand encoder runs, and
    /// absent in the final model for opcodes without an operand.
    pub operand_bytes: Option<Vec<u8>>,
    /// The unparsed operand token: a label name or a numeric literal.
    pub raw_operand_text: Option<String>,
    /// Opcode byte plus operand bytes; computed by the resolver.
    pub encoded_length: usize,
    /// 1-based source line, kept for diagnostics.
    pub line: usize,
}

/// Ghost mirror of [`Instruction`].
pub struct InsModel {
    pub address: nat,
    pub opcode: u8,
    pub operand_bytes: Option<Seq<u8>>,
    pub raw_operand_text: Option<Seq<char>>,
    pub encoded_length: nat,
    pub line: nat,
}

impl DeepView for Instruction {
    type V = InsModel;

    open spec fn deep_view(&self) -> InsModel {
        InsModel {
            address: self.address as nat,
            opcode: self.opcode,
            operand_bytes: self.operand_bytes.deep_view(),
            raw_operand_text: self.raw_operand_text.deep_view(),
            encoded_length: self.encoded_length as nat,
            line: self.line as nat,
        }
    }
}

/// A label declaration: a name bound, later, to the address of the next
/// instruction in program order.
pub struct LabelDeclaration {
    pub name: String,
    /// 1-based source line of the declaration.
    pub line: usize,
}

/// Ghost mirror of [`LabelDeclaration`].
pub struct LabelDeclModel {
    pub name: Seq<char>,
    pub line: nat,
}

impl DeepView for LabelDeclaration {
    type V = LabelDeclModel;

    open spec fn deep_view(&self) -> LabelDeclModel {
        LabelDeclModel { name: self.name@, line: self.line as nat }
    }
}

/// One parsed program element, in program order.
pub enum Item {
    Ins(Instruction),
    Label(LabelDeclaration),
}

/// Ghost mirror of [`Item`].
pub enum ItemModel {
    Ins(InsModel),
    Label(LabelDeclModel),
}

impl DeepView for Item {
    type V = ItemModel;

    open spec fn deep_view(&self) -> ItemModel {
        match self {
            Item::Ins(i) => ItemModel::Ins(i.deep_view()),
            Item::Label(l) => ItemModel::Label(l.deep_view()),
        }
    }
}

/// What building one token line yields: a label declaration for a single
/// token ending in `:`, an error for more than two tokens or an unknown
/// mnemonic, otherwise an instruction with the looked-up opcode and the
/// raw operand token (if any).
pub open spec fn spec_build_line(tl: TokenLineModel) -> Result<ItemModel, ErrModel> {
    let t0 = tl.tokens[0];
    if tl.tokens.len() == 1 && t0.len() >= 1 && t0[t0.len() - 1] == ':' {
        Ok(ItemModel::Label(LabelDeclModel { name: t0.take(t0.len() - 1), line: tl.number }))
    } else if tl.tokens.len() > 2 {
        Err(ErrModel::MalformedLine { line: tl.number })
    } else {
        match opcode::spec_lookup(t0) {
            None => Err(ErrModel::UnknownMnemonic { line: tl.number, name: t0 }),
            Some(op) => Ok(
                ItemModel::Ins(
                    InsModel {
                        address: 0,
                        opcode: op,
                        operand_bytes: None,
                        raw_operand_text: if tl.tokens.len() == 2 {
                            Some(tl.tokens[1])
                        } else {
                            None
                        },
                        encoded_length: 1,
                        line: tl.number,
                    },
                ),
            ),
        }
    }
}

/// The whole model-building pass: every token line built in order, stopping
/// at the first error.
pub open spec fn spec_build(tls: Seq<TokenLineModel>) -> Result<Seq<ItemModel>, ErrModel>
    decreases tls.len(),
{
    if tls.len() == 0 {
        Ok(seq![])
    } else {
        match spec_build_line(tls[0]) {
            Err(e) => Err(e),
            Ok(item) => match spec_build(tls.skip(1)) {
                Err(e) => Err(e),
                Ok(rest) => Ok(seq![item] + rest),
            },
        }
    }
}

impl Instruction {
    /// Builds one program element from the raw tokens of one source line.
    pub fn new_ins_from_raw_str(raw: &Vec<String>, line: usize) -> (r: Result<Item, AsmError>)
        requires
            raw@.len() >= 1,
        ensures
            (match r {
                Ok(item) => spec_build_line(
                    TokenLineModel { number: line as nat, tokens: raw.deep_view() },
                ) == Ok::<ItemModel, ErrModel>(item.deep_view()),
                Err(e) => spec_build_line(
                    TokenLineModel { number: line as nat, tokens: raw.deep_view() },
                ) == Err::<ItemModel, ErrModel>(e@),
            }),
    {
        let ghost tl = TokenLineModel { number: line as nat, tokens: raw.deep_view() };
        let t0 = &raw[0];
        proof {
            assert(t0@ == raw.deep_view()[0]);
        }
        let n0 = t0.as_str().unicode_len();
        if raw.len() == 1 && n0 >= 1 && t0.as_str().get_char(n0 - 1) == ':' {
            let name = t0.as_str().substring_char(0, n0 - 1).to_owned();
            proof {
                assert(name@ =~= tl.tokens[0].take(tl.tokens[0].len() - 1));
            }
            Ok(Item::Label(LabelDeclaration { name, line }))
        } else if raw.len() > 2 {
            Err(AsmError::MalformedLine { line })
        } else {
            match opcode::lookup(t0.as_str()) {
                None => Err(AsmError::UnknownMnemonic { line, name: t0.clone() }),
                Some(op) => {
                    let raw_operand_text: Option<String> = if raw.len() == 2 {
                        proof {
                            assert(raw@[1]@ == raw.deep_view()[1]);
                        }
                        Some(raw[1].clone())
                    } else {
                        None
                    };
                    Ok(
                        Item::Ins(
                            Instruction {
                                address: 0,
                                opcode: op,
                                operand_bytes: None,
                                raw_operand_text,
                                encoded_length: 1,
                                line,
                            },
                        ),
                    )
                },
            }
        }
    }
}

/// Builds the whole program model from the tokenizer's output, in program
/// order, stopping at the first error.
pub fn build(tls: &Vec<TokenLine>) -> (r: Result<Vec<Item>, AsmError>)
    requires
        forall|i: int|
            0 <= i < tls.deep_view().len() ==> #[trigger] tls.deep_view()[i].tokens.len() >= 1,
    ensures
        (match r {
            Ok(items) => spec_build(tls.deep_view()) == Ok::<Seq<ItemModel>, ErrModel>(
                items.deep_view(),
            ),
            Err(e) => spec_build(tls.deep_view()) == Err::<Seq<ItemModel>, ErrModel>(e@),
        }),
{
    let ghost whole = tls.deep_view();
    let mut out: Vec<Item> = Vec::new();
    let mut i: usize = 0;
    proof {
        assert(whole.skip(0) =~= whole);
        assert(out.deep_view() =~= Seq::<ItemModel>::empty());
    }
    while i < tls.len()
        invariant
            whole == tls.deep_view(),
            whole.len() == tls@.len(),
            i <= tls@.len(),
            forall|j: int| 0 <= j < whole.len() ==> #[trigger] whole[j].tokens.len() >= 1,
            (match spec_build(whole.skip(i as int)) {
                Ok(rest) => spec_build(whole) == Ok::<Seq<ItemModel>, ErrModel>(
                    out.deep_view() + rest,
                ),
                Err(e) => spec_build(whole) == Err::<Seq<ItemModel>, ErrModel>(e),
            }),
        decreases tls@.len() - i,
    {
        let ghost prev = out.deep_view();
        proof {
            assert(whole.skip(i as int)[0] == whole[i as int]);
            assert(whole.skip(i as int).skip(1) =~= whole.skip(i as int + 1));
            assert(tls@[i as int].deep_view() == whole[i as int]);
        }
        let tl = &tls[i];
        match Instruction::new_ins_from_raw_str(&tl.tokens, tl.number) {
            Err(e) => {
                return Err(e);
            },
            Ok(item) => {
                out.push(item);
                proof {
                    assert(out.deep_view() =~= prev + seq![out@[out@.len() - 1].deep_view()]);
                    if spec_build(whole.skip(i as int + 1)) is Ok {
                        let rest = spec_build(whole.skip(i as int + 1))->Ok_0;
                        assert((prev + seq![out@[out@.len() - 1].deep_view()]) + rest =~= prev + (
                        seq![out@[out@.len() - 1].deep_view()] + rest));
                    }
                }
            },
        }
        i = i + 1;
    }
    proof {
        assert(whole.skip(tls@.len() as int).len() == 0);
        assert(out.deep_view() + Seq::<ItemModel>::empty() =~= out.deep_view());
    }
    Ok(out)
}

} // verus!
