//! A two-pass assembler for a small stack-machine instruction set.
//!
//! Source text is a sequence of lines, each holding a label declaration
//! (`name:`), a bare mnemonic, or a mnemonic with one operand.  The
//! pipeline tokenizes the text, builds an instruction/label model, assigns
//! byte addresses, resolves label references, encodes operands, and
//! concatenates everything into the final byte stream.  Every pass is
//! specified exactly: [`assemble`] returns precisely [`spec_assemble`] of
//! its input, so the whole translation is deterministic and either
//! completes or fails atomically with a typed error.

use vstd::prelude::*;

pub mod builder;
pub mod emitter;
pub mod encoder;
pub mod error;
pub mod laws;
pub mod opcode;
pub mod resolver;
pub mod tokenizer;

verus! {

use crate::error::{AsmError, ErrModel};

/// The whole translation, as a mathematical function of the source text:
/// tokenize, build, cap the item count (so address arithmetic cannot
/// wrap), resolve addresses and labels, encode operands, emit.
pub open spec fn spec_assemble(src: Seq<char>) -> Result<Seq<u8>, ErrModel> {
    match builder::spec_build(tokenizer::spec_token_lines(src)) {
        Err(e) => Err(e),
        Ok(items) => if items.len() > resolver::MAX_ITEMS {
            Err(ErrModel::ProgramTooLarge)
        } else {
            match resolver::spec_resolve(items) {
                Err(e) => Err(e),
                Ok(p) => match encoder::spec_encode(p.0, p.1) {
                    Err(e) => Err(e),
                    Ok(enc) => Ok(emitter::spec_emit(enc)),
                },
            }
        },
    }
}

/// Assembles the source text into the output byte stream, or fails with
/// the first error of the single forward pass.  The result is exactly
/// [`spec_assemble`] of the input, for every input.
pub fn assemble(src: &str) -> (r: Result<Vec<u8>, AsmError>)
    ensures
        (match r {
            Ok(v) => spec_assemble(src@) == Ok::<Seq<u8>, ErrModel>(v@),
            Err(e) => spec_assemble(src@) == Err::<Seq<u8>, ErrModel>(e@),
        }),
{
    let tls = tokenizer::tokenize(src);
    proof {
        tokenizer::lemma_token_lines_nonempty(tokenizer::spec_split_lines(src@), 1);
    }
    let items = match builder::build(&tls) {
        Err(e) => {
            return Err(e);
        },
        Ok(x) => x,
    };
    if items.len() > resolver::MAX_ITEMS {
        return Err(AsmError::ProgramTooLarge);
    }
    let resolved = match resolver::resolve(&items) {
        Err(e) => {
            return Err(e);
        },
        Ok(p) => p,
    };
    let (ins, labels) = resolved;
    let enc = match encoder::encode_operands(&ins, &labels) {
        Err(e) => {
            return Err(e);
        },
        Ok(x) => x,
    };
    Ok(emitter::emit(&enc))
}

} // verus!
