//! Typed assembly failures.  Every pass reports errors as values of
//! [`AsmError`] rather than terminating the process, carrying the source
//! line number and the offending token so a caller can diagnose the input.

use vstd::prelude::*;

verus! {

/// Ghost mirror of [`AsmError`]: the same variants over mathematical
/// sequences, used by the pipeline's specification functions.
pub enum ErrModel {
    UnknownMnemonic { line: nat, name: Seq<char> },
    MalformedLine { line: nat },
    DuplicateLabel { line: nat, name: Seq<char> },
    DanglingLabel { line: nat, name: Seq<char> },
    UndefinedLabel { line: nat, name: Seq<char> },
    MalformedOperand { line: nat, text: Seq<char> },
    MissingOperand { line: nat, opcode: u8 },
    ProgramTooLarge,
}

/// A fatal error detected while assembling one translation unit.
///
/// `line` is the 1-based source line on which the offending construct
/// stands.  `ProgramTooLarge` is a machine-limit guard: it is returned
/// instead of assigning addresses when the instruction/label count exceeds
/// [`crate::resolver::MAX_ITEMS`], so address arithmetic can never wrap.
#[derive(Debug, PartialEq, Eq)]
pub enum AsmError {
    UnknownMnemonic { line: usize, name: String },
    MalformedLine { line: usize },
    DuplicateLabel { line: usize, name: String },
    DanglingLabel { line: usize, name: String },
    UndefinedLabel { line: usize, name: String },
    MalformedOperand { line: usize, text: String },
    MissingOperand { line: usize, opcode: u8 },
    ProgramTooLarge,
}

impl View for AsmError {
    type V = ErrModel;

    open spec fn view(&self) -> ErrModel {
        match self {
            AsmError::UnknownMnemonic { line, name } => ErrModel::UnknownMnemonic {
                line: *line as nat,
                name: name@,
            },
            AsmError::MalformedLine { line } => ErrModel::MalformedLine { line: *line as nat },
            AsmError::DuplicateLabel { line, name } => ErrModel::DuplicateLabel {
                line: *line as nat,
                name: name@,
            },
            AsmError::DanglingLabel { line, name } => ErrModel::DanglingLabel {
                line: *line as nat,
                name: name@,
            },
            AsmError::UndefinedLabel { line, name } => ErrModel::UndefinedLabel {
                line: *line as nat,
                name: name@,
            },
            AsmError::MalformedOperand { line, text } => ErrModel::MalformedOperand {
                line: *line as nat,
                text: text@,
            },
            AsmError::MissingOperand { line, opcode } => ErrModel::MissingOperand {
                line: *line as nat,
                opcode: *opcode,
            },
            AsmError::ProgramTooLarge => ErrModel::ProgramTooLarge,
        }
    }
}

} // verus!
