//! The errors of an assembly run. Each one is final: the run stops at the
//! first, and nothing is produced.

use vstd::prelude::*;

verus! {

/// Why a program could not be assembled.
#[derive(Debug, PartialEq)]
pub enum AsmError {
    /// A line has the shape of no statement. Lines count from 1.
    SyntaxError { line_number: usize, line: String },
    /// The statement or label of a line would lie beyond address `0xFFFF`.
    AddressOverflow { line_number: usize, line: String },
    /// A register operand is none of the sixteen register names.
    UnknownRegister { name: String },
    /// An immediate or a constant is no number of the kind that is expected.
    ImmediateParseError { token: String },
    /// An immediate is a number outside the range from `min` to `max`.
    ImmediateRangeError { value: i32, min: i32, max: i32 },
    /// An immediate names a label that the program does not declare.
    UnknownLabel { name: String },
    /// The selector behind `@` is neither `l` nor `h`.
    UnknownSymbolSelector { selector: String },
    /// A jump target lies further than a signed byte reaches.
    BranchOutOfRange { label: String, offset: i32 },
}

/// An error with its texts as sequences of characters.
pub enum AsmErrorView {
    SyntaxError { line_number: int, line: Seq<char> },
    AddressOverflow { line_number: int, line: Seq<char> },
    UnknownRegister { name: Seq<char> },
    ImmediateParseError { token: Seq<char> },
    ImmediateRangeError { value: int, min: int, max: int },
    UnknownLabel { name: Seq<char> },
    UnknownSymbolSelector { selector: Seq<char> },
    BranchOutOfRange { label: Seq<char>, offset: int },
}

impl View for AsmError {
    type V = AsmErrorView;

    open spec fn view(&self) -> AsmErrorView {
        match *self {
            AsmError::SyntaxError { line_number, line } => AsmErrorView::SyntaxError {
                line_number: line_number as int,
                line: line@,
            },
            AsmError::AddressOverflow { line_number, line } => AsmErrorView::AddressOverflow {
                line_number: line_number as int,
                line: line@,
            },
            AsmError::UnknownRegister { name } => AsmErrorView::UnknownRegister { name: name@ },
            AsmError::ImmediateParseError { token } => AsmErrorView::ImmediateParseError {
                token: token@,
            },
            AsmError::ImmediateRangeError { value, min, max } => AsmErrorView::ImmediateRangeError {
                value: value as int,
                min: min as int,
                max: max as int,
            },
            AsmError::UnknownLabel { name } => AsmErrorView::UnknownLabel { name: name@ },
            AsmError::UnknownSymbolSelector { selector } => AsmErrorView::UnknownSymbolSelector {
                selector: selector@,
            },
            AsmError::BranchOutOfRange { label, offset } => AsmErrorView::BranchOutOfRange {
                label: label@,
                offset: offset as int,
            },
        }
    }
}

/// Tells whether an outcome in memory is the outcome `s` that a definition
/// gives: the same value, or an error with the same view.
pub open spec fn agrees<T>(r: Result<T, AsmError>, s: Result<T, AsmErrorView>) -> bool {
    match s {
        Ok(v) => r == Ok::<T, AsmError>(v),
        Err(e) => r is Err && r->Err_0@ == e,
    }
}

} // verus!
