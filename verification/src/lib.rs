//! An assembler for the ZKTC 16-bit instruction set.
//!
//! A program is a text with one statement on each line: an instruction, a
//! data directive `.word`, or the declaration of a label. `parse` reads the
//! text into a list of statements, gives each its address, and collects the
//! labels in a table. `gen` encodes the statements into 16-bit words, with
//! the addresses of the labels at hand, and gives the words as bytes, low
//! byte first. `assemble` does the one after the other.

pub mod error;
pub mod gen;
pub mod isa;
pub mod laws;
pub mod layout;
pub mod number;
pub mod parse;
pub mod syntax;
pub mod text;

pub use crate::error::AsmError;
pub use crate::gen::gen;
pub use crate::parse::{parse, Expr, InstType, Label};

use crate::error::AsmErrorView;
use crate::gen::encoding;
use crate::layout::{lines, program, word_count};
use vstd::prelude::*;

verus! {

/// The image of the program `text`: the bytes of the words of its
/// statements, or the first error, which is that of reading the text where
/// there is one.
pub open spec fn assembled(text: Seq<char>, base: u16) -> Result<Seq<u8>, AsmErrorView> {
    match program(text, base) {
        Ok((stmts, labels)) => encoding(stmts, labels),
        Err(e) => Err(e),
    }
}

/// Assembles a program whose first word lies at `base_address`. The image
/// has two bytes for each line that holds an instruction or a constant;
/// lines with a label, a comment or nothing add no byte.
pub fn assemble(text: String, base_address: u16) -> (res: Result<Vec<u8>, AsmError>)
    ensures
        match assembled(text@, base_address) {
            Ok(bytes) => res is Ok && res->Ok_0@ == bytes,
            Err(e) => res is Err && res->Err_0@ == e,
        },
        res matches Ok(bytes) ==> bytes.len() == 2 * word_count(lines(text@)),
{
    let (exprs, label_table) = parse(text, base_address)?;
    gen(exprs, label_table)
}

} // verus!
