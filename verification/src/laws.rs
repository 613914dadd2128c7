//! What holds of the encoder whatever the program is.

use crate::error::AsmErrorView;
use crate::gen::{has_hex_prefix, hex_digits, i8_instruction, resolve, word};
use crate::isa::{
    byte_field, code, high_field, i8_code, i8_word, lemma_code_bounds, lemma_r_fields,
    lemma_split_bytes, opcode_field, r_word, rd_field, register, rs_field, twos_complement,
};
use crate::number::hex_u16;
use crate::parse::{ExprView, InstType, LabelView};
use vstd::prelude::*;

verus! {

/// An instruction of format R with two registers is read back from its
/// word: the fields of the word hold the function code, which names the
/// mnemonic, and the numbers of the two registers.
pub proof fn lemma_r_decodes(
    mnemonic: Seq<char>,
    rd: Seq<char>,
    rs: Seq<char>,
    imm: Seq<char>,
    symbol: Seq<char>,
    address: u16,
    labels: Seq<LabelView>,
)
    requires
        code(InstType::R, mnemonic) is Some,
        register(rd) is Some,
        register(rs) is Some,
    ensures
        ({
            let w = word(
                ExprView::Inst { inst_type: InstType::R, mnemonic, rd, rs, imm, symbol, address },
                labels,
            );
            &&& w == Ok::<u16, AsmErrorView>(
                r_word(register(rd)->0, register(rs)->0, code(InstType::R, mnemonic)->0),
            )
            &&& opcode_field(w->Ok_0) == 0
            &&& high_field(w->Ok_0) == code(InstType::R, mnemonic)->0
            &&& rd_field(w->Ok_0) == register(rd)->0
            &&& rs_field(w->Ok_0) == register(rs)->0
        }),
{
    lemma_code_bounds(InstType::R, mnemonic);
    lemma_code_bounds(InstType::R, rd);
    lemma_code_bounds(InstType::R, rs);
    lemma_r_fields(register(rd)->0, register(rs)->0, code(InstType::R, mnemonic)->0);
}

/// A label is found by its name wherever its declaration stands in the
/// table, as long as no declaration of the same name stands before it: of
/// two declarations of one name the first counts.
pub proof fn lemma_resolve_first(labels: Seq<LabelView>, i: int)
    requires
        0 <= i < labels.len(),
        forall|j: int| 0 <= j < i ==> (#[trigger] labels[j]).name != labels[i].name,
    ensures
        resolve(labels, labels[i].name) == Some(labels[i].address),
    decreases i,
{
    if i > 0 {
        let rest = labels.drop_first();
        assert(rest[i - 1] == labels[i]);
        assert forall|j: int| 0 <= j < i - 1 implies (#[trigger] rest[j]).name != rest[i
            - 1].name by {
            assert(rest[j] == labels[j + 1]);
        }
        lemma_resolve_first(rest, i - 1);
    }
}

/// A name that no declaration has is not found.
pub proof fn lemma_resolve_none(labels: Seq<LabelView>, name: Seq<char>)
    requires
        forall|j: int| 0 <= j < labels.len() ==> (#[trigger] labels[j]).name != name,
    ensures
        resolve(labels, name) is None,
    decreases labels.len(),
{
    if labels.len() > 0 {
        let rest = labels.drop_first();
        assert forall|j: int| 0 <= j < rest.len() implies (#[trigger] rest[j]).name != name by {
            assert(rest[j] == labels[j + 1]);
        }
        lemma_resolve_none(rest, name);
    }
}

/// The word of a statement depends on the label table only through the
/// address that the table gives for the statement's immediate. Whether a
/// label is declared before or behind the jump that names it makes no
/// difference: with the same addresses the word is the same.
pub proof fn lemma_word_by_address(stmt: ExprView, a: Seq<LabelView>, b: Seq<LabelView>)
    requires
        stmt matches ExprView::Inst { imm, .. } ==> resolve(a, imm) == resolve(b, imm),
    ensures
        word(stmt, a) == word(stmt, b),
{
}

/// The word of a `jal` to a label carries the distance from the
/// instruction to the label, `target - address`, as a signed byte. A target
/// behind the instruction and one before it are treated alike.
pub proof fn lemma_jump_offset(
    rd: Seq<char>,
    label: Seq<char>,
    symbol: Seq<char>,
    address: u16,
    labels: Seq<LabelView>,
)
    requires
        register(rd) is Some,
        resolve(labels, label) is Some,
    ensures
        ({
            let offset = resolve(labels, label)->0 - address;
            let jump = i8_instruction(12, "jal"@, rd, label, symbol, address, labels);
            if -128 <= offset <= 127 {
                jump == Ok::<u16, AsmErrorView>(
                    i8_word(12, register(rd)->0, twos_complement(offset)),
                )
            } else {
                jump == Err::<u16, AsmErrorView>(
                    AsmErrorView::BranchOutOfRange { label, offset },
                )
            }
        }),
{
}

/// The 16-bit value that the immediate of `lil` or `lih` stands for: the
/// number behind `0x`, or the address of the label that it names.
pub open spec fn wide_immediate(imm: Seq<char>, labels: Seq<LabelView>) -> Option<u16> {
    if has_hex_prefix(imm) {
        match hex_u16(hex_digits(imm)) {
            Some(v) => Some(v as u16),
            None => None,
        }
    } else {
        resolve(labels, imm)
    }
}

/// A 16-bit value that is loaded in two halves comes back whole: the byte
/// field of `lil rd, V@l`, with the byte field of `lih rd, V@h` put above
/// it, is `V`.
pub proof fn lemma_split_immediate(
    rd: Seq<char>,
    imm: Seq<char>,
    low_address: u16,
    high_address: u16,
    labels: Seq<LabelView>,
)
    requires
        register(rd) is Some,
        wide_immediate(imm, labels) is Some,
    ensures
        ({
            let low = word(
                ExprView::Inst {
                    inst_type: InstType::I8,
                    mnemonic: "lil"@,
                    rd,
                    rs: Seq::empty(),
                    imm,
                    symbol: "l"@,
                    address: low_address,
                },
                labels,
            );
            let high = word(
                ExprView::Inst {
                    inst_type: InstType::I8,
                    mnemonic: "lih"@,
                    rd,
                    rs: Seq::empty(),
                    imm,
                    symbol: "h"@,
                    address: high_address,
                },
                labels,
            );
            &&& low is Ok
            &&& high is Ok
            &&& byte_field(low->Ok_0) | byte_field(high->Ok_0) << 8 == wide_immediate(
                imm,
                labels,
            )->0
        }),
{
    reveal_strlit("jal");
    reveal_strlit("lil");
    reveal_strlit("lih");
    reveal_strlit("l");
    reveal_strlit("h");
    let v = wide_immediate(imm, labels)->0;
    let d = register(rd)->0;
    assert("lil"@ != "jal"@) by {
        assert("lil"@[0] == 'l');
        assert("jal"@[0] == 'j');
    }
    assert("lih"@ != "jal"@) by {
        assert("lih"@[0] == 'l');
        assert("jal"@[0] == 'j');
    }
    assert("lih"@ != "lil"@) by {
        assert("lih"@[2] == 'h');
        assert("lil"@[2] == 'l');
    }
    assert("h"@ != "l"@) by {
        assert("h"@[0] == 'h');
        assert("l"@[0] == 'l');
    }
    assert(i8_code("lil"@) == Some(13u16));
    assert(i8_code("lih"@) == Some(14u16));
    lemma_split_bytes(13, 14, d, v);
}

} // verus!
