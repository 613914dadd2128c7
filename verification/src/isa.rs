//! The instruction set: which mnemonic belongs to which format, the code
//! that stands for it, the register names, and the layout of the fields in a
//! 16-bit word.

use crate::parse::InstType;
use crate::text::{is_alpha, is_str};
use vstd::prelude::*;

verus! {

/// The function code of a mnemonic of format R.
pub open spec fn r_code(m: Seq<char>) -> Option<u16> {
    if m == "mov"@ {
        Some(1)
    } else if m == "add"@ {
        Some(2)
    } else if m == "sub"@ {
        Some(3)
    } else if m == "and"@ {
        Some(4)
    } else if m == "or"@ {
        Some(5)
    } else if m == "xor"@ {
        Some(6)
    } else if m == "sll"@ {
        Some(7)
    } else if m == "srl"@ {
        Some(8)
    } else if m == "sra"@ {
        Some(9)
    } else {
        None
    }
}

/// The opcode of a mnemonic of format I5.
pub open spec fn i5_code(m: Seq<char>) -> Option<u16> {
    if m == "addi"@ {
        Some(1)
    } else if m == "subi"@ {
        Some(2)
    } else if m == "beq"@ {
        Some(3)
    } else if m == "bnq"@ {
        Some(4)
    } else if m == "blt"@ {
        Some(5)
    } else if m == "bge"@ {
        Some(6)
    } else if m == "bltu"@ {
        Some(7)
    } else if m == "bgeu"@ {
        Some(8)
    } else if m == "jalr"@ {
        Some(9)
    } else if m == "lw"@ {
        Some(10)
    } else if m == "sw"@ {
        Some(11)
    } else {
        None
    }
}

/// The opcode of a mnemonic of format I8.
pub open spec fn i8_code(m: Seq<char>) -> Option<u16> {
    if m == "jal"@ {
        Some(12)
    } else if m == "lil"@ {
        Some(13)
    } else if m == "lih"@ {
        Some(14)
    } else {
        None
    }
}

/// The function code of a mnemonic of format C1.
pub open spec fn c1_code(m: Seq<char>) -> Option<u16> {
    if m == "push"@ {
        Some(1)
    } else if m == "pop"@ {
        Some(2)
    } else if m == "rpc"@ {
        Some(3)
    } else if m == "rsp"@ {
        Some(4)
    } else if m == "rpsr"@ {
        Some(5)
    } else if m == "rtlr"@ {
        Some(6)
    } else if m == "rthr"@ {
        Some(7)
    } else if m == "rppc"@ {
        Some(8)
    } else if m == "rppsr"@ {
        Some(9)
    } else if m == "wsp"@ {
        Some(10)
    } else if m == "wpsr"@ {
        Some(11)
    } else if m == "wtlr"@ {
        Some(12)
    } else if m == "wthr"@ {
        Some(13)
    } else if m == "wppc"@ {
        Some(14)
    } else if m == "wppsr"@ {
        Some(15)
    } else {
        None
    }
}

/// The function code of a mnemonic of format C2.
pub open spec fn c2_code(m: Seq<char>) -> Option<u16> {
    if m == "rfi"@ {
        Some(1)
    } else if m == "rtr"@ {
        Some(2)
    } else if m == "wtr"@ {
        Some(3)
    } else {
        None
    }
}

/// The code that stands for mnemonic `m` in the words of `format`: `None`
/// where `m` is no mnemonic of that format.
pub open spec fn code(format: InstType, m: Seq<char>) -> Option<u16> {
    match format {
        InstType::R => r_code(m),
        InstType::I5 => i5_code(m),
        InstType::I8 => i8_code(m),
        InstType::C1 => c1_code(m),
        InstType::C2 => c2_code(m),
    }
}

/// The format that mnemonic `m` belongs to.
pub open spec fn format_of(m: Seq<char>) -> Option<InstType> {
    if r_code(m) is Some {
        Some(InstType::R)
    } else if i5_code(m) is Some {
        Some(InstType::I5)
    } else if i8_code(m) is Some {
        Some(InstType::I8)
    } else if c1_code(m) is Some {
        Some(InstType::C1)
    } else if c2_code(m) is Some {
        Some(InstType::C2)
    } else {
        None
    }
}

/// The number of the register that `name` stands for. Each register has two
/// names: `x0` to `x7`, and a name that tells its role.
pub open spec fn register(name: Seq<char>) -> Option<u16> {
    if name == "x0"@ || name == "zero"@ {
        Some(0)
    } else if name == "x1"@ || name == "ra"@ {
        Some(1)
    } else if name == "x2"@ || name == "fp"@ {
        Some(2)
    } else if name == "x3"@ || name == "a0"@ {
        Some(3)
    } else if name == "x4"@ || name == "a1"@ {
        Some(4)
    } else if name == "x5"@ || name == "a2"@ {
        Some(5)
    } else if name == "x6"@ || name == "t0"@ {
        Some(6)
    } else if name == "x7"@ || name == "t1"@ {
        Some(7)
    } else {
        None
    }
}

/// A word of format R: the registers in bits 5 to 7 and 8 to 10, the
/// function code in bits 11 to 15, the low five bits clear.
pub open spec fn r_word(rd: u16, rs: u16, func: u16) -> u16 {
    (rd & 0x0007) << 5 | (rs & 0x0007) << 8 | (func & 0x001F) << 11
}

/// A word of format I5: the opcode in bits 0 to 4, the registers in bits 5
/// to 7 and 8 to 10, the immediate in bits 11 to 15.
pub open spec fn i5_word(opcode: u16, rd: u16, rs: u16, imm: u16) -> u16 {
    opcode & 0x001F | (rd & 0x0007) << 5 | (rs & 0x0007) << 8 | (imm & 0x001F) << 11
}

/// A word of format I8 that carries the low byte of `imm`: the opcode in
/// bits 0 to 4, the register in bits 5 to 7, the byte in bits 8 to 15.
pub open spec fn i8_word(opcode: u16, rd: u16, imm: u16) -> u16 {
    opcode & 0x001F | (rd & 0x0007) << 5 | (imm & 0x00FF) << 8
}

/// A word of format I8 that carries the high byte of `imm`, which stays
/// where it is, in bits 8 to 15.
pub open spec fn i8_high_word(opcode: u16, rd: u16, imm: u16) -> u16 {
    opcode & 0x001F | (rd & 0x0007) << 5 | (imm & 0xFF00)
}

/// A word of format C1: the fixed pattern `0x1E` in bits 0 to 4, the
/// register in bits 5 to 7, the function code in bits 11 to 15.
pub open spec fn c1_word(rd: u16, func: u16) -> u16 {
    0x001E | (rd & 0x0007) << 5 | (func & 0x001F) << 11
}

/// A word of format C2: the fixed pattern `0x1F` in bits 0 to 4, the function
/// code in bits 11 to 15.
pub open spec fn c2_word(func: u16) -> u16 {
    0x001F | (func & 0x001F) << 11
}

/// The low byte of a word, which comes first in the image.
pub open spec fn low_byte(word: u16) -> u8 {
    (word & 0x00FF) as u8
}

/// The high byte of a word, which comes second in the image.
pub open spec fn high_byte(word: u16) -> u8 {
    ((word & 0xFF00) >> 8) as u8
}

/// A number of 16 bits in two's complement.
pub open spec fn twos_complement(v: int) -> u16 {
    if v < 0 {
        (v + 0x10000) as u16
    } else {
        v as u16
    }
}

/// The low five bits of a word: the opcode of formats I5 and I8, a fixed
/// pattern in formats C1 and C2, nothing in format R.
pub open spec fn opcode_field(word: u16) -> u16 {
    word & 0x001F
}

/// Bits 5 to 7 of a word: the register `rd`.
pub open spec fn rd_field(word: u16) -> u16 {
    (word >> 5) & 0x0007
}

/// Bits 8 to 10 of a word: the register `rs` in formats R and I5.
pub open spec fn rs_field(word: u16) -> u16 {
    (word >> 8) & 0x0007
}

/// Bits 11 to 15 of a word: the function code in formats R, C1 and C2, the
/// immediate in format I5.
pub open spec fn high_field(word: u16) -> u16 {
    word >> 11
}

/// Bits 8 to 15 of a word: the immediate in format I8.
pub open spec fn byte_field(word: u16) -> u16 {
    word >> 8
}

/// The fields of a word of format R hold what the word was made of.
pub proof fn lemma_r_fields(rd: u16, rs: u16, func: u16)
    by (bit_vector)
    requires
        rd <= 7,
        rs <= 7,
        func <= 31,
    ensures
        opcode_field(r_word(rd, rs, func)) == 0,
        rd_field(r_word(rd, rs, func)) == rd,
        rs_field(r_word(rd, rs, func)) == rs,
        high_field(r_word(rd, rs, func)) == func,
{
}

/// The fields of a word of format I5 hold what the word was made of; of
/// the immediate, its low five bits.
pub proof fn lemma_i5_fields(opcode: u16, rd: u16, rs: u16, imm: u16)
    by (bit_vector)
    requires
        opcode <= 31,
        rd <= 7,
        rs <= 7,
    ensures
        opcode_field(i5_word(opcode, rd, rs, imm)) == opcode,
        rd_field(i5_word(opcode, rd, rs, imm)) == rd,
        rs_field(i5_word(opcode, rd, rs, imm)) == rs,
        high_field(i5_word(opcode, rd, rs, imm)) == imm & 0x001F,
{
}

/// The fields of a word of format I8 hold what the word was made of; of
/// the immediate, its low byte.
pub proof fn lemma_i8_fields(opcode: u16, rd: u16, imm: u16)
    by (bit_vector)
    requires
        opcode <= 31,
        rd <= 7,
    ensures
        opcode_field(i8_word(opcode, rd, imm)) == opcode,
        rd_field(i8_word(opcode, rd, imm)) == rd,
        byte_field(i8_word(opcode, rd, imm)) == imm & 0x00FF,
{
}

/// The fields of a word of format I8 that carries a high byte hold what
/// the word was made of; of the immediate, its high byte.
pub proof fn lemma_i8_high_fields(opcode: u16, rd: u16, imm: u16)
    by (bit_vector)
    requires
        opcode <= 31,
        rd <= 7,
    ensures
        opcode_field(i8_high_word(opcode, rd, imm)) == opcode,
        rd_field(i8_high_word(opcode, rd, imm)) == rd,
        byte_field(i8_high_word(opcode, rd, imm)) == imm >> 8,
{
}

/// The fields of a word of format C1 hold what the word was made of.
pub proof fn lemma_c1_fields(rd: u16, func: u16)
    by (bit_vector)
    requires
        rd <= 7,
        func <= 31,
    ensures
        opcode_field(c1_word(rd, func)) == 0x1E,
        rd_field(c1_word(rd, func)) == rd,
        high_field(c1_word(rd, func)) == func,
{
}

/// The fields of a word of format C2 hold what the word was made of.
pub proof fn lemma_c2_fields(func: u16)
    by (bit_vector)
    requires
        func <= 31,
    ensures
        opcode_field(c2_word(func)) == 0x1F,
        high_field(c2_word(func)) == func,
{
}

/// The two byte fields of a 16-bit value that was split over two words
/// give the value back: the low byte, and the high byte put above it.
pub proof fn lemma_split_bytes(opcode_low: u16, opcode_high: u16, rd: u16, v: u16)
    by (bit_vector)
    ensures
        byte_field(i8_word(opcode_low, rd, v)) | byte_field(i8_high_word(opcode_high, rd, v))
            << 8 == v,
{
}

/// A code fits the five bits of its field. The opcodes of formats I5 and
/// I8 differ from each other, from the patterns `0x1E` and `0x1F` of
/// formats C1 and C2, and from the 0 that a word of format R has in their
/// place: the low five bits of a word tell its format.
pub proof fn lemma_code_bounds(format: InstType, m: Seq<char>)
    ensures
        code(format, m) matches Some(c) ==> match format {
            InstType::R => 1 <= c <= 9,
            InstType::I5 => 1 <= c <= 11,
            InstType::I8 => 12 <= c <= 14,
            InstType::C1 => 1 <= c <= 15,
            InstType::C2 => 1 <= c <= 3,
        },
        register(m) matches Some(r) ==> r <= 7,
{
}

/// Within a format each code stands for one mnemonic: a code names its
/// mnemonic.
pub proof fn lemma_code_names(format: InstType, m: Seq<char>, n: Seq<char>)
    requires
        code(format, m) is Some,
        code(format, m) == code(format, n),
    ensures
        m == n,
{
}

/// No mnemonic belongs to two formats: the format that has a code for it
/// is the format that it is read in.
pub proof fn lemma_one_format(format: InstType, m: Seq<char>)
    requires
        code(format, m) is Some,
    ensures
        format_of(m) == Some(format),
{
    lemma_mnemonic_signatures();
    let _ = signature(m);
}

/// The length and the first three characters of a text: enough to tell the
/// mnemonics apart.
spec fn signature(m: Seq<char>) -> (nat, char, char, char) {
    (m.len(), m[0], m[1], m[2])
}

/// The signatures of the mnemonics.
proof fn lemma_mnemonic_signatures()
    ensures
        signature("mov"@) == (3nat, 'm', 'o', 'v'),
        signature("add"@) == (3nat, 'a', 'd', 'd'),
        signature("sub"@) == (3nat, 's', 'u', 'b'),
        signature("and"@) == (3nat, 'a', 'n', 'd'),
        signature("or"@).0 == 2 && signature("or"@).1 == 'o' && signature("or"@).2 == 'r',
        signature("xor"@) == (3nat, 'x', 'o', 'r'),
        signature("sll"@) == (3nat, 's', 'l', 'l'),
        signature("srl"@) == (3nat, 's', 'r', 'l'),
        signature("sra"@) == (3nat, 's', 'r', 'a'),
        signature("addi"@) == (4nat, 'a', 'd', 'd'),
        signature("subi"@) == (4nat, 's', 'u', 'b'),
        signature("beq"@) == (3nat, 'b', 'e', 'q'),
        signature("bnq"@) == (3nat, 'b', 'n', 'q'),
        signature("blt"@) == (3nat, 'b', 'l', 't'),
        signature("bge"@) == (3nat, 'b', 'g', 'e'),
        signature("bltu"@) == (4nat, 'b', 'l', 't'),
        signature("bgeu"@) == (4nat, 'b', 'g', 'e'),
        signature("jalr"@) == (4nat, 'j', 'a', 'l'),
        signature("lw"@).0 == 2 && signature("lw"@).1 == 'l' && signature("lw"@).2 == 'w',
        signature("sw"@).0 == 2 && signature("sw"@).1 == 's' && signature("sw"@).2 == 'w',
        signature("jal"@) == (3nat, 'j', 'a', 'l'),
        signature("lil"@) == (3nat, 'l', 'i', 'l'),
        signature("lih"@) == (3nat, 'l', 'i', 'h'),
        signature("push"@) == (4nat, 'p', 'u', 's'),
        signature("pop"@) == (3nat, 'p', 'o', 'p'),
        signature("rpc"@) == (3nat, 'r', 'p', 'c'),
        signature("rsp"@) == (3nat, 'r', 's', 'p'),
        signature("rpsr"@) == (4nat, 'r', 'p', 's'),
        signature("rtlr"@) == (4nat, 'r', 't', 'l'),
        signature("rthr"@) == (4nat, 'r', 't', 'h'),
        signature("rppc"@) == (4nat, 'r', 'p', 'p'),
        signature("rppsr"@) == (5nat, 'r', 'p', 'p'),
        signature("wsp"@) == (3nat, 'w', 's', 'p'),
        signature("wpsr"@) == (4nat, 'w', 'p', 's'),
        signature("wtlr"@) == (4nat, 'w', 't', 'l'),
        signature("wthr"@) == (4nat, 'w', 't', 'h'),
        signature("wppc"@) == (4nat, 'w', 'p', 'p'),
        signature("wppsr"@) == (5nat, 'w', 'p', 'p'),
        signature("rfi"@) == (3nat, 'r', 'f', 'i'),
        signature("rtr"@) == (3nat, 'r', 't', 'r'),
        signature("wtr"@) == (3nat, 'w', 't', 'r'),
{
    lemma_mnemonic_texts();
}

/// The characters of the mnemonics.
proof fn lemma_mnemonic_texts()
    ensures
        "mov"@ == seq!['m', 'o', 'v'],
        "add"@ == seq!['a', 'd', 'd'],
        "sub"@ == seq!['s', 'u', 'b'],
        "and"@ == seq!['a', 'n', 'd'],
        "or"@ == seq!['o', 'r'],
        "xor"@ == seq!['x', 'o', 'r'],
        "sll"@ == seq!['s', 'l', 'l'],
        "srl"@ == seq!['s', 'r', 'l'],
        "sra"@ == seq!['s', 'r', 'a'],
        "addi"@ == seq!['a', 'd', 'd', 'i'],
        "subi"@ == seq!['s', 'u', 'b', 'i'],
        "beq"@ == seq!['b', 'e', 'q'],
        "bnq"@ == seq!['b', 'n', 'q'],
        "blt"@ == seq!['b', 'l', 't'],
        "bge"@ == seq!['b', 'g', 'e'],
        "bltu"@ == seq!['b', 'l', 't', 'u'],
        "bgeu"@ == seq!['b', 'g', 'e', 'u'],
        "jalr"@ == seq!['j', 'a', 'l', 'r'],
        "lw"@ == seq!['l', 'w'],
        "sw"@ == seq!['s', 'w'],
        "jal"@ == seq!['j', 'a', 'l'],
        "lil"@ == seq!['l', 'i', 'l'],
        "lih"@ == seq!['l', 'i', 'h'],
        "push"@ == seq!['p', 'u', 's', 'h'],
        "pop"@ == seq!['p', 'o', 'p'],
        "rpc"@ == seq!['r', 'p', 'c'],
        "rsp"@ == seq!['r', 's', 'p'],
        "rpsr"@ == seq!['r', 'p', 's', 'r'],
        "rtlr"@ == seq!['r', 't', 'l', 'r'],
        "rthr"@ == seq!['r', 't', 'h', 'r'],
        "rppc"@ == seq!['r', 'p', 'p', 'c'],
        "rppsr"@ == seq!['r', 'p', 'p', 's', 'r'],
        "wsp"@ == seq!['w', 's', 'p'],
        "wpsr"@ == seq!['w', 'p', 's', 'r'],
        "wtlr"@ == seq!['w', 't', 'l', 'r'],
        "wthr"@ == seq!['w', 't', 'h', 'r'],
        "wppc"@ == seq!['w', 'p', 'p', 'c'],
        "wppsr"@ == seq!['w', 'p', 'p', 's', 'r'],
        "rfi"@ == seq!['r', 'f', 'i'],
        "rtr"@ == seq!['r', 't', 'r'],
        "wtr"@ == seq!['w', 't', 'r'],
{
    reveal_strlit("mov");
    reveal_strlit("add");
    reveal_strlit("sub");
    reveal_strlit("and");
    reveal_strlit("or");
    reveal_strlit("xor");
    reveal_strlit("sll");
    reveal_strlit("srl");
    reveal_strlit("sra");
    reveal_strlit("addi");
    reveal_strlit("subi");
    reveal_strlit("beq");
    reveal_strlit("bnq");
    reveal_strlit("blt");
    reveal_strlit("bge");
    reveal_strlit("bltu");
    reveal_strlit("bgeu");
    reveal_strlit("jalr");
    reveal_strlit("lw");
    reveal_strlit("sw");
    reveal_strlit("jal");
    reveal_strlit("lil");
    reveal_strlit("lih");
    reveal_strlit("push");
    reveal_strlit("pop");
    reveal_strlit("rpc");
    reveal_strlit("rsp");
    reveal_strlit("rpsr");
    reveal_strlit("rtlr");
    reveal_strlit("rthr");
    reveal_strlit("rppc");
    reveal_strlit("rppsr");
    reveal_strlit("wsp");
    reveal_strlit("wpsr");
    reveal_strlit("wtlr");
    reveal_strlit("wthr");
    reveal_strlit("wppc");
    reveal_strlit("wppsr");
    reveal_strlit("rfi");
    reveal_strlit("rtr");
    reveal_strlit("wtr");
}

/// A mnemonic is made of letters, one at least.
pub proof fn lemma_mnemonic_letters(m: Seq<char>)
    requires
        format_of(m) is Some,
    ensures
        m.len() > 0,
        forall|i: int| 0 <= i < m.len() ==> is_alpha(#[trigger] m[i]),
{
    lemma_mnemonic_texts();
}

/// Finds the code of mnemonic `m` in the table of `format`.
pub fn find_code(format: InstType, m: &Vec<char>) -> (c: Option<u16>)
    ensures
        c == code(format, m@),
{
    match format {
        InstType::R => {
            if is_str(m, "mov") {
                Some(1)
            } else if is_str(m, "add") {
                Some(2)
            } else if is_str(m, "sub") {
                Some(3)
            } else if is_str(m, "and") {
                Some(4)
            } else if is_str(m, "or") {
                Some(5)
            } else if is_str(m, "xor") {
                Some(6)
            } else if is_str(m, "sll") {
                Some(7)
            } else if is_str(m, "srl") {
                Some(8)
            } else if is_str(m, "sra") {
                Some(9)
            } else {
                None
            }
        },
        InstType::I5 => {
            if is_str(m, "addi") {
                Some(1)
            } else if is_str(m, "subi") {
                Some(2)
            } else if is_str(m, "beq") {
                Some(3)
            } else if is_str(m, "bnq") {
                Some(4)
            } else if is_str(m, "blt") {
                Some(5)
            } else if is_str(m, "bge") {
                Some(6)
            } else if is_str(m, "bltu") {
                Some(7)
            } else if is_str(m, "bgeu") {
                Some(8)
            } else if is_str(m, "jalr") {
                Some(9)
            } else if is_str(m, "lw") {
                Some(10)
            } else if is_str(m, "sw") {
                Some(11)
            } else {
                None
            }
        },
        InstType::I8 => {
            if is_str(m, "jal") {
                Some(12)
            } else if is_str(m, "lil") {
                Some(13)
            } else if is_str(m, "lih") {
                Some(14)
            } else {
                None
            }
        },
        InstType::C1 => {
            if is_str(m, "push") {
                Some(1)
            } else if is_str(m, "pop") {
                Some(2)
            } else if is_str(m, "rpc") {
                Some(3)
            } else if is_str(m, "rsp") {
                Some(4)
            } else if is_str(m, "rpsr") {
                Some(5)
            } else if is_str(m, "rtlr") {
                Some(6)
            } else if is_str(m, "rthr") {
                Some(7)
            } else if is_str(m, "rppc") {
                Some(8)
            } else if is_str(m, "rppsr") {
                Some(9)
            } else if is_str(m, "wsp") {
                Some(10)
            } else if is_str(m, "wpsr") {
                Some(11)
            } else if is_str(m, "wtlr") {
                Some(12)
            } else if is_str(m, "wthr") {
                Some(13)
            } else if is_str(m, "wppc") {
                Some(14)
            } else if is_str(m, "wppsr") {
                Some(15)
            } else {
                None
            }
        },
        InstType::C2 => {
            if is_str(m, "rfi") {
                Some(1)
            } else if is_str(m, "rtr") {
                Some(2)
            } else if is_str(m, "wtr") {
                Some(3)
            } else {
                None
            }
        },
    }
}

/// Finds the format that mnemonic `m` belongs to.
pub fn find_format(m: &Vec<char>) -> (f: Option<InstType>)
    ensures
        f == format_of(m@),
{
    if find_code(InstType::R, m).is_some() {
        Some(InstType::R)
    } else if find_code(InstType::I5, m).is_some() {
        Some(InstType::I5)
    } else if find_code(InstType::I8, m).is_some() {
        Some(InstType::I8)
    } else if find_code(InstType::C1, m).is_some() {
        Some(InstType::C1)
    } else if find_code(InstType::C2, m).is_some() {
        Some(InstType::C2)
    } else {
        None
    }
}

/// Finds the number of the register that `name` stands for.
pub fn find_register(name: &Vec<char>) -> (r: Option<u16>)
    ensures
        r == register(name@),
{
    if is_str(name, "x0") || is_str(name, "zero") {
        Some(0)
    } else if is_str(name, "x1") || is_str(name, "ra") {
        Some(1)
    } else if is_str(name, "x2") || is_str(name, "fp") {
        Some(2)
    } else if is_str(name, "x3") || is_str(name, "a0") {
        Some(3)
    } else if is_str(name, "x4") || is_str(name, "a1") {
        Some(4)
    } else if is_str(name, "x5") || is_str(name, "a2") {
        Some(5)
    } else if is_str(name, "x6") || is_str(name, "t0") {
        Some(6)
    } else if is_str(name, "x7") || is_str(name, "t1") {
        Some(7)
    } else {
        None
    }
}

} // verus!
