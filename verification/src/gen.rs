//! The encoder: from statements and a label table to 16-bit words, and from
//! words to the bytes of the image.

use crate::error::{agrees, AsmError, AsmErrorView};
use crate::isa::{
    c1_word, c2_word, code, find_code, find_register, high_byte, i5_word, i8_high_word, i8_word,
    low_byte, r_word, register, twos_complement,
};
use crate::number::{decimal_i8, decimal_u8, hex_u16, parse_integer};
use crate::parse::{
    encodable, expr_views, label_views, Expr, ExprView, InstType, Label, LabelView,
};
use crate::text::{copy_range, is_str, to_chars};
use vstd::prelude::*;
use vstd::string::StringExecFns;

verus! {

/// The address of the label `name`: that of its first declaration in the
/// table.
pub open spec fn resolve(labels: Seq<LabelView>, name: Seq<char>) -> Option<u16>
    decreases labels.len(),
{
    if labels.len() == 0 {
        None
    } else if labels[0].name == name {
        Some(labels[0].address)
    } else {
        resolve(labels.drop_first(), name)
    }
}

/// The number of the register operand `name`, or the error that it is none.
pub open spec fn operand(name: Seq<char>) -> Result<u16, AsmErrorView> {
    match register(name) {
        Some(r) => Ok(r),
        None => Err(AsmErrorView::UnknownRegister { name }),
    }
}

/// The immediate of an instruction of format I5. `addi` and `subi` take an
/// unsigned number from 0 to 31, the others a signed number from -16 to 15.
/// What does not read as a number of 8 bits of that kind is a parse error;
/// a number beyond the range is a range error.
pub open spec fn i5_immediate(mnemonic: Seq<char>, imm: Seq<char>) -> Result<int, AsmErrorView> {
    if mnemonic == "addi"@ || mnemonic == "subi"@ {
        match decimal_u8(imm) {
            None => Err(AsmErrorView::ImmediateParseError { token: imm }),
            Some(v) => if v <= 31 {
                Ok(v)
            } else {
                Err(AsmErrorView::ImmediateRangeError { value: v, min: 0, max: 31 })
            },
        }
    } else {
        match decimal_i8(imm) {
            None => Err(AsmErrorView::ImmediateParseError { token: imm }),
            Some(v) => if -16 <= v <= 15 {
                Ok(v)
            } else {
                Err(AsmErrorView::ImmediateRangeError { value: v, min: -16, max: 15 })
            },
        }
    }
}

/// Tells whether `s` starts with `0x`.
pub open spec fn has_hex_prefix(s: Seq<char>) -> bool {
    s.len() >= 2 && s[0] == '0' && s[1] == 'x'
}

/// `s` without the `0x` it starts with, however often that is repeated.
pub open spec fn hex_digits(s: Seq<char>) -> Seq<char>
    decreases s.len(),
{
    if has_hex_prefix(s) {
        hex_digits(s.skip(2))
    } else {
        s
    }
}

/// An I8 word for the 16-bit value `v`, of which the selector picks a byte:
/// `l` the low one, `h` the high one.
pub open spec fn selected(opcode: u16, rd: u16, v: u16, symbol: Seq<char>) -> Result<
    u16,
    AsmErrorView,
> {
    if symbol == "l"@ {
        Ok(i8_word(opcode, rd, v))
    } else if symbol == "h"@ {
        Ok(i8_high_word(opcode, rd, v))
    } else {
        Err(AsmErrorView::UnknownSymbolSelector { selector: symbol })
    }
}

/// The word of an instruction of format I8 at `address`.
///
/// For `jal`, an immediate that names a label is the distance from the
/// instruction to the label, `label - address` with nothing added, which has
/// to fit a signed byte; any other immediate is read as a signed decimal
/// byte. The selector plays no part.
///
/// For `lil` and `lih`, an immediate that starts with `0x` is a hexadecimal
/// number of 16 bits, and any other immediate names a label, whose address
/// is the number. The selector picks the byte of the number that the word
/// carries.
pub open spec fn i8_instruction(
    opcode: u16,
    mnemonic: Seq<char>,
    rd: Seq<char>,
    imm: Seq<char>,
    symbol: Seq<char>,
    address: u16,
    labels: Seq<LabelView>,
) -> Result<u16, AsmErrorView> {
    match operand(rd) {
        Err(e) => Err(e),
        Ok(d) => if mnemonic == "jal"@ {
            match resolve(labels, imm) {
                Some(target) => {
                    let offset = target as int - address as int;
                    if -128 <= offset <= 127 {
                        Ok(i8_word(opcode, d, twos_complement(offset)))
                    } else {
                        Err(AsmErrorView::BranchOutOfRange { label: imm, offset })
                    }
                },
                None => match decimal_i8(imm) {
                    Some(v) => Ok(i8_word(opcode, d, twos_complement(v))),
                    None => Err(AsmErrorView::ImmediateParseError { token: imm }),
                },
            }
        } else if has_hex_prefix(imm) {
            match hex_u16(hex_digits(imm)) {
                Some(v) => selected(opcode, d, v as u16, symbol),
                None => Err(AsmErrorView::ImmediateParseError { token: imm }),
            }
        } else {
            match resolve(labels, imm) {
                Some(a) => selected(opcode, d, a, symbol),
                None => Err(AsmErrorView::UnknownLabel { name: imm }),
            }
        },
    }
}

/// The word that stands for `stmt`, or the first error met in it. Registers
/// are checked in the order `rd`, `rs`, and before the immediate.
pub open spec fn word(stmt: ExprView, labels: Seq<LabelView>) -> Result<u16, AsmErrorView>
    recommends
        encodable(stmt),
{
    match stmt {
        ExprView::Inst { inst_type, mnemonic, rd, rs, imm, symbol, address } => {
            let c = code(inst_type, mnemonic).unwrap();
            match inst_type {
                InstType::R => match operand(rd) {
                    Err(e) => Err(e),
                    Ok(d) => match operand(rs) {
                        Err(e) => Err(e),
                        Ok(s) => Ok(r_word(d, s, c)),
                    },
                },
                InstType::I5 => match operand(rd) {
                    Err(e) => Err(e),
                    Ok(d) => match operand(rs) {
                        Err(e) => Err(e),
                        Ok(s) => match i5_immediate(mnemonic, imm) {
                            Err(e) => Err(e),
                            Ok(v) => Ok(i5_word(c, d, s, twos_complement(v))),
                        },
                    },
                },
                InstType::I8 => i8_instruction(c, mnemonic, rd, imm, symbol, address, labels),
                InstType::C1 => match operand(rd) {
                    Err(e) => Err(e),
                    Ok(d) => Ok(c1_word(d, c)),
                },
                InstType::C2 => Ok(c2_word(c)),
            }
        },
        ExprView::Const { val, .. } => match hex_u16(val) {
            Some(w) => Ok(w as u16),
            None => Err(AsmErrorView::ImmediateParseError { token: seq!['0', 'x'] + val }),
        },
        ExprView::Label { .. } => arbitrary(),
    }
}

/// The words of the statements, in their order, or the error of the first
/// statement that has one.
pub open spec fn words(stmts: Seq<ExprView>, labels: Seq<LabelView>) -> Result<
    Seq<u16>,
    AsmErrorView,
>
    decreases stmts.len(),
{
    if stmts.len() == 0 {
        Ok(Seq::empty())
    } else {
        match words(stmts.drop_last(), labels) {
            Err(e) => Err(e),
            Ok(ws) => match word(stmts.last(), labels) {
                Err(e) => Err(e),
                Ok(w) => Ok(ws.push(w)),
            },
        }
    }
}

/// The bytes of the words: two for each word, the low byte first.
pub open spec fn image(ws: Seq<u16>) -> Seq<u8> {
    Seq::new(
        2 * ws.len(),
        |i: int|
            if i % 2 == 0 {
                low_byte(ws[i / 2])
            } else {
                high_byte(ws[i / 2])
            },
    )
}

/// The image of the statements, or the error of the first statement that has
/// one.
pub open spec fn encoding(stmts: Seq<ExprView>, labels: Seq<LabelView>) -> Result<
    Seq<u8>,
    AsmErrorView,
> {
    match words(stmts, labels) {
        Ok(ws) => Ok(image(ws)),
        Err(e) => Err(e),
    }
}

/// The number of the register that `reg` names.
pub fn gen_reg(reg: String) -> (res: Result<u16, AsmError>)
    ensures
        agrees(res, operand(reg@)),
        res matches Ok(r) ==> r <= 7,
{
    let name = to_chars(reg.as_str());
    match find_register(&name) {
        Some(r) => Ok(r),
        None => Err(AsmError::UnknownRegister { name: reg }),
    }
}

/// The address of the label `name`.
pub fn find_label(labels: &Vec<Label>, name: &String) -> (r: Option<u16>)
    ensures
        r == resolve(label_views(labels@), name@),
{
    let ghost views = label_views(labels@);
    assert(views.skip(0) == views);
    let mut i: usize = 0;
    while i < labels.len()
        invariant
            0 <= i <= labels.len(),
            views == label_views(labels@),
            resolve(views, name@) == resolve(views.skip(i as int), name@),
        decreases labels.len() - i,
    {
        assert(views.skip(i as int)[0] == labels@[i as int]@);
        if labels[i].name == *name {
            return Some(labels[i].address);
        }
        assert(views.skip(i as int).drop_first() == views.skip(i + 1));
        i += 1;
    }
    None
}

/// The 16 bits that stand for `v` in two's complement.
fn to_u16(v: i32) -> (r: u16)
    requires
        -0x8000 <= v <= 0xFFFF,
    ensures
        r == twos_complement(v as int),
{
    if v < 0 {
        (v + 0x10000) as u16
    } else {
        v as u16
    }
}

/// Reads the immediate of an instruction of format I5.
fn read_i5_immediate(mnemonic: &Vec<char>, imm: &String) -> (res: Result<i32, AsmError>)
    ensures
        match i5_immediate(mnemonic@, imm@) {
            Ok(v) => res == Ok::<i32, AsmError>(v as i32) && -16 <= v <= 31,
            Err(e) => res is Err && res->Err_0@ == e,
        },
{
    let token = to_chars(imm.as_str());
    if is_str(mnemonic, "addi") || is_str(mnemonic, "subi") {
        match parse_integer(&token, 10, false, 0, 255) {
            None => Err(AsmError::ImmediateParseError { token: imm.clone() }),
            Some(v) => if v <= 31 {
                Ok(v)
            } else {
                Err(AsmError::ImmediateRangeError { value: v, min: 0, max: 31 })
            },
        }
    } else {
        match parse_integer(&token, 10, true, -128, 127) {
            None => Err(AsmError::ImmediateParseError { token: imm.clone() }),
            Some(v) => if -16 <= v && v <= 15 {
                Ok(v)
            } else {
                Err(AsmError::ImmediateRangeError { value: v, min: -16, max: 15 })
            },
        }
    }
}

/// Reads a hexadecimal number of 16 bits behind any number of `0x`.
fn read_hex(token: &Vec<char>) -> (r: Option<u16>)
    ensures
        match hex_u16(hex_digits(token@)) {
            Some(v) => r == Some(v as u16) && 0 <= v <= 0xFFFF,
            None => r is None,
        },
{
    let n = token.len();
    let mut start: usize = 0;
    assert(token@.skip(0) == token@);
    while n - start >= 2 && token[start] == '0' && token[start + 1] == 'x'
        invariant
            0 <= start <= n == token.len(),
            hex_digits(token@) == hex_digits(token@.skip(start as int)),
        decreases n - start,
    {
        assert(token@.skip(start as int).skip(2) == token@.skip(start + 2));
        start += 2;
    }
    let digits = copy_range(token, start, n);
    assert(digits@ == token@.skip(start as int));
    match parse_integer(&digits, 16, false, 0, 0xFFFF) {
        Some(v) => Some(v as u16),
        None => None,
    }
}

/// The I8 word that carries the byte of `v` that the selector picks.
fn select(opcode: u16, rd: u16, v: u16, symbol: &String) -> (res: Result<u16, AsmError>)
    ensures
        agrees(res, selected(opcode, rd, v, symbol@)),
{
    let s = to_chars(symbol.as_str());
    if is_str(&s, "l") {
        Ok(opcode & 0x001F | (rd & 0x0007) << 5 | (v & 0x00FF) << 8)
    } else if is_str(&s, "h") {
        Ok(opcode & 0x001F | (rd & 0x0007) << 5 | (v & 0xFF00))
    } else {
        Err(AsmError::UnknownSymbolSelector { selector: symbol.clone() })
    }
}

/// Encodes an instruction of format I8.
fn encode_i8(
    opcode: u16,
    mnemonic: &Vec<char>,
    rd: &String,
    imm: &String,
    symbol: &String,
    address: u16,
    label_table: &Vec<Label>,
) -> (res: Result<u16, AsmError>)
    ensures
        agrees(
            res,
            i8_instruction(
                opcode,
                mnemonic@,
                rd@,
                imm@,
                symbol@,
                address,
                label_views(label_table@),
            ),
        ),
{
    let d = gen_reg(rd.clone())?;
    if is_str(mnemonic, "jal") {
        match find_label(label_table, imm) {
            Some(target) => {
                let offset: i32 = target as i32 - address as i32;
                if -128 <= offset && offset <= 127 {
                    let field = to_u16(offset);
                    Ok(opcode & 0x001F | (d & 0x0007) << 5 | (field & 0x00FF) << 8)
                } else {
                    Err(AsmError::BranchOutOfRange { label: imm.clone(), offset })
                }
            },
            None => {
                let token = to_chars(imm.as_str());
                match parse_integer(&token, 10, true, -128, 127) {
                    Some(v) => {
                        let field = to_u16(v);
                        Ok(opcode & 0x001F | (d & 0x0007) << 5 | (field & 0x00FF) << 8)
                    },
                    None => Err(AsmError::ImmediateParseError { token: imm.clone() }),
                }
            },
        }
    } else {
        let token = to_chars(imm.as_str());
        if token.len() >= 2 && token[0] == '0' && token[1] == 'x' {
            match read_hex(&token) {
                Some(v) => select(opcode, d, v, symbol),
                None => Err(AsmError::ImmediateParseError { token: imm.clone() }),
            }
        } else {
            match find_label(label_table, imm) {
                Some(a) => select(opcode, d, a, symbol),
                None => Err(AsmError::UnknownLabel { name: imm.clone() }),
            }
        }
    }
}

/// Encodes one statement: the word that stands for it, or the first error
/// met in it.
pub fn encode(expr: &Expr, label_table: &Vec<Label>) -> (res: Result<u16, AsmError>)
    requires
        encodable(expr@),
    ensures
        agrees(res, word(expr@, label_views(label_table@))),
{
    match expr {
        Expr::Inst { inst_type, mnemonic, rd, rs, imm, symbol, address } => {
            let m = to_chars(mnemonic.as_str());
            let c = match find_code(*inst_type, &m) {
                Some(c) => c,
                // left out by the precondition
                None => 0,
            };
            match inst_type {
                InstType::R => {
                    let d = gen_reg(rd.clone())?;
                    let s = gen_reg(rs.clone())?;
                    Ok((d & 0x0007) << 5 | (s & 0x0007) << 8 | (c & 0x001F) << 11)
                },
                InstType::I5 => {
                    let d = gen_reg(rd.clone())?;
                    let s = gen_reg(rs.clone())?;
                    let v = read_i5_immediate(&m, imm)?;
                    let field = to_u16(v);
                    Ok(
                        c & 0x001F | (d & 0x0007) << 5 | (s & 0x0007) << 8 | (field & 0x001F)
                            << 11,
                    )
                },
                InstType::I8 => encode_i8(c, &m, rd, imm, symbol, *address, label_table),
                InstType::C1 => {
                    let d = gen_reg(rd.clone())?;
                    Ok(0x001E | (d & 0x0007) << 5 | (c & 0x001F) << 11)
                },
                InstType::C2 => Ok(0x001F | (c & 0x001F) << 11),
            }
        },
        Expr::Const { val, .. } => {
            let token = to_chars(val.as_str());
            match parse_integer(&token, 16, false, 0, 0xFFFF) {
                Some(w) => Ok(w as u16),
                None => {
                    proof {
                        reveal_strlit("0x");
                        assert("0x"@ =~= seq!['0', 'x']);
                    }
                    Err(
                        AsmError::ImmediateParseError {
                            token: String::from_str("0x").concat(val.as_str()),
                        },
                    )
                },
            }
        },
        // left out by the precondition
        Expr::Label { .. } => Ok(0),
    }
}

/// The image grows by the two bytes of each word that is added, low byte
/// first.
pub proof fn lemma_image_push(ws: Seq<u16>, w: u16)
    ensures
        image(ws.push(w)) == image(ws).push(low_byte(w)).push(high_byte(w)),
{
    let a = image(ws.push(w));
    let b = image(ws).push(low_byte(w)).push(high_byte(w));
    assert(a.len() == b.len());
    assert forall|i: int| 0 <= i < a.len() implies a[i] == b[i] by {
        if i < 2 * ws.len() {
            assert(ws.push(w)[i / 2] == ws[i / 2]);
        } else {
            assert(i / 2 == ws.len());
        }
    }
    assert(a =~= b);
}

/// The low byte of `w`.
fn low(w: u16) -> (b: u8)
    ensures
        b == low_byte(w),
{
    assert(w & 0x00FF <= 0xFF) by (bit_vector);
    (w & 0x00FF) as u8
}

/// The high byte of `w`.
fn high(w: u16) -> (b: u8)
    ensures
        b == high_byte(w),
{
    assert((w & 0xFF00) >> 8 <= 0xFF) by (bit_vector);
    ((w & 0xFF00) >> 8) as u8
}

/// Encodes the statements of a program into the bytes of its image: one
/// word for each statement, in their order, each word as its low byte and
/// then its high byte. The run stops at the first statement that cannot be
/// encoded, with its error and without any output.
pub fn gen(exprs: Vec<Expr>, label_table: Vec<Label>) -> (res: Result<Vec<u8>, AsmError>)
    requires
        forall|i: int| 0 <= i < exprs.len() ==> encodable(#[trigger] exprs[i]@),
    ensures
        match encoding(expr_views(exprs@), label_views(label_table@)) {
            Ok(bytes) => res is Ok && res->Ok_0@ == bytes,
            Err(e) => res is Err && res->Err_0@ == e,
        },
        res matches Ok(bytes) ==> {
            &&& bytes.len() == 2 * exprs.len()
            &&& forall|i: int|
                0 <= i < exprs.len() ==> {
                    &&& (#[trigger] word(exprs[i]@, label_views(label_table@))) is Ok
                    &&& bytes[2 * i] == low_byte(
                        word(exprs[i]@, label_views(label_table@))->Ok_0,
                    )
                    &&& bytes[2 * i + 1] == high_byte(
                        word(exprs[i]@, label_views(label_table@))->Ok_0,
                    )
                }
        },
        res matches Err(e) ==> exists|i: int|
            {
                &&& 0 <= i < exprs.len()
                &&& (#[trigger] word(exprs[i]@, label_views(label_table@))) == Err::<
                    u16,
                    AsmErrorView,
                >(e@)
                &&& forall|j: int|
                    0 <= j < i ==> (#[trigger] word(exprs[j]@, label_views(label_table@))) is Ok
            },
{
    let ghost stmts = expr_views(exprs@);
    let ghost labels = label_views(label_table@);
    let mut bytes: Vec<u8> = Vec::new();
    let mut i: usize = 0;
    assert(stmts.take(0) == Seq::<ExprView>::empty());
    assert(image(Seq::<u16>::empty()) == Seq::<u8>::empty());
    while i < exprs.len()
        invariant
            0 <= i <= exprs.len(),
            stmts == expr_views(exprs@),
            labels == label_views(label_table@),
            forall|k: int| 0 <= k < exprs.len() ==> encodable(#[trigger] exprs[k]@),
            words(stmts.take(i as int), labels) is Ok,
            bytes@ == image(words(stmts.take(i as int), labels)->Ok_0),
            bytes.len() == 2 * i,
        decreases exprs.len() - i,
    {
        let ghost before = words(stmts.take(i as int), labels)->Ok_0;
        proof {
            assert(stmts.take(i + 1).drop_last() == stmts.take(i as int));
            assert(stmts.take(i + 1).last() == exprs[i as int]@);
        }
        match encode(&exprs[i], &label_table) {
            Err(e) => {
                proof {
                    lemma_words_error(stmts, labels, i + 1);
                    lemma_words(stmts, labels);
                    let first = choose|k: int|
                        {
                            &&& 0 <= k < stmts.len()
                            &&& (#[trigger] word(stmts[k], labels)) == Err::<u16, AsmErrorView>(
                                e@,
                            )
                            &&& forall|j: int|
                                0 <= j < k ==> (#[trigger] word(stmts[j], labels)) is Ok
                        };
                    assert(stmts[first] == exprs[first]@);
                    assert forall|j: int| 0 <= j < first implies (#[trigger] word(
                        exprs[j]@,
                        labels,
                    )) is Ok by {
                        assert(stmts[j] == exprs[j]@);
                    }
                }
                return Err(e);
            },
            Ok(w) => {
                proof {
                    lemma_image_push(before, w);
                }
                bytes.push(low(w));
                bytes.push(high(w));
            },
        }
        i += 1;
    }
    proof {
        assert(stmts.take(i as int) == stmts);
        lemma_words(stmts, labels);
        let ws = words(stmts, labels)->Ok_0;
        assert forall|k: int| 0 <= k < exprs.len() implies {
            &&& (#[trigger] word(exprs[k]@, labels)) is Ok
            &&& bytes[2 * k] == low_byte(word(exprs[k]@, labels)->Ok_0)
            &&& bytes[2 * k + 1] == high_byte(word(exprs[k]@, labels)->Ok_0)
        } by {
            assert(stmts[k] == exprs[k]@);
            assert(ws[k] == word(stmts[k], labels)->Ok_0);
            assert(bytes[2 * k] == image(ws)[2 * k]);
            assert(bytes[2 * k + 1] == image(ws)[2 * k + 1]);
        }
    }
    Ok(bytes)
}

/// An error among the first statements of a program is the error of the
/// whole program.
pub proof fn lemma_words_error(stmts: Seq<ExprView>, labels: Seq<LabelView>, n: int)
    requires
        0 <= n <= stmts.len(),
        words(stmts.take(n), labels) is Err,
    ensures
        words(stmts, labels) == words(stmts.take(n), labels),
    decreases stmts.len() - n,
{
    if n == stmts.len() {
        assert(stmts.take(n) == stmts);
    } else {
        assert(stmts.take(n + 1).drop_last() == stmts.take(n));
        lemma_words_error(stmts, labels, n + 1);
    }
}

/// The encoder goes through the statements one by one. Where every
/// statement has a word, the program has as many words as statements, each
/// the word of the statement in its place. Otherwise the error of the
/// program is that of the first statement that has one.
pub proof fn lemma_words(stmts: Seq<ExprView>, labels: Seq<LabelView>)
    ensures
        match words(stmts, labels) {
            Ok(ws) => {
                &&& ws.len() == stmts.len()
                &&& forall|i: int|
                    0 <= i < stmts.len() ==> (#[trigger] word(stmts[i], labels)) == Ok::<
                        u16,
                        AsmErrorView,
                    >(ws[i])
            },
            Err(e) => exists|i: int|
                {
                    &&& 0 <= i < stmts.len()
                    &&& (#[trigger] word(stmts[i], labels)) == Err::<u16, AsmErrorView>(e)
                    &&& forall|j: int| 0 <= j < i ==> (#[trigger] word(stmts[j], labels)) is Ok
                },
        },
    decreases stmts.len(),
{
    if stmts.len() > 0 {
        let front = stmts.drop_last();
        lemma_words(front, labels);
        match words(front, labels) {
            Ok(ws) => {
                assert forall|i: int| 0 <= i < front.len() implies (#[trigger] word(
                    stmts[i],
                    labels,
                )) == Ok::<u16, AsmErrorView>(ws[i]) by {
                    assert(front[i] == stmts[i]);
                }
                match word(stmts.last(), labels) {
                    Ok(w) => {},
                    Err(e) => {
                        let i = stmts.len() - 1;
                        assert(word(stmts[i], labels) == Err::<u16, AsmErrorView>(e));
                    },
                }
            },
            Err(e) => {
                let i = choose|i: int|
                    {
                        &&& 0 <= i < front.len()
                        &&& (#[trigger] word(front[i], labels)) == Err::<u16, AsmErrorView>(e)
                        &&& forall|j: int|
                            0 <= j < i ==> (#[trigger] word(front[j], labels)) is Ok
                    };
                assert(front[i] == stmts[i]);
                assert forall|j: int| 0 <= j < i implies (#[trigger] word(stmts[j], labels))
                    is Ok by {
                    assert(front[j] == stmts[j]);
                }
            },
        }
    }
}

/// Tells whether the encoder has a word for `expr`.
pub fn can_encode(expr: &Expr) -> (b: bool)
    ensures
        b == encodable(expr@),
{
    match expr {
        Expr::Inst { inst_type, mnemonic, .. } => {
            let m = to_chars(mnemonic.as_str());
            find_code(*inst_type, &m).is_some()
        },
        Expr::Const { .. } => true,
        Expr::Label { .. } => false,
    }
}

} // verus!
