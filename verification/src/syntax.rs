//! The syntax of statements, from both sides. What is read from a line
//! has the tokens of its kind; and a line that is written in the plain way,
//! with one space where blanks may stand, is read as the statement that it
//! is meant to be.

use crate::isa::{format_of, lemma_mnemonic_letters};
use crate::parse::{
    address_of, comma, declaration, directive, encodable, immediate, instruction,
    register_token, statement, ExprView, InstType,
};
use crate::text::{is_blank, lemma_run_end, lemma_run_to, run_end, Class};
use vstd::prelude::*;

verus! {

/// Tells whether `s` is a name: letters and digits, one at least.
pub open spec fn is_name(s: Seq<char>) -> bool {
    s.len() > 0 && forall|i: int| 0 <= i < s.len() ==> Class::Alphanumeric.holds(#[trigger] s[i])
}

/// Tells whether a statement has the tokens of its kind. An instruction
/// has a mnemonic of its format; the registers of its format are names, the
/// operands that its format lacks are empty; the immediate of format I5
/// holds no space, that of format I8 no `@`, and a selector holds no space.
/// The value of a constant is made of hexadecimal digits, one at least. The
/// name of a label is a name.
pub open spec fn well_formed(stmt: ExprView) -> bool {
    match stmt {
        ExprView::Inst { inst_type, mnemonic, rd, rs, imm, symbol, .. } => {
            &&& format_of(mnemonic) == Some(inst_type)
            &&& match inst_type {
                InstType::R => is_name(rd) && is_name(rs) && imm.len() == 0 && symbol.len() == 0,
                InstType::I5 => is_name(rd) && is_name(rs) && !imm.contains(' ') && symbol.len()
                    == 0,
                InstType::I8 => is_name(rd) && rs.len() == 0 && !imm.contains('@')
                    && !symbol.contains(' '),
                InstType::C1 => is_name(rd) && rs.len() == 0 && imm.len() == 0 && symbol.len()
                    == 0,
                InstType::C2 => rd.len() == 0 && rs.len() == 0 && imm.len() == 0 && symbol.len()
                    == 0,
            }
        },
        ExprView::Const { val, .. } => val.len() > 0 && forall|i: int|
            0 <= i < val.len() ==> Class::Hex.holds(#[trigger] val[i]),
        ExprView::Label { name, .. } => is_name(name),
    }
}

/// A register operand is a name that lies inside the line.
proof fn lemma_register_token(s: Seq<char>, pos: int)
    requires
        0 <= pos <= s.len(),
    ensures
        register_token(s, pos) matches Some((a, b)) ==> pos <= a < b <= s.len() && is_name(
            s.subrange(a, b),
        ),
{
    lemma_run_end(s, pos, Class::Blank);
    let start = run_end(s, pos, Class::Blank);
    lemma_run_end(s, start, Class::Alphanumeric);
    let end = run_end(s, start, Class::Alphanumeric);
    if end > start {
        let token = s.subrange(start, end);
        assert forall|i: int| 0 <= i < token.len() implies Class::Alphanumeric.holds(
            #[trigger] token[i],
        ) by {
            assert(token[i] == s[start + i]);
        }
    }
}

/// What a comma is followed by lies inside the line.
proof fn lemma_comma(s: Seq<char>, pos: int)
    requires
        0 <= pos <= s.len(),
    ensures
        comma(s, pos) matches Some(p) ==> pos < p <= s.len(),
{
    lemma_run_end(s, pos, Class::Blank);
}

/// A run of characters other than `stop` does not hold `stop`.
proof fn lemma_run_without(s: Seq<char>, from: int, stop: char)
    requires
        0 <= from <= s.len(),
    ensures
        from <= run_end(s, from, Class::Except(stop)) <= s.len(),
        !s.subrange(from, run_end(s, from, Class::Except(stop))).contains(stop),
{
    lemma_run_end(s, from, Class::Except(stop));
    let end = run_end(s, from, Class::Except(stop));
    let token = s.subrange(from, end);
    assert forall|i: int| 0 <= i < token.len() implies token[i] != stop by {
        assert(token[i] == s[from + i]);
        assert(Class::Except(stop).holds(s[from + i]));
    }
}

/// An instruction that is read has the tokens of its format.
proof fn lemma_instruction_shape(s: Seq<char>, pos: int)
    requires
        0 <= pos <= s.len(),
    ensures
        instruction(s, pos) matches Some(stmt) ==> well_formed(stmt) && address_of(stmt) == 0,
{
    lemma_run_end(s, pos, Class::Alpha);
    let m_end = run_end(s, pos, Class::Alpha);
    let none = Seq::<char>::empty();
    assert(!none.contains(' ') && !none.contains('@'));
    lemma_register_token(s, m_end);
    if instruction(s, pos) is Some {
        match format_of(s.subrange(pos, m_end)) {
            Some(InstType::R) => {
                let rd = register_token(s, m_end)->0;
                lemma_comma(s, rd.1);
                lemma_register_token(s, comma(s, rd.1)->0);
            },
            Some(InstType::I5) => {
                let rd = register_token(s, m_end)->0;
                lemma_comma(s, rd.1);
                lemma_register_token(s, comma(s, rd.1)->0);
                let rs = register_token(s, comma(s, rd.1)->0)->0;
                lemma_comma(s, rs.1);
                let behind = comma(s, rs.1)->0;
                lemma_run_end(s, behind, Class::Blank);
                lemma_run_without(s, run_end(s, behind, Class::Blank), ' ');
            },
            Some(InstType::I8) => {
                let rd = register_token(s, m_end)->0;
                lemma_comma(s, rd.1);
                let behind = comma(s, rd.1)->0;
                lemma_run_end(s, behind, Class::Blank);
                let start = run_end(s, behind, Class::Blank);
                lemma_run_without(s, start, '@');
                lemma_run_without(s, start, ' ');
                let at = run_end(s, start, Class::Except('@'));
                if at < s.len() {
                    lemma_run_without(s, at + 1, ' ');
                } else {
                    let end = run_end(s, start, Class::Except(' '));
                    let imm = s.subrange(start, end);
                    let whole = s.subrange(start, at);
                    assert forall|i: int| 0 <= i < imm.len() implies imm[i] != '@' by {
                        assert(imm[i] == whole[i]);
                        assert(whole.contains(whole[i]));
                    }
                    assert(s.subrange(end, end) == none);
                }
            },
            Some(InstType::C1) => {},
            Some(InstType::C2) => {},
            None => {},
        }
    }
}

/// A data directive that is read has a value of hexadecimal digits.
proof fn lemma_directive_shape(s: Seq<char>, pos: int)
    requires
        0 <= pos <= s.len(),
    ensures
        directive(s, pos) matches Some(stmt) ==> well_formed(stmt) && address_of(stmt) == 0,
{
    lemma_run_end(s, pos, Class::Blank);
    let dot = run_end(s, pos, Class::Blank);
    if directive(s, pos) is Some {
        lemma_run_end(s, dot + 1, Class::Alpha);
        let name_end = run_end(s, dot + 1, Class::Alpha);
        lemma_run_end(s, name_end, Class::Blank);
        let prefix = run_end(s, name_end, Class::Blank);
        lemma_run_end(s, prefix + 2, Class::Hex);
        let end = run_end(s, prefix + 2, Class::Hex);
        let val = s.subrange(prefix + 2, end);
        assert forall|i: int| 0 <= i < val.len() implies Class::Hex.holds(#[trigger] val[i]) by {
            assert(val[i] == s[prefix + 2 + i]);
        }
    }
}

/// A label declaration that is read has a name.
proof fn lemma_declaration_shape(s: Seq<char>, pos: int)
    requires
        0 <= pos <= s.len(),
    ensures
        declaration(s, pos) matches Some(stmt) ==> well_formed(stmt) && address_of(stmt) == 0,
{
    lemma_run_end(s, pos, Class::Alphanumeric);
    let end = run_end(s, pos, Class::Alphanumeric);
    if declaration(s, pos) is Some {
        let name = s.subrange(pos, end);
        assert forall|i: int| 0 <= i < name.len() implies Class::Alphanumeric.holds(
            #[trigger] name[i],
        ) by {
            assert(name[i] == s[pos + i]);
        }
    }
}

/// Every statement that a line holds has the tokens of its kind, and the
/// address 0.
pub proof fn lemma_statement_shape(line: Seq<char>)
    ensures
        statement(line) matches Some(stmt) ==> well_formed(stmt) && address_of(stmt) == 0,
{
    lemma_run_end(line, 0, Class::Blank);
    let pos = run_end(line, 0, Class::Blank);
    lemma_instruction_shape(line, pos);
    lemma_directive_shape(line, pos);
    lemma_declaration_shape(line, pos);
}

/// A statement with the tokens of its kind has a word, unless it is a label
/// declaration.
pub proof fn lemma_well_formed_encodable(stmt: ExprView)
    requires
        well_formed(stmt),
    ensures
        stmt is Label || encodable(stmt),
{
}

/// A register operand that stands in a line behind one space, and is
/// followed by no letter or digit, is read as it stands.
proof fn lemma_reads_register(s: Seq<char>, pos: int, name: Seq<char>)
    requires
        0 <= pos,
        pos + 1 + name.len() <= s.len(),
        s[pos] == ' ',
        is_name(name),
        s.subrange(pos + 1, pos + 1 + name.len()) == name,
        pos + 1 + name.len() < s.len() ==> !Class::Alphanumeric.holds(s[pos + 1 + name.len()]),
    ensures
        register_token(s, pos) == Some((pos + 1, pos + 1 + name.len())),
{
    let end = pos + 1 + name.len();
    assert forall|i: int| pos + 1 <= i < end implies Class::Alphanumeric.holds(
        #[trigger] s[i],
    ) by {
        assert(s[i] == name[i - (pos + 1)]);
    }
    assert(Class::Alphanumeric.holds(s[pos + 1]));
    lemma_run_to(s, pos, pos + 1, Class::Blank);
    lemma_run_to(s, pos + 1, end, Class::Alphanumeric);
}

/// A comma that stands right at `pos` is read there.
proof fn lemma_reads_comma(s: Seq<char>, pos: int)
    requires
        0 <= pos < s.len(),
        s[pos] == ',',
    ensures
        comma(s, pos) == Some(pos + 1),
{
    lemma_run_to(s, pos, pos, Class::Blank);
}

/// The mnemonic at the start of a line is read up to the first character
/// that is no letter.
proof fn lemma_reads_mnemonic(s: Seq<char>, m: Seq<char>)
    requires
        format_of(m) is Some,
        m.len() <= s.len(),
        s.subrange(0, m.len() as int) == m,
        m.len() < s.len() ==> !Class::Alpha.holds(s[m.len() as int]),
    ensures
        m.len() > 0,
        run_end(s, 0, Class::Blank) == 0,
        run_end(s, 0, Class::Alpha) == m.len(),
{
    lemma_mnemonic_letters(m);
    assert forall|i: int| 0 <= i < m.len() implies Class::Alpha.holds(#[trigger] s[i]) by {
        assert(s[i] == m[i]);
    }
    assert(Class::Alpha.holds(s[0]));
    lemma_run_to(s, 0, 0, Class::Blank);
    lemma_run_to(s, 0, m.len() as int, Class::Alpha);
}

/// `mnemonic rd, rs` is read as the instruction of format R that it writes.
pub proof fn lemma_reads_r(m: Seq<char>, rd: Seq<char>, rs: Seq<char>)
    requires
        format_of(m) == Some(InstType::R),
        is_name(rd),
        is_name(rs),
    ensures
        statement(m + seq![' '] + rd + seq![',', ' '] + rs) == Some(
            ExprView::Inst {
                inst_type: InstType::R,
                mnemonic: m,
                rd,
                rs,
                imm: Seq::empty(),
                symbol: Seq::empty(),
                address: 0,
            },
        ),
{
    let s = m + seq![' '] + rd + seq![',', ' '] + rs;
    let a = m.len() as int;
    let b = a + 1 + rd.len();
    assert(s.subrange(0, a) == m);
    assert(s[a] == ' ');
    assert(s.subrange(a + 1, b) == rd);
    assert(s[b] == ',');
    assert(s[b + 1] == ' ');
    assert(s.subrange(b + 2, b + 2 + rs.len()) == rs);
    lemma_reads_mnemonic(s, m);
    lemma_reads_register(s, a, rd);
    lemma_reads_comma(s, b);
    lemma_reads_register(s, b + 1, rs);
}

/// An immediate that stands in a line behind one space and reaches to the
/// end of the line is read as it stands, if it holds no space and does not
/// start with a blank.
proof fn lemma_reads_immediate(s: Seq<char>, pos: int, imm: Seq<char>)
    requires
        0 <= pos,
        pos + 1 + imm.len() == s.len(),
        s[pos] == ' ',
        s.subrange(pos + 1, s.len() as int) == imm,
        !imm.contains(' '),
        imm.len() > 0 ==> !is_blank(imm[0]),
    ensures
        immediate(s, pos) == (pos + 1, s.len() as int),
{
    assert forall|i: int| pos + 1 <= i < s.len() implies Class::Except(' ').holds(
        #[trigger] s[i],
    ) by {
        assert(s[i] == imm[i - (pos + 1)]);
        assert(imm.contains(imm[i - (pos + 1)]));
    }
    if imm.len() > 0 {
        assert(s[pos + 1] == imm[0]);
    }
    lemma_run_to(s, pos, pos + 1, Class::Blank);
    lemma_run_to(s, pos + 1, s.len() as int, Class::Except(' '));
}

/// `mnemonic rd, rs, imm` is read as the instruction of format I5 that it
/// writes.
pub proof fn lemma_reads_i5(m: Seq<char>, rd: Seq<char>, rs: Seq<char>, imm: Seq<char>)
    requires
        format_of(m) == Some(InstType::I5),
        is_name(rd),
        is_name(rs),
        !imm.contains(' '),
        imm.len() > 0 ==> !is_blank(imm[0]),
    ensures
        statement(m + seq![' '] + rd + seq![',', ' '] + rs + seq![',', ' '] + imm) == Some(
            ExprView::Inst {
                inst_type: InstType::I5,
                mnemonic: m,
                rd,
                rs,
                imm,
                symbol: Seq::empty(),
                address: 0,
            },
        ),
{
    let s = m + seq![' '] + rd + seq![',', ' '] + rs + seq![',', ' '] + imm;
    let a = m.len() as int;
    let b = a + 1 + rd.len();
    let c = b + 2 + rs.len();
    assert(s.subrange(0, a) == m);
    assert(s[a] == ' ');
    assert(s.subrange(a + 1, b) == rd);
    assert(s[b] == ',');
    assert(s[b + 1] == ' ');
    assert(s.subrange(b + 2, c) == rs);
    assert(s[c] == ',');
    assert(s[c + 1] == ' ');
    assert(s.subrange(c + 2, s.len() as int) == imm);
    lemma_reads_mnemonic(s, m);
    lemma_reads_register(s, a, rd);
    lemma_reads_comma(s, b);
    lemma_reads_register(s, b + 1, rs);
    lemma_reads_comma(s, c);
    lemma_reads_immediate(s, c + 1, imm);
}

/// `mnemonic rd, imm` is read as the instruction of format I8 that it
/// writes, without selector.
pub proof fn lemma_reads_i8(m: Seq<char>, rd: Seq<char>, imm: Seq<char>)
    requires
        format_of(m) == Some(InstType::I8),
        is_name(rd),
        !imm.contains(' '),
        !imm.contains('@'),
        imm.len() > 0 ==> !is_blank(imm[0]),
    ensures
        statement(m + seq![' '] + rd + seq![',', ' '] + imm) == Some(
            ExprView::Inst {
                inst_type: InstType::I8,
                mnemonic: m,
                rd,
                rs: Seq::empty(),
                imm,
                symbol: Seq::empty(),
                address: 0,
            },
        ),
{
    let s = m + seq![' '] + rd + seq![',', ' '] + imm;
    let a = m.len() as int;
    let b = a + 1 + rd.len();
    let n = s.len() as int;
    assert(s.subrange(0, a) == m);
    assert(s[a] == ' ');
    assert(s.subrange(a + 1, b) == rd);
    assert(s[b] == ',');
    assert(s[b + 1] == ' ');
    assert(s.subrange(b + 2, n) == imm);
    lemma_reads_mnemonic(s, m);
    lemma_reads_register(s, a, rd);
    lemma_reads_comma(s, b);
    lemma_reads_immediate(s, b + 1, imm);
    assert forall|i: int| b + 2 <= i < n implies Class::Except('@').holds(#[trigger] s[i]) by {
        assert(s[i] == imm[i - (b + 2)]);
        assert(imm.contains(imm[i - (b + 2)]));
    }
    lemma_run_to(s, b + 2, n, Class::Except('@'));
    assert(s.subrange(n, n) == Seq::<char>::empty());
}

/// `mnemonic rd, imm@selector` is read as the instruction of format I8 that
/// it writes, with its selector.
pub proof fn lemma_reads_i8_selector(
    m: Seq<char>,
    rd: Seq<char>,
    imm: Seq<char>,
    selector: Seq<char>,
)
    requires
        format_of(m) == Some(InstType::I8),
        is_name(rd),
        !imm.contains('@'),
        imm.len() > 0 ==> !is_blank(imm[0]),
        !selector.contains(' '),
    ensures
        statement(m + seq![' '] + rd + seq![',', ' '] + imm + seq!['@'] + selector) == Some(
            ExprView::Inst {
                inst_type: InstType::I8,
                mnemonic: m,
                rd,
                rs: Seq::empty(),
                imm,
                symbol: selector,
                address: 0,
            },
        ),
{
    let s = m + seq![' '] + rd + seq![',', ' '] + imm + seq!['@'] + selector;
    let a = m.len() as int;
    let b = a + 1 + rd.len();
    let at = b + 2 + imm.len();
    let n = s.len() as int;
    assert(s.subrange(0, a) == m);
    assert(s[a] == ' ');
    assert(s.subrange(a + 1, b) == rd);
    assert(s[b] == ',');
    assert(s[b + 1] == ' ');
    assert(s.subrange(b + 2, at) == imm);
    assert(s[at] == '@');
    assert(s.subrange(at + 1, n) == selector);
    lemma_reads_mnemonic(s, m);
    lemma_reads_register(s, a, rd);
    lemma_reads_comma(s, b);
    if imm.len() > 0 {
        assert(s[b + 2] == imm[0]);
    }
    lemma_run_to(s, b + 1, b + 2, Class::Blank);
    assert forall|i: int| b + 2 <= i < at implies Class::Except('@').holds(#[trigger] s[i]) by {
        assert(s[i] == imm[i - (b + 2)]);
        assert(imm.contains(imm[i - (b + 2)]));
    }
    lemma_run_to(s, b + 2, at, Class::Except('@'));
    assert forall|i: int| at + 1 <= i < n implies Class::Except(' ').holds(#[trigger] s[i]) by {
        assert(s[i] == selector[i - (at + 1)]);
        assert(selector.contains(selector[i - (at + 1)]));
    }
    lemma_run_to(s, at + 1, n, Class::Except(' '));
}

/// `mnemonic rd` is read as the instruction of format C1 that it writes.
pub proof fn lemma_reads_c1(m: Seq<char>, rd: Seq<char>)
    requires
        format_of(m) == Some(InstType::C1),
        is_name(rd),
    ensures
        statement(m + seq![' '] + rd) == Some(
            ExprView::Inst {
                inst_type: InstType::C1,
                mnemonic: m,
                rd,
                rs: Seq::empty(),
                imm: Seq::empty(),
                symbol: Seq::empty(),
                address: 0,
            },
        ),
{
    let s = m + seq![' '] + rd;
    let a = m.len() as int;
    assert(s.subrange(0, a) == m);
    assert(s[a] == ' ');
    assert(s.subrange(a + 1, s.len() as int) == rd);
    lemma_reads_mnemonic(s, m);
    lemma_reads_register(s, a, rd);
}

/// A mnemonic of format C2 alone is read as the instruction that it writes.
pub proof fn lemma_reads_c2(m: Seq<char>)
    requires
        format_of(m) == Some(InstType::C2),
    ensures
        statement(m) == Some(
            ExprView::Inst {
                inst_type: InstType::C2,
                mnemonic: m,
                rd: Seq::empty(),
                rs: Seq::empty(),
                imm: Seq::empty(),
                symbol: Seq::empty(),
                address: 0,
            },
        ),
{
    assert(m.subrange(0, m.len() as int) == m);
    lemma_reads_mnemonic(m, m);
}

/// `.word 0x` with hexadecimal digits behind it is read as the constant
/// that the digits write.
pub proof fn lemma_reads_word(val: Seq<char>)
    requires
        val.len() > 0,
        forall|i: int| 0 <= i < val.len() ==> Class::Hex.holds(#[trigger] val[i]),
    ensures
        statement(seq!['.', 'w', 'o', 'r', 'd', ' ', '0', 'x'] + val) == Some(
            ExprView::Const { val, address: 0 },
        ),
{
    let s = seq!['.', 'w', 'o', 'r', 'd', ' ', '0', 'x'] + val;
    let n = s.len() as int;
    reveal_strlit("word");
    assert(s.subrange(1, 5) == "word"@);
    assert(s.subrange(8, n) == val);
    assert forall|i: int| 8 <= i < n implies Class::Hex.holds(#[trigger] s[i]) by {
        assert(s[i] == val[i - 8]);
    }
    lemma_run_to(s, 0, 0, Class::Blank);
    lemma_run_to(s, 0, 0, Class::Alpha);
    lemma_run_to(s, 1, 5, Class::Alpha);
    lemma_run_to(s, 5, 6, Class::Blank);
    lemma_run_to(s, 8, n, Class::Hex);
}

/// A name with a colon behind it is read as the declaration of a label of
/// that name, unless the letters that the name starts with are a mnemonic:
/// then the line may be an instruction.
pub proof fn lemma_reads_label(name: Seq<char>)
    requires
        is_name(name),
        format_of(name.subrange(0, run_end(name, 0, Class::Alpha))) is None,
    ensures
        statement(name + seq![':']) == Some(ExprView::Label { name, address: 0 }),
{
    let s = name + seq![':'];
    let n = name.len() as int;
    lemma_run_end(name, 0, Class::Alpha);
    let letters = run_end(name, 0, Class::Alpha);
    assert forall|i: int| 0 <= i < letters implies Class::Alpha.holds(#[trigger] s[i]) by {
        assert(s[i] == name[i]);
    }
    assert(s[letters] == if letters < n {
        name[letters]
    } else {
        ':'
    });
    lemma_run_to(s, 0, letters, Class::Alpha);
    assert(s.subrange(0, letters) == name.subrange(0, letters));
    assert forall|i: int| 0 <= i < n implies Class::Alphanumeric.holds(#[trigger] s[i]) by {
        assert(s[i] == name[i]);
    }
    assert(Class::Alphanumeric.holds(s[0]));
    lemma_run_to(s, 0, 0, Class::Blank);
    lemma_run_to(s, 0, n, Class::Alphanumeric);
    assert(s.subrange(0, n) == name);
}

} // verus!
