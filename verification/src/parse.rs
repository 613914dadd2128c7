//! The statements of a source program, and the reader that makes them from
//! the lines of a text.

use crate::error::{AsmError, AsmErrorView};
use crate::isa::{code, find_format, format_of};
use crate::layout::{
    declares, is_skipped, layout, lemma_layout, lemma_layout_error, lemma_layout_first_error,
    line_at, lines, lines_from, program, takes_word, word_count, Layout,
};
use crate::syntax::{is_name, well_formed};
use crate::text::{copy_range, is_str, run_end, scan, string_of, to_chars, Class};
use vstd::prelude::*;

verus! {

/// The five shapes of an instruction word.
#[derive(Debug, Clone, Copy, PartialEq, Eq)]
pub enum InstType {
    /// Two registers: `mnemonic rd, rs`.
    R,
    /// Two registers and a 5-bit immediate: `mnemonic rd, rs, imm`.
    I5,
    /// One register and an 8-bit immediate: `mnemonic rd, imm` or
    /// `mnemonic rd, imm@selector`.
    I8,
    /// One register: `mnemonic rd`.
    C1,
    /// No operand: `mnemonic`.
    C2,
}

/// One statement of a program. Operands are kept as they were written; the
/// encoder gives them their meaning.
#[derive(Debug, PartialEq)]
pub enum Expr {
    /// An instruction. Operands that its format does not have are empty.
    Inst {
        inst_type: InstType,
        mnemonic: String,
        rd: String,
        rs: String,
        imm: String,
        symbol: String,
        address: u16,
    },
    /// A 16-bit constant, written in hexadecimal without prefix.
    Const { val: String, address: u16 },
    /// The declaration of a label.
    Label { name: String, address: u16 },
}

/// A label and the address it stands for.
#[derive(Debug, Clone, PartialEq)]
pub struct Label {
    pub name: String,
    pub address: u16,
}

/// A statement with its tokens as sequences of characters.
pub enum ExprView {
    Inst {
        inst_type: InstType,
        mnemonic: Seq<char>,
        rd: Seq<char>,
        rs: Seq<char>,
        imm: Seq<char>,
        symbol: Seq<char>,
        address: u16,
    },
    Const { val: Seq<char>, address: u16 },
    Label { name: Seq<char>, address: u16 },
}

/// A label with its name as a sequence of characters.
pub struct LabelView {
    pub name: Seq<char>,
    pub address: u16,
}

impl View for Expr {
    type V = ExprView;

    open spec fn view(&self) -> ExprView {
        match *self {
            Expr::Inst { inst_type, mnemonic, rd, rs, imm, symbol, address } => ExprView::Inst {
                inst_type,
                mnemonic: mnemonic@,
                rd: rd@,
                rs: rs@,
                imm: imm@,
                symbol: symbol@,
                address,
            },
            Expr::Const { val, address } => ExprView::Const { val: val@, address },
            Expr::Label { name, address } => ExprView::Label { name: name@, address },
        }
    }
}

impl View for Label {
    type V = LabelView;

    open spec fn view(&self) -> LabelView {
        LabelView { name: self.name@, address: self.address }
    }
}

/// The statements of `v`, each by its view.
pub open spec fn expr_views(v: Seq<Expr>) -> Seq<ExprView> {
    Seq::new(v.len(), |i: int| v[i]@)
}

/// The labels of `v`, each by its view.
pub open spec fn label_views(v: Seq<Label>) -> Seq<LabelView> {
    Seq::new(v.len(), |i: int| v[i]@)
}

/// A register operand at `pos`: blanks, then letters and digits, one at
/// least. Gives where the token starts and where it ends.
pub open spec fn register_token(s: Seq<char>, pos: int) -> Option<(int, int)> {
    let start = run_end(s, pos, Class::Blank);
    let end = run_end(s, start, Class::Alphanumeric);
    if end > start {
        Some((start, end))
    } else {
        None
    }
}

/// A comma at `pos`, after blanks. Gives where the text behind it starts.
pub open spec fn comma(s: Seq<char>, pos: int) -> Option<int> {
    let at = run_end(s, pos, Class::Blank);
    if at < s.len() && s[at] == ',' {
        Some(at + 1)
    } else {
        None
    }
}

/// Two register operands with a comma between them: `rd, rs`. Gives the
/// two tokens as in `register_token`.
pub open spec fn two_registers(s: Seq<char>, pos: int) -> Option<((int, int), (int, int))> {
    match register_token(s, pos) {
        None => None,
        Some(rd) => match comma(s, rd.1) {
            None => None,
            Some(behind) => match register_token(s, behind) {
                None => None,
                Some(rs) => Some((rd, rs)),
            },
        },
    }
}

/// An immediate at `pos`: after blanks, all that stands before the next
/// space, which may be nothing.
pub open spec fn immediate(s: Seq<char>, pos: int) -> (int, int) {
    let start = run_end(s, pos, Class::Blank);
    (start, run_end(s, start, Class::Except(' ')))
}

/// An immediate with its selector at `pos`. Where an `@` stands anywhere
/// behind the blanks, the immediate is all that stands before the first
/// `@`, and the selector is what follows that `@` up to the next space.
/// Without an `@` the immediate is read as in `immediate`, and the selector
/// is empty (it is given here as the empty token at the end of the
/// immediate).
pub open spec fn split_immediate(s: Seq<char>, pos: int) -> ((int, int), (int, int)) {
    let start = run_end(s, pos, Class::Blank);
    let at = run_end(s, start, Class::Except('@'));
    if at < s.len() {
        ((start, at), (at + 1, run_end(s, at + 1, Class::Except(' '))))
    } else {
        let end = run_end(s, start, Class::Except(' '));
        ((start, end), (end, end))
    }
}

/// The instruction that starts at `pos`: a mnemonic, which is the longest
/// run of letters there and has to be one of the instruction set, then the
/// operands of its format. What follows the operands is not looked at. The
/// address is left at 0.
pub open spec fn instruction(s: Seq<char>, pos: int) -> Option<ExprView> {
    let m_end = run_end(s, pos, Class::Alpha);
    let mnemonic = s.subrange(pos, m_end);
    let none = Seq::<char>::empty();
    if m_end <= pos {
        None
    } else {
        match format_of(mnemonic) {
            None => None,
            Some(InstType::R) => match two_registers(s, m_end) {
                None => None,
                Some((rd, rs)) => Some(
                    ExprView::Inst {
                        inst_type: InstType::R,
                        mnemonic,
                        rd: s.subrange(rd.0, rd.1),
                        rs: s.subrange(rs.0, rs.1),
                        imm: none,
                        symbol: none,
                        address: 0,
                    },
                ),
            },
            Some(InstType::I5) => match two_registers(s, m_end) {
                None => None,
                Some((rd, rs)) => match comma(s, rs.1) {
                    None => None,
                    Some(behind) => {
                        let imm = immediate(s, behind);
                        Some(
                            ExprView::Inst {
                                inst_type: InstType::I5,
                                mnemonic,
                                rd: s.subrange(rd.0, rd.1),
                                rs: s.subrange(rs.0, rs.1),
                                imm: s.subrange(imm.0, imm.1),
                                symbol: none,
                                address: 0,
                            },
                        )
                    },
                },
            },
            Some(InstType::I8) => match register_token(s, m_end) {
                None => None,
                Some(rd) => match comma(s, rd.1) {
                    None => None,
                    Some(behind) => {
                        let (imm, symbol) = split_immediate(s, behind);
                        Some(
                            ExprView::Inst {
                                inst_type: InstType::I8,
                                mnemonic,
                                rd: s.subrange(rd.0, rd.1),
                                rs: none,
                                imm: s.subrange(imm.0, imm.1),
                                symbol: s.subrange(symbol.0, symbol.1),
                                address: 0,
                            },
                        )
                    },
                },
            },
            Some(InstType::C1) => match register_token(s, m_end) {
                None => None,
                Some(rd) => Some(
                    ExprView::Inst {
                        inst_type: InstType::C1,
                        mnemonic,
                        rd: s.subrange(rd.0, rd.1),
                        rs: none,
                        imm: none,
                        symbol: none,
                        address: 0,
                    },
                ),
            },
            Some(InstType::C2) => Some(
                ExprView::Inst {
                    inst_type: InstType::C2,
                    mnemonic,
                    rd: none,
                    rs: none,
                    imm: none,
                    symbol: none,
                    address: 0,
                },
            ),
        }
    }
}

/// Reads a register operand.
fn read_register(line: &Vec<char>, pos: usize) -> (r: Option<(usize, usize)>)
    requires
        pos <= line.len(),
    ensures
        match register_token(line@, pos as int) {
            Some((a, b)) => r == Some((a as usize, b as usize)) && pos <= a < b <= line.len(),
            None => r is None,
        },
{
    let start = scan(line, pos, Class::Blank);
    let end = scan(line, start, Class::Alphanumeric);
    if end > start {
        Some((start, end))
    } else {
        None
    }
}

/// Reads a comma.
fn read_comma(line: &Vec<char>, pos: usize) -> (r: Option<usize>)
    requires
        pos <= line.len(),
    ensures
        match comma(line@, pos as int) {
            Some(p) => r == Some(p as usize) && pos < p <= line.len(),
            None => r is None,
        },
{
    let at = scan(line, pos, Class::Blank);
    if at < line.len() && line[at] == ',' {
        Some(at + 1)
    } else {
        None
    }
}

/// Reads two register operands with a comma between them.
fn read_two_registers(line: &Vec<char>, pos: usize) -> (r: Option<((usize, usize), (usize, usize))>)
    requires
        pos <= line.len(),
    ensures
        match two_registers(line@, pos as int) {
            Some((rd, rs)) => r == Some(
                ((rd.0 as usize, rd.1 as usize), (rs.0 as usize, rs.1 as usize)),
            ) && pos <= rd.0 < rd.1 < rs.0 < rs.1 <= line.len(),
            None => r is None,
        },
{
    let rd = read_register(line, pos)?;
    let behind = read_comma(line, rd.1)?;
    let rs = read_register(line, behind)?;
    Some((rd, rs))
}

/// Reads an instruction that starts at `pos`.
pub fn parse_inst(line: &Vec<char>, pos: usize) -> (r: Option<Expr>)
    requires
        pos <= line.len(),
    ensures
        match instruction(line@, pos as int) {
            Some(e) => r is Some && r->0@ == e,
            None => r is None,
        },
{
    let m_end = scan(line, pos, Class::Alpha);
    if m_end <= pos {
        return None;
    }
    let name = copy_range(line, pos, m_end);
    let mnemonic = string_of(line, pos, m_end);
    let n = line.len();
    match find_format(&name)? {
        InstType::R => {
            let (rd, rs) = read_two_registers(line, m_end)?;
            Some(
                Expr::Inst {
                    inst_type: InstType::R,
                    mnemonic,
                    rd: string_of(line, rd.0, rd.1),
                    rs: string_of(line, rs.0, rs.1),
                    imm: String::new(),
                    symbol: String::new(),
                    address: 0,
                },
            )
        },
        InstType::I5 => {
            let (rd, rs) = read_two_registers(line, m_end)?;
            let behind = read_comma(line, rs.1)?;
            let start = scan(line, behind, Class::Blank);
            let end = scan(line, start, Class::Except(' '));
            Some(
                Expr::Inst {
                    inst_type: InstType::I5,
                    mnemonic,
                    rd: string_of(line, rd.0, rd.1),
                    rs: string_of(line, rs.0, rs.1),
                    imm: string_of(line, start, end),
                    symbol: String::new(),
                    address: 0,
                },
            )
        },
        InstType::I8 => {
            let rd = read_register(line, m_end)?;
            let behind = read_comma(line, rd.1)?;
            let start = scan(line, behind, Class::Blank);
            let at = scan(line, start, Class::Except('@'));
            if at < n {
                let end = scan(line, at + 1, Class::Except(' '));
                Some(
                    Expr::Inst {
                        inst_type: InstType::I8,
                        mnemonic,
                        rd: string_of(line, rd.0, rd.1),
                        rs: String::new(),
                        imm: string_of(line, start, at),
                        symbol: string_of(line, at + 1, end),
                        address: 0,
                    },
                )
            } else {
                let end = scan(line, start, Class::Except(' '));
                assert(line@.subrange(end as int, end as int) == Seq::<char>::empty());
                Some(
                    Expr::Inst {
                        inst_type: InstType::I8,
                        mnemonic,
                        rd: string_of(line, rd.0, rd.1),
                        rs: String::new(),
                        imm: string_of(line, start, end),
                        symbol: String::new(),
                        address: 0,
                    },
                )
            }
        },
        InstType::C1 => {
            let rd = read_register(line, m_end)?;
            Some(
                Expr::Inst {
                    inst_type: InstType::C1,
                    mnemonic,
                    rd: string_of(line, rd.0, rd.1),
                    rs: String::new(),
                    imm: String::new(),
                    symbol: String::new(),
                    address: 0,
                },
            )
        },
        InstType::C2 => Some(
            Expr::Inst {
                inst_type: InstType::C2,
                mnemonic,
                rd: String::new(),
                rs: String::new(),
                imm: String::new(),
                symbol: String::new(),
                address: 0,
            },
        ),
    }
}

/// The data directive that starts at `pos`: after blanks a dot, the word
/// `word` as the longest run of letters there, blanks, `0x`, and
/// hexadecimal digits, one at least, which are the value. What follows the
/// digits is not looked at. The address is left at 0.
pub open spec fn directive(s: Seq<char>, pos: int) -> Option<ExprView> {
    let dot = run_end(s, pos, Class::Blank);
    if dot < s.len() && s[dot] == '.' {
        let name_end = run_end(s, dot + 1, Class::Alpha);
        let prefix = run_end(s, name_end, Class::Blank);
        if s.subrange(dot + 1, name_end) == "word"@ && prefix + 2 <= s.len() && s[prefix] == '0'
            && s[prefix + 1] == 'x' {
            let end = run_end(s, prefix + 2, Class::Hex);
            if end > prefix + 2 {
                Some(ExprView::Const { val: s.subrange(prefix + 2, end), address: 0 })
            } else {
                None
            }
        } else {
            None
        }
    } else {
        None
    }
}

/// The label declaration that starts at `pos`: letters and digits, one at
/// least, which are the name, and a colon right behind them. What follows
/// the colon is not looked at. The address is left at 0.
pub open spec fn declaration(s: Seq<char>, pos: int) -> Option<ExprView> {
    let end = run_end(s, pos, Class::Alphanumeric);
    if pos < end < s.len() && s[end] == ':' {
        Some(ExprView::Label { name: s.subrange(pos, end), address: 0 })
    } else {
        None
    }
}

/// The statement that a line holds. Blanks before it are passed over. The
/// line is read as an instruction; where it is none, as a data directive;
/// where it is none, as a label declaration.
pub open spec fn statement(line: Seq<char>) -> Option<ExprView> {
    let pos = run_end(line, 0, Class::Blank);
    match instruction(line, pos) {
        Some(e) => Some(e),
        None => match directive(line, pos) {
            Some(e) => Some(e),
            None => declaration(line, pos),
        },
    }
}

/// Reads a data directive that starts at `pos`.
pub fn parse_word(line: &Vec<char>, pos: usize) -> (r: Option<Expr>)
    requires
        pos <= line.len(),
    ensures
        match directive(line@, pos as int) {
            Some(e) => r is Some && r->0@ == e,
            None => r is None,
        },
{
    let n = line.len();
    let dot = scan(line, pos, Class::Blank);
    if !(dot < n && line[dot] == '.') {
        return None;
    }
    let name_end = scan(line, dot + 1, Class::Alpha);
    let name = copy_range(line, dot + 1, name_end);
    if !is_str(&name, "word") {
        return None;
    }
    let prefix = scan(line, name_end, Class::Blank);
    if !(n - prefix >= 2 && line[prefix] == '0' && line[prefix + 1] == 'x') {
        return None;
    }
    let end = scan(line, prefix + 2, Class::Hex);
    if end > prefix + 2 {
        Some(Expr::Const { val: string_of(line, prefix + 2, end), address: 0 })
    } else {
        None
    }
}

/// Reads a label declaration that starts at `pos`.
pub fn parse_label(line: &Vec<char>, pos: usize) -> (r: Option<Expr>)
    requires
        pos <= line.len(),
    ensures
        match declaration(line@, pos as int) {
            Some(e) => r is Some && r->0@ == e,
            None => r is None,
        },
{
    let end = scan(line, pos, Class::Alphanumeric);
    if pos < end && end < line.len() && line[end] == ':' {
        Some(Expr::Label { name: string_of(line, pos, end), address: 0 })
    } else {
        None
    }
}

/// Reads the statement of one line, which is neither empty nor a comment:
/// an instruction, a data directive or a label declaration, with its
/// address left at 0. `None` where the line has the shape of none of them.
pub fn parse_line(line: &Vec<char>) -> (r: Option<Expr>)
    ensures
        match statement(line@) {
            Some(e) => r is Some && r->0@ == e,
            None => r is None,
        },
{
    let pos = scan(line, 0, Class::Blank);
    match parse_inst(line, pos) {
        Some(e) => Some(e),
        None => match parse_word(line, pos) {
            Some(e) => Some(e),
            None => parse_label(line, pos),
        },
    }
}

/// Tells whether the encoder has a word for `stmt`: it is a constant, or an
/// instruction whose mnemonic is one of its format. A label declaration has
/// no word.
pub open spec fn encodable(stmt: ExprView) -> bool {
    match stmt {
        ExprView::Inst { inst_type, mnemonic, .. } => code(inst_type, mnemonic) is Some,
        ExprView::Const { .. } => true,
        ExprView::Label { .. } => false,
    }
}

/// The address of a statement.
pub open spec fn address_of(stmt: ExprView) -> u16 {
    match stmt {
        ExprView::Inst { address, .. } => address,
        ExprView::Const { address, .. } => address,
        ExprView::Label { address, .. } => address,
    }
}

/// The statement `stmt` at `address`.
pub open spec fn placed(stmt: ExprView, address: u16) -> ExprView {
    match stmt {
        ExprView::Inst { inst_type, mnemonic, rd, rs, imm, symbol, .. } => ExprView::Inst {
            inst_type,
            mnemonic,
            rd,
            rs,
            imm,
            symbol,
            address,
        },
        ExprView::Const { val, .. } => ExprView::Const { val, address },
        ExprView::Label { name, .. } => ExprView::Label { name, address },
    }
}

/// The lines of `v`, each as its sequence of characters.
pub open spec fn line_views(v: Seq<Vec<char>>) -> Seq<Seq<char>> {
    Seq::new(v.len(), |i: int| v[i]@)
}

/// Splits a text into its lines.
pub fn split_lines(text: &Vec<char>) -> (out: Vec<Vec<char>>)
    ensures
        line_views(out@) == lines(text@),
{
    let n = text.len();
    let mut out: Vec<Vec<char>> = Vec::new();
    let mut pos: usize = 0;
    assert(line_views(out@) + lines_from(text@, 0) == lines(text@));
    while pos < n
        invariant
            0 <= pos <= n == text.len(),
            line_views(out@) + lines_from(text@, pos as int) == lines(text@),
        decreases n - pos,
    {
        let stop = scan(text, pos, Class::Except('\n'));
        let end = if pos < stop && stop < n && text[stop - 1] == '\r' {
            stop - 1
        } else {
            stop
        };
        let line = copy_range(text, pos, end);
        let ghost before = line_views(out@);
        out.push(line);
        proof {
            assert(line@ == line_at(text@, pos as int));
            assert(line_views(out@) == before.push(line@));
            assert(before + (seq![line@] + lines_from(text@, stop + 1)) == before.push(line@)
                + lines_from(text@, stop + 1));
        }
        if stop < n {
            pos = stop + 1;
        } else {
            pos = n;
        }
    }
    assert(lines_from(text@, pos as int) == Seq::<Seq<char>>::empty());
    assert(line_views(out@) + Seq::<Seq<char>>::empty() == line_views(out@));
    out
}

/// Tells whether a line holds no statement.
pub fn skips(line: &Vec<char>) -> (b: bool)
    ensures
        b == is_skipped(line@),
{
    let n = line.len();
    let start = scan(line, 0, Class::White);
    start == n || (n - start >= 2 && line[start] == '/' && line[start + 1] == '/')
}

/// Reads a program: the statements that take a word, each with its
/// address, and the label table.
///
/// The text is read line by line. Lines of white space and lines that start
/// with `//` are passed over. The location counter starts at `base_address`
/// and moves on by 2 with each instruction or constant, which gets the
/// value of the counter as its address. A label declaration gets the value
/// of the counter too, which is the address of the statement that follows
/// it, and leaves the counter as it is. Labels are entered in the table in
/// the order of their declarations, also where a name is declared twice.
///
/// The run stops at the first line that is no statement, with a syntax
/// error that holds the number of the line, counted from 1, and its text,
/// or at the first statement or label whose address would lie beyond
/// `0xFFFF`.
pub fn parse(text: String, base_address: u16) -> (res: Result<(Vec<Expr>, Vec<Label>), AsmError>)
    ensures
        match program(text@, base_address) {
            Ok((stmts, labels)) => res is Ok && expr_views(res->Ok_0.0@) == stmts && label_views(
                res->Ok_0.1@,
            ) == labels,
            Err(e) => res is Err && res->Err_0@ == e,
        },
        res matches Err(e) ==> match e {
            AsmError::SyntaxError { line_number, line } => {
                &&& 1 <= line_number <= lines(text@).len()
                &&& line@ == lines(text@)[line_number - 1]
                &&& !is_skipped(line@)
                &&& statement(line@) is None
            },
            AsmError::AddressOverflow { line_number, line } => {
                &&& 1 <= line_number <= lines(text@).len()
                &&& line@ == lines(text@)[line_number - 1]
                &&& takes_word(line@) || declares(line@)
                &&& base_address + 2 * word_count(lines(text@).take(line_number - 1)) > 0xFFFF
            },
            _ => false,
        },
        res matches Ok((exprs, label_table)) ==> {
            &&& exprs.len() == word_count(lines(text@))
            &&& forall|k: int|
                0 <= k < exprs.len() ==> well_formed(#[trigger] exprs[k]@) && encodable(
                    exprs[k]@,
                ) && address_of(exprs[k]@) == base_address + 2 * k
            &&& forall|i: int|
                0 <= i < label_table.len() ==> is_name((#[trigger] label_table[i]).name@)
                    && base_address <= label_table[i].address <= base_address + 2 * exprs.len()
                    && (label_table[i].address - base_address) % 2 == 0
            &&& forall|i: int, j: int|
                0 <= i <= j < label_table.len() ==> (#[trigger] label_table[i]).address <= (
                #[trigger] label_table[j]).address
            &&& base_address % 2 == 0 ==> forall|i: int|
                0 <= i < label_table.len() ==> (#[trigger] label_table[i]).address % 2 == 0
        },
{
    let chars = to_chars(text.as_str());
    let source = split_lines(&chars);
    let ghost all = lines(text@);
    let mut exprs: Vec<Expr> = Vec::new();
    let mut label_table: Vec<Label> = Vec::new();
    let mut address: u32 = base_address as u32;
    let mut i: usize = 0;
    assert(all.take(0) == Seq::<Seq<char>>::empty());
    assert(expr_views(exprs@) == Seq::<ExprView>::empty());
    assert(label_views(label_table@) == Seq::<LabelView>::empty());
    while i < source.len()
        invariant
            0 <= i <= source.len(),
            all == line_views(source@),
            all == lines(text@),
            address <= 0x10001,
            layout(all.take(i as int), base_address) == Ok::<Layout, AsmErrorView>(
                Layout {
                    stmts: expr_views(exprs@),
                    labels: label_views(label_table@),
                    counter: address as int,
                },
            ),
        decreases source.len() - i,
    {
        let line = &source[i];
        proof {
            assert(all.take(i + 1).drop_last() == all.take(i as int));
            assert(all.take(i + 1).last() == line@);
            assert(line@.subrange(0, line@.len() as int) == line@);
        }
        if !skips(line) {
            match parse_line(line) {
                None => {
                    proof {
                        lemma_layout_error(all, base_address, i + 1);
                        lemma_layout_first_error(all, base_address);
                    }
                    return Err(
                        AsmError::SyntaxError {
                            line_number: i + 1,
                            line: string_of(line, 0, line.len()),
                        },
                    );
                },
                Some(expr) => {
                    if address > 0xFFFF {
                        proof {
                            lemma_layout_error(all, base_address, i + 1);
                            lemma_layout_first_error(all, base_address);
                        }
                        return Err(
                            AsmError::AddressOverflow {
                                line_number: i + 1,
                                line: string_of(line, 0, line.len()),
                            },
                        );
                    }
                    let ghost stmts = expr_views(exprs@);
                    let ghost labels = label_views(label_table@);
                    match expr {
                        Expr::Label { name, .. } => {
                            let label = Label { name, address: address as u16 };
                            label_table.push(label);
                            assert(label_views(label_table@) == labels.push(label@));
                        },
                        Expr::Inst { inst_type, mnemonic, rd, rs, imm, symbol, .. } => {
                            let placed = Expr::Inst {
                                inst_type,
                                mnemonic,
                                rd,
                                rs,
                                imm,
                                symbol,
                                address: address as u16,
                            };
                            exprs.push(placed);
                            assert(expr_views(exprs@) == stmts.push(placed@));
                            address += 2;
                        },
                        Expr::Const { val, .. } => {
                            let placed = Expr::Const { val, address: address as u16 };
                            exprs.push(placed);
                            assert(expr_views(exprs@) == stmts.push(placed@));
                            address += 2;
                        },
                    }
                },
            }
        }
        i += 1;
    }
    proof {
        assert(all.take(i as int) == all);
        lemma_layout(all, base_address);
        let state = layout(all, base_address)->Ok_0;
        assert forall|k: int| 0 <= k < exprs.len() implies well_formed(#[trigger] exprs[k]@)
            && encodable(exprs[k]@) && address_of(exprs[k]@) == base_address + 2 * k by {
            assert(state.stmts[k] == exprs[k]@);
        }
        assert forall|k: int| 0 <= k < label_table.len() implies is_name(
            (#[trigger] label_table[k]).name@,
        ) && base_address <= label_table[k].address <= base_address + 2 * exprs.len() && (
        label_table[k].address - base_address) % 2 == 0 by {
            assert(state.labels[k] == label_table[k]@);
        }
        assert forall|k: int, j: int| 0 <= k <= j < label_table.len() implies (
        #[trigger] label_table[k]).address <= (#[trigger] label_table[j]).address by {
            assert(state.labels[k] == label_table[k]@);
            assert(state.labels[j] == label_table[j]@);
        }
    }
    Ok((exprs, label_table))
}

} // verus!
