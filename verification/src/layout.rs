//! The layout of a program: the lines of its text, the statements and
//! labels that they hold, and the addresses that these get.

use crate::error::AsmErrorView;
use crate::parse::{address_of, encodable, placed, statement, ExprView, LabelView};
use crate::syntax::{is_name, lemma_statement_shape, well_formed};
use crate::text::{lemma_run_end, run_end, Class};
use vstd::prelude::*;

verus! {

/// The line of `text` that starts at `start`: all up to the next line feed
/// or the end of the text, without the carriage return that may stand right
/// before the line feed.
pub open spec fn line_at(text: Seq<char>, start: int) -> Seq<char> {
    let stop = run_end(text, start, Class::Except('\n'));
    if start < stop < text.len() && text[stop - 1] == '\r' {
        text.subrange(start, stop - 1)
    } else {
        text.subrange(start, stop)
    }
}

/// The lines of `text` from the line that starts at `start` on.
pub open spec fn lines_from(text: Seq<char>, start: int) -> Seq<Seq<char>>
    decreases text.len() + 1 - start,
    via lines_from_decreases
{
    if 0 <= start < text.len() {
        seq![line_at(text, start)] + lines_from(
            text,
            run_end(text, start, Class::Except('\n')) + 1,
        )
    } else {
        Seq::empty()
    }
}

#[via_fn]
proof fn lines_from_decreases(text: Seq<char>, start: int) {
    if 0 <= start < text.len() {
        lemma_run_end(text, start, Class::Except('\n'));
    }
}

/// The lines of `text`. A line ends at a line feed, or at a carriage return
/// and a line feed, which are no part of it; the last line may end with the
/// text. A text that ends with a line feed has no empty line behind it.
pub open spec fn lines(text: Seq<char>) -> Seq<Seq<char>> {
    lines_from(text, 0)
}

/// Tells whether a line holds no statement: it is made of white space
/// only, or the first thing on it is `//`.
pub open spec fn is_skipped(line: Seq<char>) -> bool {
    let start = run_end(line, 0, Class::White);
    start == line.len() || (start + 2 <= line.len() && line[start] == '/' && line[start + 1]
        == '/')
}

/// What the lines read so far have given: the statements that take a word,
/// the labels, and the location counter, which is the address of the next
/// word.
pub struct Layout {
    pub stmts: Seq<ExprView>,
    pub labels: Seq<LabelView>,
    pub counter: int,
}

/// The layout after one more line. A line without statement changes
/// nothing. A label is entered at the location counter, which stays. An
/// instruction or a constant gets the location counter as its address, and
/// the counter moves on by 2. A line that is no statement is a syntax error;
/// a statement or label for which the counter has passed `0xFFFF` is an
/// address overflow. Lines count from 1.
pub open spec fn place(state: Layout, line: Seq<char>, line_number: int) -> Result<
    Layout,
    AsmErrorView,
> {
    if is_skipped(line) {
        Ok(state)
    } else {
        match statement(line) {
            None => Err(AsmErrorView::SyntaxError { line_number, line }),
            Some(stmt) => if state.counter > 0xFFFF {
                Err(AsmErrorView::AddressOverflow { line_number, line })
            } else {
                match stmt {
                    ExprView::Label { name, .. } => Ok(
                        Layout {
                            labels: state.labels.push(
                                LabelView { name, address: state.counter as u16 },
                            ),
                            ..state
                        },
                    ),
                    _ => Ok(
                        Layout {
                            stmts: state.stmts.push(placed(stmt, state.counter as u16)),
                            counter: state.counter + 2,
                            ..state
                        },
                    ),
                }
            },
        }
    }
}

/// The layout of the lines, read in their order with the location counter
/// starting at `base`, or the error of the first line that has one.
pub open spec fn layout(lines: Seq<Seq<char>>, base: u16) -> Result<Layout, AsmErrorView>
    decreases lines.len(),
{
    if lines.len() == 0 {
        Ok(Layout { stmts: Seq::empty(), labels: Seq::empty(), counter: base as int })
    } else {
        match layout(lines.drop_last(), base) {
            Err(e) => Err(e),
            Ok(state) => place(state, lines.last(), lines.len() as int),
        }
    }
}

/// The statements and the label table of the program `text`.
pub open spec fn program(text: Seq<char>, base: u16) -> Result<
    (Seq<ExprView>, Seq<LabelView>),
    AsmErrorView,
> {
    match layout(lines(text), base) {
        Ok(state) => Ok((state.stmts, state.labels)),
        Err(e) => Err(e),
    }
}

/// Tells whether a line holds a statement that takes a word: an
/// instruction or a constant.
pub open spec fn takes_word(line: Seq<char>) -> bool {
    !is_skipped(line) && statement(line) is Some && !(statement(line)->0 is Label)
}

/// The number of lines that hold a statement that takes a word.
pub open spec fn word_count(lines: Seq<Seq<char>>) -> nat
    decreases lines.len(),
{
    if lines.len() == 0 {
        0
    } else {
        word_count(lines.drop_last()) + if takes_word(lines.last()) {
            1nat
        } else {
            0nat
        }
    }
}

/// Tells whether a line holds the declaration of a label.
pub open spec fn declares(line: Seq<char>) -> bool {
    !is_skipped(line) && statement(line) is Some && statement(line)->0 is Label
}

/// The number of lines that hold the declaration of a label.
pub open spec fn label_count(lines: Seq<Seq<char>>) -> nat
    decreases lines.len(),
{
    if lines.len() == 0 {
        0
    } else {
        label_count(lines.drop_last()) + if declares(lines.last()) {
            1nat
        } else {
            0nat
        }
    }
}

/// Tells whether a layout is in order for the base address `base`.
pub open spec fn well_laid(state: Layout, base: u16) -> bool {
    &&& state.counter == base + 2 * state.stmts.len()
    &&& forall|k: int|
        0 <= k < state.stmts.len() ==> well_formed(#[trigger] state.stmts[k]) && encodable(
            state.stmts[k],
        ) && address_of(state.stmts[k]) == base + 2 * k
    &&& forall|i: int|
        0 <= i < state.labels.len() ==> is_name((#[trigger] state.labels[i]).name) && base
            <= state.labels[i].address <= state.counter && (state.labels[i].address - base) % 2
            == 0
    &&& forall|i: int, j: int|
        0 <= i <= j < state.labels.len() ==> (#[trigger] state.labels[i]).address <= (
        #[trigger] state.labels[j]).address
}

/// A layout that was reached without error is in order: each statement
/// lies at the base address plus twice the number of statements before it;
/// each label lies at the address of the statement that follows it, so the
/// labels lie at even distances from the base and never go down; and the
/// statements are as many as the lines that take a word.
pub proof fn lemma_layout(lines: Seq<Seq<char>>, base: u16)
    ensures
        layout(lines, base) matches Ok(state) ==> well_laid(state, base) && state.stmts.len()
            == word_count(lines) && state.labels.len() == label_count(lines),
    decreases lines.len(),
{
    if lines.len() > 0 {
        lemma_layout(lines.drop_last(), base);
        lemma_statement_shape(lines.last());
    }
}

/// The first lines of a text that has a layout have a layout too, and the
/// lines that follow add to it without changing it: its statements and
/// labels are the first statements and labels of the whole text.
pub proof fn lemma_layout_prefix(lines: Seq<Seq<char>>, base: u16, n: int)
    requires
        0 <= n <= lines.len(),
        layout(lines, base) is Ok,
    ensures
        layout(lines.take(n), base) matches Ok(before) && {
            let state = layout(lines, base)->Ok_0;
            &&& word_count(lines.take(n)) <= state.stmts.len()
            &&& label_count(lines.take(n)) <= state.labels.len()
            &&& before.stmts == state.stmts.take(word_count(lines.take(n)) as int)
            &&& before.labels == state.labels.take(label_count(lines.take(n)) as int)
            &&& before.counter == base + 2 * word_count(lines.take(n))
        },
    decreases lines.len(),
{
    lemma_layout(lines, base);
    let state = layout(lines, base)->Ok_0;
    if n == lines.len() {
        assert(lines.take(n) == lines);
        assert(state.stmts.take(state.stmts.len() as int) == state.stmts);
        assert(state.labels.take(state.labels.len() as int) == state.labels);
    } else {
        let front = lines.drop_last();
        assert(front.take(n) == lines.take(n));
        lemma_layout_prefix(front, base, n);
        let middle = layout(front, base)->Ok_0;
        let w = word_count(lines.take(n)) as int;
        let l = label_count(lines.take(n)) as int;
        assert(middle.stmts.take(w) == state.stmts.take(w));
        assert(middle.labels.take(l) == state.labels.take(l));
    }
}

/// In a text that has a layout every line is one to pass over or holds a
/// statement.
pub proof fn lemma_layout_lines(lines: Seq<Seq<char>>, base: u16)
    requires
        layout(lines, base) is Ok,
    ensures
        forall|j: int|
            0 <= j < lines.len() ==> is_skipped(#[trigger] lines[j]) || statement(lines[j])
                is Some,
    decreases lines.len(),
{
    if lines.len() > 0 {
        let front = lines.drop_last();
        lemma_layout_lines(front, base);
        assert forall|j: int| 0 <= j < lines.len() implies is_skipped(#[trigger] lines[j])
            || statement(lines[j]) is Some by {
            if j < front.len() {
                assert(front[j] == lines[j]);
            }
        }
    }
}

/// The error of a text is that of its first line in error, and names it
/// by its number, counted from 1, and its text. A syntax error names a line
/// that is not one to pass over and holds no statement. An address overflow
/// names a line that holds a statement or a label, before which the lines
/// with instructions and constants have filled the addresses up to `0xFFFF`.
pub proof fn lemma_layout_first_error(lines: Seq<Seq<char>>, base: u16)
    requires
        layout(lines, base) is Err,
    ensures
        match layout(lines, base)->Err_0 {
            AsmErrorView::SyntaxError { line_number, line } => {
                &&& 1 <= line_number <= lines.len()
                &&& line == lines[line_number - 1]
                &&& !is_skipped(line)
                &&& statement(line) is None
                &&& layout(lines.take(line_number - 1), base) is Ok
            },
            AsmErrorView::AddressOverflow { line_number, line } => {
                &&& 1 <= line_number <= lines.len()
                &&& line == lines[line_number - 1]
                &&& takes_word(line) || declares(line)
                &&& base + 2 * word_count(lines.take(line_number - 1)) > 0xFFFF
                &&& layout(lines.take(line_number - 1), base) is Ok
            },
            _ => false,
        },
    decreases lines.len(),
{
    let front = lines.drop_last();
    if layout(front, base) is Err {
        lemma_layout_first_error(front, base);
        let n = match layout(front, base)->Err_0 {
            AsmErrorView::SyntaxError { line_number, .. } => line_number,
            AsmErrorView::AddressOverflow { line_number, .. } => line_number,
            _ => 0,
        };
        assert(front.take(n - 1) == lines.take(n - 1));
        assert(front[n - 1] == lines[n - 1]);
    } else {
        lemma_layout(front, base);
        assert(front == lines.take(lines.len() - 1));
    }
}

/// A label stands for the address of the word that follows its
/// declaration: the base address, and 2 more for each line before the
/// declaration that holds an instruction or a constant. What follows the
/// declaration, and where the label is used, plays no part. The labels
/// stand in the table in the order of their declarations.
pub proof fn lemma_label_address(lines: Seq<Seq<char>>, base: u16, i: int)
    requires
        layout(lines, base) is Ok,
        0 <= i < lines.len(),
        declares(lines[i]),
    ensures
        ({
            let state = layout(lines, base)->Ok_0;
            let k = label_count(lines.take(i)) as int;
            &&& k < state.labels.len()
            &&& state.labels[k].name == statement(lines[i])->0->name
            &&& state.labels[k].address == base + 2 * word_count(lines.take(i))
        }),
{
    lemma_layout_prefix(lines, base, i);
    lemma_layout_prefix(lines, base, i + 1);
    assert(lines.take(i + 1).drop_last() == lines.take(i));
    assert(lines.take(i + 1).last() == lines[i]);
    let state = layout(lines, base)->Ok_0;
    let k = label_count(lines.take(i)) as int;
    let after = layout(lines.take(i + 1), base)->Ok_0;
    assert(after.labels[k] == state.labels.take(k + 1)[k]);
}

/// An instruction or a constant lies at the base address, and 2 further
/// for each line before it that holds an instruction or a constant. The
/// statements stand in the list in the order of their lines.
pub proof fn lemma_statement_address(lines: Seq<Seq<char>>, base: u16, i: int)
    requires
        layout(lines, base) is Ok,
        0 <= i < lines.len(),
        takes_word(lines[i]),
    ensures
        ({
            let state = layout(lines, base)->Ok_0;
            let k = word_count(lines.take(i)) as int;
            &&& k < state.stmts.len()
            &&& base + 2 * k <= 0xFFFF
            &&& state.stmts[k] == placed(statement(lines[i])->0, (base + 2 * k) as u16)
        }),
{
    lemma_layout_prefix(lines, base, i);
    lemma_layout_prefix(lines, base, i + 1);
    assert(lines.take(i + 1).drop_last() == lines.take(i));
    assert(lines.take(i + 1).last() == lines[i]);
    let state = layout(lines, base)->Ok_0;
    let k = word_count(lines.take(i)) as int;
    let after = layout(lines.take(i + 1), base)->Ok_0;
    assert(after.stmts[k] == state.stmts.take(k + 1)[k]);
}

/// An error among the first lines of a text is the error of the whole text.
pub proof fn lemma_layout_error(lines: Seq<Seq<char>>, base: u16, n: int)
    requires
        0 <= n <= lines.len(),
        layout(lines.take(n), base) is Err,
    ensures
        layout(lines, base) == layout(lines.take(n), base),
    decreases lines.len() - n,
{
    if n == lines.len() {
        assert(lines.take(n) == lines);
    } else {
        assert(lines.take(n + 1).drop_last() == lines.take(n));
        lemma_layout_error(lines, base, n + 1);
    }
}

} // verus!
