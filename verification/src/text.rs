//! Characters, character classes and runs of characters in a line of source text.
//!
//! Source text is handled as a sequence of characters. A `String` is turned
//! into a `Vec<char>` once, scanned by index, and tokens are turned back into
//! `String`s.

use vstd::prelude::*;

verus! {

/// `String::push` appends one character to the end of the string and leaves
/// the characters before it as they were.
pub assume_specification[ String::push ](s: &mut String, ch: char)
    ensures
        final(s)@ == old(s)@.push(ch),
;

/// The characters of `s`, in order.
pub fn to_chars(s: &str) -> (v: Vec<char>)
    ensures
        v@ == s@,
{
    let mut v: Vec<char> = Vec::new();
    for c in it: s.chars()
        invariant
            it.seq() == s@,
            v@ == s@.take(it.index() as int),
    {
        v.push(c);
    }
    v
}

/// The string made of the characters `v[from..to]`.
pub fn string_of(v: &Vec<char>, from: usize, to: usize) -> (s: String)
    requires
        from <= to <= v.len(),
    ensures
        s@ == v@.subrange(from as int, to as int),
{
    let mut s = String::new();
    let mut i: usize = from;
    while i < to
        invariant
            from <= i <= to <= v.len(),
            s@ == v@.subrange(from as int, i as int),
        decreases to - i,
    {
        s.push(v[i]);
        i += 1;
    }
    s
}

/// A copy of the characters `v[from..to]`.
pub fn copy_range(v: &Vec<char>, from: usize, to: usize) -> (r: Vec<char>)
    requires
        from <= to <= v.len(),
    ensures
        r@ == v@.subrange(from as int, to as int),
{
    let mut r: Vec<char> = Vec::new();
    let mut i: usize = from;
    while i < to
        invariant
            from <= i <= to <= v.len(),
            r@ == v@.subrange(from as int, i as int),
        decreases to - i,
    {
        r.push(v[i]);
        i += 1;
    }
    r
}

/// Tells whether `v` holds exactly the characters of `lit`.
pub fn is_str(v: &Vec<char>, lit: &str) -> (b: bool)
    ensures
        b == (v@ == lit@),
{
    let mut n: usize = 0;
    for c in it: lit.chars()
        invariant
            it.seq() == lit@,
            n == it.index(),
            n <= v.len(),
            v@.take(n as int) == lit@.take(n as int),
    {
        if n >= v.len() || v[n] != c {
            return false;
        }
        assert(v@.take(n + 1) == v@.take(n as int).push(v@[n as int]));
        assert(lit@.take(n + 1) == lit@.take(n as int).push(lit@[n as int]));
        n += 1;
    }
    assert(lit@.take(n as int) == lit@);
    if n == v.len() {
        assert(v@.take(n as int) == v@);
        true
    } else {
        false
    }
}

/// An ASCII letter.
pub open spec fn is_alpha(c: char) -> bool {
    ('a' <= c && c <= 'z') || ('A' <= c && c <= 'Z')
}

/// An ASCII decimal digit.
pub open spec fn is_digit(c: char) -> bool {
    '0' <= c && c <= '9'
}

/// An ASCII hexadecimal digit, in either case.
pub open spec fn is_hex_digit(c: char) -> bool {
    is_digit(c) || ('a' <= c && c <= 'f') || ('A' <= c && c <= 'F')
}

/// Space, tab, carriage return or line feed: what may stand between the
/// tokens of a statement.
pub open spec fn is_blank(c: char) -> bool {
    c == ' ' || c == '\t' || c == '\r' || c == '\n'
}

/// A character that Unicode counts as white space (`White_Space`).
pub open spec fn is_white(c: char) -> bool {
    ||| ('\u{9}' <= c && c <= '\u{d}')
    ||| c == '\u{20}'
    ||| c == '\u{85}'
    ||| c == '\u{a0}'
    ||| c == '\u{1680}'
    ||| ('\u{2000}' <= c && c <= '\u{200a}')
    ||| c == '\u{2028}'
    ||| c == '\u{2029}'
    ||| c == '\u{202f}'
    ||| c == '\u{205f}'
    ||| c == '\u{3000}'
}

/// A set of characters from which a run of text is drawn.
#[derive(Clone, Copy, Debug)]
pub enum Class {
    /// ASCII letters.
    Alpha,
    /// ASCII letters and decimal digits.
    Alphanumeric,
    /// ASCII hexadecimal digits.
    Hex,
    /// Space, tab, carriage return and line feed.
    Blank,
    /// Unicode white space.
    White,
    /// Every character but the given one.
    Except(char),
}

impl Class {
    /// Tells whether `c` belongs to the class.
    pub open spec fn holds(self, c: char) -> bool {
        match self {
            Class::Alpha => is_alpha(c),
            Class::Alphanumeric => is_alpha(c) || is_digit(c),
            Class::Hex => is_hex_digit(c),
            Class::Blank => is_blank(c),
            Class::White => is_white(c),
            Class::Except(stop) => c != stop,
        }
    }

    /// Tells whether `c` belongs to the class.
    pub fn has(&self, c: char) -> (b: bool)
        ensures
            b == self.holds(c),
    {
        match self {
            Class::Alpha => (c >= 'a' && c <= 'z') || (c >= 'A' && c <= 'Z'),
            Class::Alphanumeric => (c >= 'a' && c <= 'z') || (c >= 'A' && c <= 'Z') || (c >= '0'
                && c <= '9'),
            Class::Hex => (c >= '0' && c <= '9') || (c >= 'a' && c <= 'f') || (c >= 'A' && c
                <= 'F'),
            Class::Blank => c == ' ' || c == '\t' || c == '\r' || c == '\n',
            Class::White => (c >= '\u{9}' && c <= '\u{d}') || c == '\u{20}' || c == '\u{85}' || c
                == '\u{a0}' || c == '\u{1680}' || (c >= '\u{2000}' && c <= '\u{200a}') || c
                == '\u{2028}' || c == '\u{2029}' || c == '\u{202f}' || c == '\u{205f}' || c
                == '\u{3000}',
            Class::Except(stop) => c != *stop,
        }
    }
}

/// Where the run of characters of `class` that starts at `from` ends: the
/// index of the first character at or after `from` that is not in `class`,
/// or the length of `s` where there is none.
pub open spec fn run_end(s: Seq<char>, from: int, class: Class) -> int
    decreases s.len() - from,
{
    if 0 <= from < s.len() && class.holds(s[from]) {
        run_end(s, from + 1, class)
    } else {
        from
    }
}

/// A run lies inside the text, holds only characters of its class, and is
/// followed by none of them.
pub proof fn lemma_run_end(s: Seq<char>, from: int, class: Class)
    requires
        0 <= from <= s.len(),
    ensures
        from <= run_end(s, from, class) <= s.len(),
        forall|i: int| from <= i < run_end(s, from, class) ==> class.holds(#[trigger] s[i]),
        run_end(s, from, class) < s.len() ==> !class.holds(s[run_end(s, from, class)]),
    decreases s.len() - from,
{
    if from < s.len() && class.holds(s[from]) {
        lemma_run_end(s, from + 1, class);
    }
}

/// A run ends at `to` where the characters from `from` up to `to` are of
/// its class and the character at `to`, if there is one, is not.
pub proof fn lemma_run_to(s: Seq<char>, from: int, to: int, class: Class)
    requires
        0 <= from <= to <= s.len(),
        forall|i: int| from <= i < to ==> class.holds(#[trigger] s[i]),
        to < s.len() ==> !class.holds(s[to]),
    ensures
        run_end(s, from, class) == to,
    decreases to - from,
{
    if from < to {
        lemma_run_to(s, from + 1, to, class);
    }
}

/// The end of the run of characters of `class` that starts at `from`.
pub fn scan(line: &Vec<char>, from: usize, class: Class) -> (end: usize)
    requires
        from <= line.len(),
    ensures
        end == run_end(line@, from as int, class),
        from <= end <= line.len(),
{
    let mut i: usize = from;
    while i < line.len() && class.has(line[i])
        invariant
            from <= i <= line.len(),
            run_end(line@, from as int, class) == run_end(line@, i as int, class),
        decreases line.len() - i,
    {
        i += 1;
    }
    i
}

} // verus!
