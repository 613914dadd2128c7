// The readers of characters, lines and numbers, held against the functions
// of the standard library that do the same.

use zktc_asm::error::AsmError;
use zktc_asm::gen::encode;
use zktc_asm::number::{digit_of, parse_integer};
use zktc_asm::parse::{parse, skips, split_lines, Expr, InstType};
use zktc_asm::text::{copy_range, is_str, scan, string_of, to_chars, Class};

fn every_char() -> impl Iterator<Item = char> {
    (0..=0x10FFFFu32).filter_map(char::from_u32)
}

fn strings_over(alphabet: &[char], max_len: usize) -> Vec<String> {
    let mut all = vec![String::new()];
    let mut last = vec![String::new()];
    for _ in 0..max_len {
        let mut next = Vec::new();
        for s in &last {
            for c in alphabet {
                let mut t = s.clone();
                t.push(*c);
                next.push(t);
            }
        }
        all.extend(next.iter().cloned());
        last = next;
    }
    all
}

#[test]
fn classes_are_those_of_std() {
    for c in every_char() {
        assert_eq!(Class::Alpha.has(c), c.is_ascii_alphabetic(), "{:?}", c);
        assert_eq!(Class::Alphanumeric.has(c), c.is_ascii_alphanumeric(), "{:?}", c);
        assert_eq!(Class::Hex.has(c), c.is_ascii_hexdigit(), "{:?}", c);
        assert_eq!(Class::White.has(c), c.is_whitespace(), "{:?}", c);
        assert_eq!(Class::Blank.has(c), c == ' ' || c == '\t' || c == '\r' || c == '\n');
        assert_eq!(Class::Except('@').has(c), c != '@');
    }
}

#[test]
fn a_line_of_one_character_is_empty_where_the_character_is_white() {
    for c in every_char() {
        let line = vec![c];
        assert_eq!(skips(&line), c.is_whitespace(), "{:?}", c);
    }
    // a text of one white character is a program without statements
    for c in ['\u{9}', '\u{b}', '\u{c}', ' ', '\u{85}', '\u{a0}', '\u{1680}', '\u{2003}', '\u{3000}'] {
        assert_eq!(parse(c.to_string(), 0), Ok((vec![], vec![])));
    }
    for c in ['a', '0', '\u{200b}', '\u{180e}', '\u{feff}', '/'] {
        assert_eq!(
            parse(c.to_string(), 0),
            Err(AsmError::SyntaxError { line_number: 1, line: c.to_string() })
        );
    }
}

#[test]
fn skipped_lines_are_those_that_trim_to_nothing_or_to_a_comment() {
    let alphabet = [' ', '\t', '/', 'a', '\u{a0}', '\r'];
    for s in strings_over(&alphabet, 6) {
        let expected = s.trim().is_empty() || s.trim().starts_with("//");
        assert_eq!(skips(&s.chars().collect()), expected, "{:?}", s);
    }
}

#[test]
fn lines_are_those_of_std() {
    let alphabet = ['a', '\n', '\r', ' '];
    for s in strings_over(&alphabet, 8) {
        let expected: Vec<Vec<char>> = s.lines().map(|l| l.chars().collect()).collect();
        assert_eq!(split_lines(&s.chars().collect()), expected, "{:?}", s);
    }
    let text = "foo\r\nbar\n\nbaz\r";
    let expected: Vec<Vec<char>> =
        vec!["foo", "bar", "", "baz\r"].into_iter().map(|l| l.chars().collect()).collect();
    assert_eq!(split_lines(&text.chars().collect()), expected);
}

#[test]
fn digits_are_those_of_std() {
    for radix in 2..=36u32 {
        for c in every_char() {
            assert_eq!(digit_of(c, radix), c.to_digit(radix), "{:?} in base {}", c, radix);
        }
    }
}

#[test]
fn decimal_numbers_are_those_of_std() {
    let alphabet = ['+', '-', '0', '1', '2', '5', '9', 'a', ' ', '_'];
    for s in strings_over(&alphabet, 5) {
        let token: Vec<char> = s.chars().collect();
        assert_eq!(
            parse_integer(&token, 10, false, 0, 255),
            s.parse::<u8>().ok().map(i32::from),
            "{:?}",
            s
        );
        assert_eq!(
            parse_integer(&token, 10, true, -128, 127),
            s.parse::<i8>().ok().map(i32::from),
            "{:?}",
            s
        );
        assert_eq!(
            parse_integer(&token, 10, true, i32::MIN, i32::MAX),
            s.parse::<i32>().ok(),
            "{:?}",
            s
        );
    }
    for s in ["2147483647", "2147483648", "-2147483648", "-2147483649", "99999999999999999999999", "0000000000000000000000000012"] {
        let token: Vec<char> = s.chars().collect();
        assert_eq!(parse_integer(&token, 10, true, i32::MIN, i32::MAX), s.parse::<i32>().ok());
    }
    assert_eq!(parse_integer(&"12".chars().collect(), 10, true, 20, 30), None);
    assert_eq!(parse_integer(&"25".chars().collect(), 10, true, 20, 30), Some(25));
    assert_eq!(parse_integer(&"-25".chars().collect(), 10, true, -30, -20), Some(-25));
    assert_eq!(parse_integer(&"-25".chars().collect(), 10, false, -30, -20), None);
    assert_eq!(parse_integer(&"5".chars().collect(), 10, true, 7, 3), None);
}

#[test]
fn hexadecimal_numbers_are_those_of_std() {
    let alphabet = ['+', '-', '0', '1', '9', 'a', 'f', 'F', 'g', 'x'];
    for s in strings_over(&alphabet, 5) {
        let token: Vec<char> = s.chars().collect();
        assert_eq!(
            parse_integer(&token, 16, false, 0, 0xFFFF),
            u16::from_str_radix(&s, 16).ok().map(i32::from),
            "{:?}",
            s
        );
        let constant = Expr::Const { val: s.clone(), address: 0 };
        assert_eq!(encode(&constant, &vec![]).ok(), u16::from_str_radix(&s, 16).ok(), "{:?}", s);
    }
}

#[test]
fn a_literal_behind_0x_is_read_as_std_reads_it() {
    let alphabet = ['0', 'x', '1', 'f', '+', 'g'];
    for s in strings_over(&alphabet, 6) {
        if !s.starts_with("0x") {
            continue;
        }
        let low = Expr::Inst {
            inst_type: InstType::I8,
            mnemonic: "lil".to_string(),
            rd: "x0".to_string(),
            rs: String::new(),
            imm: s.clone(),
            symbol: "l".to_string(),
            address: 0,
        };
        let expected = u16::from_str_radix(s.trim_start_matches("0x"), 16)
            .ok()
            .map(|v| 13 | (v & 0x00FF) << 8);
        assert_eq!(encode(&low, &vec![]).ok(), expected, "{:?}", s);
    }
}

#[test]
fn characters_go_into_a_string_and_come_back() {
    let s = "lil x1, 0x12@l // \u{3042}\u{1F600}";
    let chars = to_chars(s);
    assert_eq!(chars, s.chars().collect::<Vec<char>>());
    assert_eq!(string_of(&chars, 0, chars.len()), s);
    assert_eq!(string_of(&chars, 4, 6), "x1");
    assert_eq!(string_of(&chars, 3, 3), "");
    assert_eq!(string_of(&chars, 18, 20), "\u{3042}\u{1F600}");
    assert_eq!(copy_range(&chars, 8, 12), vec!['0', 'x', '1', '2']);
    assert!(is_str(&copy_range(&chars, 0, 3), "lil"));
    assert!(!is_str(&copy_range(&chars, 0, 3), "li"));
    assert!(!is_str(&copy_range(&chars, 0, 3), "lila"));
    assert!(!is_str(&copy_range(&chars, 0, 3), "lih"));
    assert!(is_str(&vec![], ""));
    assert_eq!(scan(&chars, 0, Class::Alpha), 3);
    assert_eq!(scan(&chars, 3, Class::Alpha), 3);
    assert_eq!(scan(&chars, 3, Class::Blank), 4);
    assert_eq!(scan(&chars, 0, Class::Except('@')), 12);
    assert_eq!(scan(&chars, 0, Class::Except('#')), chars.len());
    assert_eq!(scan(&chars, chars.len(), Class::Alpha), chars.len());
}
