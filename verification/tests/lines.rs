// Lines of source text and the statements that they are read as.

use zktc_asm::assemble;
use zktc_asm::error::AsmError;
use zktc_asm::parse::{parse, parse_inst, parse_label, parse_line, parse_word, Expr, InstType, Label};

fn chars(s: &str) -> Vec<char> {
    s.chars().collect()
}

fn inst(inst_type: InstType, mnemonic: &str, rd: &str, rs: &str, imm: &str, symbol: &str) -> Expr {
    Expr::Inst {
        inst_type,
        mnemonic: mnemonic.to_string(),
        rd: rd.to_string(),
        rs: rs.to_string(),
        imm: imm.to_string(),
        symbol: symbol.to_string(),
        address: 0,
    }
}

fn read(line: &str) -> Option<Expr> {
    parse_line(&chars(line))
}

#[test]
fn an_instruction_of_each_format() {
    assert_eq!(read("mov x0, zero"), Some(inst(InstType::R, "mov", "x0", "zero", "", "")));
    assert_eq!(read("addi x1, x2, 3"), Some(inst(InstType::I5, "addi", "x1", "x2", "3", "")));
    assert_eq!(read("jal ra, loop"), Some(inst(InstType::I8, "jal", "ra", "", "loop", "")));
    assert_eq!(read("lil a0, 0x12ab@l"), Some(inst(InstType::I8, "lil", "a0", "", "0x12ab", "l")));
    assert_eq!(read("lih a0, data@h"), Some(inst(InstType::I8, "lih", "a0", "", "data", "h")));
    assert_eq!(read("push fp"), Some(inst(InstType::C1, "push", "fp", "", "", "")));
    assert_eq!(read("rfi"), Some(inst(InstType::C2, "rfi", "", "", "", "")));
}

#[test]
fn every_mnemonic_is_read_in_its_format() {
    for m in ["mov", "add", "sub", "and", "or", "xor", "sll", "srl", "sra"] {
        assert_eq!(read(&format!("{} x1, x2", m)), Some(inst(InstType::R, m, "x1", "x2", "", "")));
    }
    for m in ["addi", "subi", "beq", "bnq", "blt", "bge", "bltu", "bgeu", "jalr", "lw", "sw"] {
        assert_eq!(
            read(&format!("{} x1, x2, -4", m)),
            Some(inst(InstType::I5, m, "x1", "x2", "-4", ""))
        );
    }
    for m in ["jal", "lil", "lih"] {
        assert_eq!(read(&format!("{} x1, 9", m)), Some(inst(InstType::I8, m, "x1", "", "9", "")));
    }
    for m in [
        "push", "pop", "rpc", "rsp", "rpsr", "rtlr", "rthr", "rppc", "rppsr", "wsp", "wpsr",
        "wtlr", "wthr", "wppc", "wppsr",
    ] {
        assert_eq!(read(&format!("{} x1", m)), Some(inst(InstType::C1, m, "x1", "", "", "")));
    }
    for m in ["rfi", "rtr", "wtr"] {
        assert_eq!(read(m), Some(inst(InstType::C2, m, "", "", "", "")));
    }
    for m in ["MOV", "Mov", "nop", "trap", "movi", "ad", "jalx", "byte"] {
        assert_eq!(read(&format!("{} x1, x2, 3", m)), None, "{}", m);
    }
}

#[test]
fn blanks_between_tokens_are_free() {
    let expected = Some(inst(InstType::I5, "addi", "x1", "x2", "3", ""));
    assert_eq!(read("addi x1,x2,3"), expected);
    assert_eq!(read("  \t addi \t x1 \t , \t x2 ,\t 3"), expected);
    assert_eq!(read("\r\naddi\nx1\n,\nx2\n,\n3"), expected);
    assert_eq!(read("mov\tx0,\tx1"), Some(inst(InstType::R, "mov", "x0", "x1", "", "")));
    // the mnemonic ends with its letters
    assert_eq!(read("push0"), Some(inst(InstType::C1, "push", "0", "", "", "")));
    assert_eq!(read("mov0,1"), Some(inst(InstType::R, "mov", "0", "1", "", "")));
    assert_eq!(read("movx0, x1"), None);
    // other white space is no blank
    assert_eq!(read("\u{a0}mov x0, x1"), None);
    assert_eq!(read("mov\u{a0}x0, x1"), None);
    assert_eq!(read("\u{b}mov x0, x1"), None);
}

#[test]
fn what_follows_a_statement_is_not_read() {
    assert_eq!(read("mov x0, x1 // copy"), Some(inst(InstType::R, "mov", "x0", "x1", "", "")));
    assert_eq!(read("mov x0, x1, x2 !?"), Some(inst(InstType::R, "mov", "x0", "x1", "", "")));
    assert_eq!(read("push x1 x2"), Some(inst(InstType::C1, "push", "x1", "", "", "")));
    assert_eq!(read("rfi x1"), Some(inst(InstType::C2, "rfi", "", "", "", "")));
    assert_eq!(read("rfi:"), Some(inst(InstType::C2, "rfi", "", "", "", "")));
    assert_eq!(read("addi x1, x2, 3 4"), Some(inst(InstType::I5, "addi", "x1", "x2", "3", "")));
    assert_eq!(
        read("loop: mov x0, x1"),
        Some(Expr::Label { name: "loop".to_string(), address: 0 })
    );
    assert_eq!(
        read(".word 0x12 0x34"),
        Some(Expr::Const { val: "12".to_string(), address: 0 })
    );
    assert_eq!(read(".word 0x12zz"), Some(Expr::Const { val: "12".to_string(), address: 0 }));
}

#[test]
fn an_immediate_ends_at_a_space() {
    assert_eq!(read("addi x1, x2,"), Some(inst(InstType::I5, "addi", "x1", "x2", "", "")));
    assert_eq!(read("addi x1, x2, 3\t4"), Some(inst(InstType::I5, "addi", "x1", "x2", "3\t4", "")));
    assert_eq!(read("addi x1, x2, 3\r"), Some(inst(InstType::I5, "addi", "x1", "x2", "3\r", "")));
    assert_eq!(read("addi x1, x2, 3;\r"), Some(inst(InstType::I5, "addi", "x1", "x2", "3;\r", "")));
    assert_eq!(read("addi x1, x2, -3,x"), Some(inst(InstType::I5, "addi", "x1", "x2", "-3,x", "")));
    assert_eq!(read("jal x1,"), Some(inst(InstType::I8, "jal", "x1", "", "", "")));
    assert_eq!(read("jal x1, a b"), Some(inst(InstType::I8, "jal", "x1", "", "a", "")));
}

#[test]
fn a_selector_stands_behind_the_first_at_sign() {
    assert_eq!(read("lil x1, v@l"), Some(inst(InstType::I8, "lil", "x1", "", "v", "l")));
    assert_eq!(read("lil x1, v@"), Some(inst(InstType::I8, "lil", "x1", "", "v", "")));
    assert_eq!(read("lil x1, @h"), Some(inst(InstType::I8, "lil", "x1", "", "", "h")));
    assert_eq!(read("lil x1, v@low rest"), Some(inst(InstType::I8, "lil", "x1", "", "v", "low")));
    assert_eq!(read("lil x1, v@l@h"), Some(inst(InstType::I8, "lil", "x1", "", "v", "l@h")));
    // the immediate reaches up to the `@`, over spaces too
    assert_eq!(read("lil x1, v w @l"), Some(inst(InstType::I8, "lil", "x1", "", "v w ", "l")));
    assert_eq!(read("lil x1, v // a@b"), Some(inst(InstType::I8, "lil", "x1", "", "v // a", "b")));
    assert_eq!(read("jal x1, v@l"), Some(inst(InstType::I8, "jal", "x1", "", "v", "l")));
    // formats without a selector keep the `@` in the immediate
    assert_eq!(read("addi x1, x2, v@l"), Some(inst(InstType::I5, "addi", "x1", "x2", "v@l", "")));
}

#[test]
fn operands_that_are_missing_or_misplaced() {
    for line in [
        "mov", "mov x0", "mov x0,", "mov x0 x1", "mov ,x1", "mov x0, ,", "mov x0; x1", "mov x0, $1",
        "addi x1, x2", "addi x1, x2 3", "addi x1 x2, 3", "addi", "jal", "jal x1", "jal x1 2",
        "jal , 2", "push", "push ,", "push @", "lil x1 0x12@l", "mov x_0, x1", "mov (x0), x1",
    ] {
        assert_eq!(read(line), None, "{:?}", line);
    }
}

#[test]
fn a_data_directive() {
    let word = |val: &str| Some(Expr::Const { val: val.to_string(), address: 0 });
    assert_eq!(read(".word 0xffff"), word("ffff"));
    assert_eq!(read("  .word   0xABCdef012"), word("ABCdef012"));
    assert_eq!(read(".word0x1"), word("1"));
    assert_eq!(read(".word\t0x0"), word("0"));
    for line in [
        ".word", ".word ffff", ".word 0x", ".word 0xg", ".word 0Xff", ".word 1234", ". word 0x1",
        ".Word 0x1", ".words 0x1", ".wor 0x1", ".byte 0x1", "word 0x1", ".word -0x1", ".word 0 x1",
        ".", "..word 0x1", ".0x1",
    ] {
        assert_eq!(read(line), None, "{:?}", line);
    }
}

#[test]
fn a_label_declaration() {
    let label = |name: &str| Some(Expr::Label { name: name.to_string(), address: 0 });
    assert_eq!(read("start:"), label("start"));
    assert_eq!(read("  L1:  "), label("L1"));
    assert_eq!(read("1:"), label("1"));
    assert_eq!(read("x0:"), label("x0"));
    // a mnemonic with a colon right behind it, where its operands are missing
    assert_eq!(read("mov:"), label("mov"));
    assert_eq!(read("add:x1,x2"), label("add"));
    assert_eq!(read("word:"), label("word"));
    assert_eq!(read("a::"), label("a"));
    for line in ["start :", ":", "my_label:", "a-b:", "start", "é:", "a.b:", " : a"] {
        assert_eq!(read(line), None, "{:?}", line);
    }
}

#[test]
fn a_statement_is_read_from_where_it_is_said_to_start() {
    let line = chars("x: mov x0, x1 .word 0x7 y:");
    assert_eq!(parse_inst(&line, 3), Some(inst(InstType::R, "mov", "x0", "x1", "", "")));
    assert_eq!(parse_inst(&line, 0), None);
    assert_eq!(parse_inst(&line, 2), None);
    assert_eq!(parse_word(&line, 13), Some(Expr::Const { val: "7".to_string(), address: 0 }));
    assert_eq!(parse_word(&line, 14), Some(Expr::Const { val: "7".to_string(), address: 0 }));
    assert_eq!(parse_word(&line, 15), None);
    assert_eq!(parse_label(&line, 0), Some(Expr::Label { name: "x".to_string(), address: 0 }));
    assert_eq!(parse_label(&line, 24), Some(Expr::Label { name: "y".to_string(), address: 0 }));
    assert_eq!(parse_label(&line, 23), None);
    assert_eq!(parse_label(&line, line.len()), None);
    assert_eq!(parse_inst(&line, line.len()), None);
    assert_eq!(parse_word(&line, line.len()), None);
}

#[test]
fn a_syntax_error_names_its_line() {
    let text = "// header\n\nstart:\n  mov x0, x1\n  mov x0 x1\n  bogus\n";
    assert_eq!(
        parse(text.to_string(), 0),
        Err(AsmError::SyntaxError { line_number: 5, line: "  mov x0 x1".to_string() })
    );
    assert_eq!(
        assemble(text.to_string(), 0),
        Err(AsmError::SyntaxError { line_number: 5, line: "  mov x0 x1".to_string() })
    );
    assert_eq!(
        parse("nop".to_string(), 0),
        Err(AsmError::SyntaxError { line_number: 1, line: "nop".to_string() })
    );
    assert_eq!(
        parse("\r\n\r\n  ?  \r\n".to_string(), 0),
        Err(AsmError::SyntaxError { line_number: 3, line: "  ?  ".to_string() })
    );
    // a syntax error comes before any error of the encoder
    assert_eq!(
        assemble("mov x9, x9\n???\n".to_string(), 0),
        Err(AsmError::SyntaxError { line_number: 2, line: "???".to_string() })
    );
}

#[test]
fn comments_and_empty_lines_hold_no_statement() {
    let text = "\n   \n\t\n// one\n   // two\n\u{3000}//three\n//\nmov x0, x1\n \u{a0} \n";
    let (exprs, labels) = parse(text.to_string(), 0).unwrap();
    assert_eq!(exprs.len(), 1);
    assert_eq!(labels.len(), 0);
    // one slash is no comment, nor is a comment behind something else a line to pass over
    assert_eq!(
        parse("/ mov x0, x1".to_string(), 0),
        Err(AsmError::SyntaxError { line_number: 1, line: "/ mov x0, x1".to_string() })
    );
    assert_eq!(
        parse("/ /".to_string(), 0),
        Err(AsmError::SyntaxError { line_number: 1, line: "/ /".to_string() })
    );
    // a comment that would read as a statement is a comment
    assert_eq!(parse("//mov x0, x1".to_string(), 0), Ok((vec![], vec![])));
}

#[test]
fn line_ends_of_both_kinds() {
    let unix = parse("a:\nmov x0, x1\naddi x0, x1, 3\n".to_string(), 0).unwrap();
    let dos = parse("a:\r\nmov x0, x1\r\naddi x0, x1, 3\r\n".to_string(), 0).unwrap();
    let open = parse("a:\nmov x0, x1\naddi x0, x1, 3".to_string(), 0).unwrap();
    assert_eq!(unix, dos);
    assert_eq!(unix, open);
    // a carriage return at the very end belongs to the last line
    let (exprs, _) = parse("addi x0, x1, 3\r".to_string(), 0).unwrap();
    assert_eq!(
        exprs,
        vec![Expr::Inst {
            inst_type: InstType::I5,
            mnemonic: "addi".to_string(),
            rd: "x0".to_string(),
            rs: "x1".to_string(),
            imm: "3\r".to_string(),
            symbol: String::new(),
            address: 0,
        }]
    );
}

#[test]
fn addresses_go_up_by_two_from_the_base() {
    let text = "a:\nb:\n mov x0, x1\nc:\n .word 0x1\n\n// gap\n rfi\nd:\ne:\n";
    for base in [0u16, 1, 0x100, 0x7FFF, 0xFFF0] {
        let (exprs, labels) = parse(text.to_string(), base).unwrap();
        assert_eq!(exprs.len(), 3);
        for (k, e) in exprs.iter().enumerate() {
            let address = match e {
                Expr::Inst { address, .. } => *address,
                Expr::Const { address, .. } => *address,
                Expr::Label { .. } => unreachable!(),
            };
            assert_eq!(address, base + 2 * k as u16);
        }
        let expected: Vec<Label> = [("a", 0), ("b", 0), ("c", 2), ("d", 6), ("e", 6)]
            .iter()
            .map(|(n, a)| Label { name: n.to_string(), address: base + a })
            .collect();
        assert_eq!(labels, expected);
        for pair in labels.windows(2) {
            assert!(pair[0].address <= pair[1].address);
        }
        if base % 2 == 0 {
            assert!(labels.iter().all(|l| l.address % 2 == 0));
        } else {
            assert!(labels.iter().all(|l| l.address % 2 == 1));
        }
    }
}

#[test]
fn the_address_space_ends_at_0xffff() {
    // the last word of the address space can be taken
    let (exprs, labels) = parse("first:\nrfi\nlast:\nrfi\n".to_string(), 0xFFFC).unwrap();
    assert_eq!(exprs.len(), 2);
    assert_eq!(
        labels,
        vec![
            Label { name: "first".to_string(), address: 0xFFFC },
            Label { name: "last".to_string(), address: 0xFFFE }
        ]
    );
    assert_eq!(assemble("rfi\nrfi\n".to_string(), 0xFFFC), Ok(vec![0x1F, 0x08, 0x1F, 0x08]));
    // nothing can follow it, neither a statement nor a label
    assert_eq!(
        parse("rfi\nrfi\n\n  rtr\n".to_string(), 0xFFFC),
        Err(AsmError::AddressOverflow { line_number: 4, line: "  rtr".to_string() })
    );
    assert_eq!(
        parse("rfi\nrfi\nend:\n".to_string(), 0xFFFC),
        Err(AsmError::AddressOverflow { line_number: 3, line: "end:".to_string() })
    );
    assert_eq!(
        parse("rfi\nrfi\n// done\n\n".to_string(), 0xFFFC),
        parse("rfi\nrfi\n".to_string(), 0xFFFC)
    );
    // with an odd base the last statement lies at 0xFFFF
    let (exprs, _) = parse("rfi\nrfi\n".to_string(), 0xFFFD).unwrap();
    assert_eq!(exprs.len(), 2);
    assert_eq!(
        parse("rfi\nrfi\nrfi\n".to_string(), 0xFFFD),
        Err(AsmError::AddressOverflow { line_number: 3, line: "rfi".to_string() })
    );
    // a line that is no statement is a syntax error there too
    assert_eq!(
        parse("rfi\n?\n".to_string(), 0xFFFE),
        Err(AsmError::SyntaxError { line_number: 2, line: "?".to_string() })
    );
}

#[test]
fn a_program_of_the_whole_address_space() {
    let text = "rfi\n".repeat(0x8000);
    let bytes = assemble(text.clone(), 0).unwrap();
    assert_eq!(bytes.len(), 0x10000);
    assert_eq!(
        assemble(text + "rfi", 0),
        Err(AsmError::AddressOverflow { line_number: 0x8001, line: "rfi".to_string() })
    );
}
