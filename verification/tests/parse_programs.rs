// Whole programs, read into statements and a label table.

use zktc_asm::parse::{parse, Expr, InstType, Label};

#[test]
fn can_parse_r_inst() {
    let text = "start:\n    mov x0, zero\n    add x1, ra\n    sub x2, fp\n    and x3, a0\n    or x4, a1\n    xor x5, a2\n    sll x6, t0\n    srl x7, t1\n    sra x0, x1\nend:\n".to_string();

    let (result_exprs, result_label_table) = parse(text, 0).unwrap();
    let expect_label_table: Vec<Label> = vec![
        Label {
            name: "start".to_string(),
            address: 0,
        },
        Label {
            name: "end".to_string(),
            address: 18,
        },
    ];
    let expect_exprs: Vec<Expr> = vec![
        Expr::Inst {
            inst_type: InstType::R,
            mnemonic: "mov".to_string(),
            rd: "x0".to_string(),
            rs: "zero".to_string(),
            imm: "".to_string(),
            symbol: "".to_string(),
            address: 0,
        },
        Expr::Inst {
            inst_type: InstType::R,
            mnemonic: "add".to_string(),
            rd: "x1".to_string(),
            rs: "ra".to_string(),
            imm: "".to_string(),
            symbol: "".to_string(),
            address: 2,
        },
        Expr::Inst {
            inst_type: InstType::R,
            mnemonic: "sub".to_string(),
            rd: "x2".to_string(),
            rs: "fp".to_string(),
            imm: "".to_string(),
            symbol: "".to_string(),
            address: 4,
        },
        Expr::Inst {
            inst_type: InstType::R,
            mnemonic: "and".to_string(),
            rd: "x3".to_string(),
            rs: "a0".to_string(),
            imm: "".to_string(),
            symbol: "".to_string(),
            address: 6,
        },
        Expr::Inst {
            inst_type: InstType::R,
            mnemonic: "or".to_string(),
            rd: "x4".to_string(),
            rs: "a1".to_string(),
            imm: "".to_string(),
            symbol: "".to_string(),
            address: 8,
        },
        Expr::Inst {
            inst_type: InstType::R,
            mnemonic: "xor".to_string(),
            rd: "x5".to_string(),
            rs: "a2".to_string(),
            imm: "".to_string(),
            symbol: "".to_string(),
            address: 10,
        },
        Expr::Inst {
            inst_type: InstType::R,
            mnemonic: "sll".to_string(),
            rd: "x6".to_string(),
            rs: "t0".to_string(),
            imm: "".to_string(),
            symbol: "".to_string(),
            address: 12,
        },
        Expr::Inst {
            inst_type: InstType::R,
            mnemonic: "srl".to_string(),
            rd: "x7".to_string(),
            rs: "t1".to_string(),
            imm: "".to_string(),
            symbol: "".to_string(),
            address: 14,
        },
        Expr::Inst {
            inst_type: InstType::R,
            mnemonic: "sra".to_string(),
            rd: "x0".to_string(),
            rs: "x1".to_string(),
            imm: "".to_string(),
            symbol: "".to_string(),
            address: 16,
        },
    ];
    assert_eq!(result_label_table, expect_label_table);
    assert_eq!(result_exprs, expect_exprs);
}

#[test]
fn can_parse_i5_inst() {
    let text = "start:\n    addi x0, zero, 1\n    subi x1, ra, 1\n    beq x2, fp, 1\n    bnq x3, a0, -1\n    blt x4, a1, 1\n    bge x5, a2, -1\n    bltu x6, t0, 1\n    bgeu x7, t1, -1\n    jalr x0, x1, 1\n    lw x2, x3, -1\n    sw x4, x5, 1\nend:\n".to_string();

    let (result_exprs, result_label_table) = parse(text, 0).unwrap();
    let expect_label_table: Vec<Label> = vec![
        Label {
            name: "start".to_string(),
            address: 0,
        },
        Label {
            name: "end".to_string(),
            address: 22,
        },
    ];
    let expect_exprs: Vec<Expr> = vec![
        Expr::Inst {
            inst_type: InstType::I5,
            mnemonic: "addi".to_string(),
            rd: "x0".to_string(),
            rs: "zero".to_string(),
            imm: "1".to_string(),
            symbol: "".to_string(),
            address: 0,
        },
        Expr::Inst {
            inst_type: InstType::I5,
            mnemonic: "subi".to_string(),
            rd: "x1".to_string(),
            rs: "ra".to_string(),
            imm: "1".to_string(),
            symbol: "".to_string(),
            address: 2,
        },
        Expr::Inst {
            inst_type: InstType::I5,
            mnemonic: "beq".to_string(),
            rd: "x2".to_string(),
            rs: "fp".to_string(),
            imm: "1".to_string(),
            symbol: "".to_string(),
            address: 4,
        },
        Expr::Inst {
            inst_type: InstType::I5,
            mnemonic: "bnq".to_string(),
            rd: "x3".to_string(),
            rs: "a0".to_string(),
            imm: "-1".to_string(),
            symbol: "".to_string(),
            address: 6,
        },
        Expr::Inst {
            inst_type: InstType::I5,
            mnemonic: "blt".to_string(),
            rd: "x4".to_string(),
            rs: "a1".to_string(),
            imm: "1".to_string(),
            symbol: "".to_string(),
            address: 8,
        },
        Expr::Inst {
            inst_type: InstType::I5,
            mnemonic: "bge".to_string(),
            rd: "x5".to_string(),
            rs: "a2".to_string(),
            imm: "-1".to_string(),
            symbol: "".to_string(),
            address: 10,
        },
        Expr::Inst {
            inst_type: InstType::I5,
            mnemonic: "bltu".to_string(),
            rd: "x6".to_string(),
            rs: "t0".to_string(),
            imm: "1".to_string(),
            symbol: "".to_string(),
            address: 12,
        },
        Expr::Inst {
            inst_type: InstType::I5,
            mnemonic: "bgeu".to_string(),
            rd: "x7".to_string(),
            rs: "t1".to_string(),
            imm: "-1".to_string(),
            symbol: "".to_string(),
            address: 14,
        },
        Expr::Inst {
            inst_type: InstType::I5,
            mnemonic: "jalr".to_string(),
            rd: "x0".to_string(),
            rs: "x1".to_string(),
            imm: "1".to_string(),
            symbol: "".to_string(),
            address: 16,
        },
        Expr::Inst {
            inst_type: InstType::I5,
            mnemonic: "lw".to_string(),
            rd: "x2".to_string(),
            rs: "x3".to_string(),
            imm: "-1".to_string(),
            symbol: "".to_string(),
            address: 18,
        },
        Expr::Inst {
            inst_type: InstType::I5,
            mnemonic: "sw".to_string(),
            rd: "x4".to_string(),
            rs: "x5".to_string(),
            imm: "1".to_string(),
            symbol: "".to_string(),
            address: 20,
        },
    ];
    assert_eq!(result_label_table, expect_label_table);
    assert_eq!(result_exprs, expect_exprs);
}

#[test]
fn can_parse_i8_inst() {
    let text = "start:\n    jal zero, 1\n    lil ra, 0x1@l\n    lih fp, 0x1@h\nend:\n".to_string();

    let (result_exprs, result_label_table) = parse(text, 0).unwrap();
    let expect_label_table: Vec<Label> = vec![
        Label {
            name: "start".to_string(),
            address: 0,
        },
        Label {
            name: "end".to_string(),
            address: 6,
        },
    ];
    let expect_exprs: Vec<Expr> = vec![
        Expr::Inst {
            inst_type: InstType::I8,
            mnemonic: "jal".to_string(),
            rd: "zero".to_string(),
            rs: "".to_string(),
            imm: "1".to_string(),
            symbol: "".to_string(),
            address: 0,
        },
        Expr::Inst {
            inst_type: InstType::I8,
            mnemonic: "lil".to_string(),
            rd: "ra".to_string(),
            rs: "".to_string(),
            imm: "0x1".to_string(),
            symbol: "l".to_string(),
            address: 2,
        },
        Expr::Inst {
            inst_type: InstType::I8,
            mnemonic: "lih".to_string(),
            rd: "fp".to_string(),
            rs: "".to_string(),
            imm: "0x1".to_string(),
            symbol: "h".to_string(),
            address: 4,
        },
    ];
    assert_eq!(result_label_table, expect_label_table);
    assert_eq!(result_exprs, expect_exprs);
}

#[test]
fn can_parse_c1_inst() {
    let text = "start:\n    push zero\n    pop ra\n    rpc fp\n    rsp a0\n    rpsr a1\n    rtlr a2\n    rthr t0\n    wsp t1\n    wpsr x0\n    wtlr x1\n    wthr x2\nend:\n".to_string();

    let (result_exprs, result_label_table) = parse(text, 0).unwrap();
    let expect_label_table: Vec<Label> = vec![
        Label {
            name: "start".to_string(),
            address: 0,
        },
        Label {
            name: "end".to_string(),
            address: 22,
        },
    ];
    let expect_exprs: Vec<Expr> = vec![
        Expr::Inst {
            inst_type: InstType::C1,
            mnemonic: "push".to_string(),
            rd: "zero".to_string(),
            rs: "".to_string(),
            imm: "".to_string(),
            symbol: "".to_string(),
            address: 0,
        },
        Expr::Inst {
            inst_type: InstType::C1,
            mnemonic: "pop".to_string(),
            rd: "ra".to_string(),
            rs: "".to_string(),
            imm: "".to_string(),
            symbol: "".to_string(),
            address: 2,
        },
        Expr::Inst {
            inst_type: InstType::C1,
            mnemonic: "rpc".to_string(),
            rd: "fp".to_string(),
            rs: "".to_string(),
            imm: "".to_string(),
            symbol: "".to_string(),
            address: 4,
        },
        Expr::Inst {
            inst_type: InstType::C1,
            mnemonic: "rsp".to_string(),
            rd: "a0".to_string(),
            rs: "".to_string(),
            imm: "".to_string(),
            symbol: "".to_string(),
            address: 6,
        },
        Expr::Inst {
            inst_type: InstType::C1,
            mnemonic: "rpsr".to_string(),
            rd: "a1".to_string(),
            rs: "".to_string(),
            imm: "".to_string(),
            symbol: "".to_string(),
            address: 8,
        },
        Expr::Inst {
            inst_type: InstType::C1,
            mnemonic: "rtlr".to_string(),
            rd: "a2".to_string(),
            rs: "".to_string(),
            imm: "".to_string(),
            symbol: "".to_string(),
            address: 10,
        },
        Expr::Inst {
            inst_type: InstType::C1,
            mnemonic: "rthr".to_string(),
            rd: "t0".to_string(),
            rs: "".to_string(),
            imm: "".to_string(),
            symbol: "".to_string(),
            address: 12,
        },
        Expr::Inst {
            inst_type: InstType::C1,
            mnemonic: "wsp".to_string(),
            rd: "t1".to_string(),
            rs: "".to_string(),
            imm: "".to_string(),
            symbol: "".to_string(),
            address: 14,
        },
        Expr::Inst {
            inst_type: InstType::C1,
            mnemonic: "wpsr".to_string(),
            rd: "x0".to_string(),
            rs: "".to_string(),
            imm: "".to_string(),
            symbol: "".to_string(),
            address: 16,
        },
        Expr::Inst {
            inst_type: InstType::C1,
            mnemonic: "wtlr".to_string(),
            rd: "x1".to_string(),
            rs: "".to_string(),
            imm: "".to_string(),
            symbol: "".to_string(),
            address: 18,
        },
        Expr::Inst {
            inst_type: InstType::C1,
            mnemonic: "wthr".to_string(),
            rd: "x2".to_string(),
            rs: "".to_string(),
            imm: "".to_string(),
            symbol: "".to_string(),
            address: 20,
        },
    ];
    assert_eq!(result_label_table, expect_label_table);
    assert_eq!(result_exprs, expect_exprs);
}

#[test]
fn can_parse_c2_inst() {
    let text = "start:\n    rfi\n    rtr\n    wtr\nend:\n".to_string();

    let (result_exprs, result_label_table) = parse(text, 0).unwrap();
    let expect_label_table: Vec<Label> = vec![
        Label {
            name: "start".to_string(),
            address: 0,
        },
        Label {
            name: "end".to_string(),
            address: 6,
        },
    ];
    let expect_exprs: Vec<Expr> = vec![
        Expr::Inst {
            inst_type: InstType::C2,
            mnemonic: "rfi".to_string(),
            rd: "".to_string(),
            rs: "".to_string(),
            imm: "".to_string(),
            symbol: "".to_string(),
            address: 0,
        },
        Expr::Inst {
            inst_type: InstType::C2,
            mnemonic: "rtr".to_string(),
            rd: "".to_string(),
            rs: "".to_string(),
            imm: "".to_string(),
            symbol: "".to_string(),
            address: 2,
        },
        Expr::Inst {
            inst_type: InstType::C2,
            mnemonic: "wtr".to_string(),
            rd: "".to_string(),
            rs: "".to_string(),
            imm: "".to_string(),
            symbol: "".to_string(),
            address: 4,
        },
    ];
    assert_eq!(result_label_table, expect_label_table);
    assert_eq!(result_exprs, expect_exprs);
}

#[test]
fn can_parse_word() {
    let text = "word:\n    .word 0xffff\n    lil x1, word@l\n    lih x1, word@h\n".to_string();

    let (result_exprs, result_label_table) = parse(text, 0).unwrap();
    let expect_exprs: Vec<Expr> = vec![
        Expr::Const {
            val: "ffff".to_string(),
            address: 0,
        },
        Expr::Inst {
            inst_type: InstType::I8,
            mnemonic: "lil".to_string(),
            rd: "x1".to_string(),
            rs: "".to_string(),
            imm: "word".to_string(),
            symbol: "l".to_string(),
            address: 2,
        },
        Expr::Inst {
            inst_type: InstType::I8,
            mnemonic: "lih".to_string(),
            rd: "x1".to_string(),
            rs: "".to_string(),
            imm: "word".to_string(),
            symbol: "h".to_string(),
            address: 4,
        },
    ];
    let expect_label_table: Vec<Label> = vec![Label {
        name: "word".to_string(),
        address: 0,
    }];
    assert_eq!(result_exprs, expect_exprs);
    assert_eq!(result_label_table, expect_label_table);
}
