use mima::assembly::{assemble, AsmError};
use mima::instructions::{Instruction, Opcode};

fn ins(opcode: Opcode, arg: u32) -> Instruction {
    Instruction { opcode, arg }
}

fn chars(s: &str) -> Vec<char> {
    s.chars().collect()
}

#[test]
fn example_program_relative() {
    let src = "loop:\nLDV a\nADD b\nJMP loop\na:\nLDC 5\nb:\nLDC 10\n";
    let out = assemble(src.to_string(), false).unwrap();
    assert_eq!(
        out,
        vec![
            ins(Opcode::LDV, 9),
            ins(Opcode::ADD, 10),
            ins(Opcode::JMP, 6),
            ins(Opcode::LDC, 5),
            ins(Opcode::LDC, 10),
        ]
    );
}

#[test]
fn example_program_absolute() {
    let src = "loop:\nLDV a\nADD b\nJMP loop\na:\nLDC 5\nb:\nLDC 10\n";
    let out = assemble(src.to_string(), true).unwrap();
    assert_eq!(
        out,
        vec![
            ins(Opcode::LDV, 3),
            ins(Opcode::ADD, 4),
            ins(Opcode::JMP, 0),
            ins(Opcode::LDC, 5),
            ins(Opcode::LDC, 10),
        ]
    );
}

#[test]
fn unknown_mnemonic_names_line_and_token() {
    let src = "LDC 1\n; comment\nFOO 1\n";
    assert_eq!(
        assemble(src.to_string(), false),
        Err(AsmError::UnknownMnemonic { line: 3, token: chars("FOO") })
    );
}

#[test]
fn label_with_trailing_tokens_fails() {
    assert_eq!(
        assemble("start: LDC 1".to_string(), false),
        Err(AsmError::UnexpectedAfterLabel { line: 1, label: chars("start") })
    );
}

#[test]
fn missing_argument_fails() {
    assert_eq!(
        assemble("\n\nldv\n".to_string(), false),
        Err(AsmError::MissingArgument { line: 3, mnemonic: chars("ldv") })
    );
}

#[test]
fn extra_tokens_fail() {
    assert_eq!(
        assemble("LDV 1 2".to_string(), false),
        Err(AsmError::TrailingTokens { line: 1 })
    );
    assert_eq!(
        assemble("LDC 0\nHALT now".to_string(), false),
        Err(AsmError::TrailingTokens { line: 2 })
    );
}

#[test]
fn comments_and_blank_lines_are_skipped() {
    let src = "  ; header\n\n\tldc 0x10 ; load\r\nhalt ;; stop\n";
    assert_eq!(
        assemble(src.to_string(), false).unwrap(),
        vec![ins(Opcode::LDC, 0x10), ins(Opcode::HALT, 0)]
    );
    assert_eq!(assemble(String::new(), false).unwrap(), vec![]);
}

#[test]
fn literal_addresses_are_relocated_except_for_ldc() {
    let src = "LDV 7\nSTV 0x20\nLDC 7\nHALT";
    assert_eq!(
        assemble(src.to_string(), false).unwrap(),
        vec![
            ins(Opcode::LDV, 12),
            ins(Opcode::STV, 0x25),
            ins(Opcode::LDC, 7),
            ins(Opcode::HALT, 0),
        ]
    );
    assert_eq!(
        assemble(src.to_string(), true).unwrap(),
        vec![
            ins(Opcode::LDV, 7),
            ins(Opcode::STV, 0x20),
            ins(Opcode::LDC, 7),
            ins(Opcode::HALT, 0),
        ]
    );
}

#[test]
fn undeclared_names_get_addresses_after_highest_literal() {
    let src = "LDV x\nSTV 9\nADD y\nSTV x\nLDC 100\nHALT";
    assert_eq!(
        assemble(src.to_string(), true).unwrap(),
        vec![
            ins(Opcode::LDV, 10),
            ins(Opcode::STV, 9),
            ins(Opcode::ADD, 11),
            ins(Opcode::STV, 10),
            ins(Opcode::LDC, 100),
            ins(Opcode::HALT, 0),
        ]
    );
    assert_eq!(
        assemble(src.to_string(), false).unwrap(),
        vec![
            ins(Opcode::LDV, 17),
            ins(Opcode::STV, 16),
            ins(Opcode::ADD, 18),
            ins(Opcode::STV, 17),
            ins(Opcode::LDC, 100),
            ins(Opcode::HALT, 0),
        ]
    );
}

#[test]
fn later_label_declaration_wins() {
    let src = "x:\nJMP x\nx:\nHALT";
    assert_eq!(
        assemble(src.to_string(), true).unwrap(),
        vec![ins(Opcode::JMP, 1), ins(Opcode::HALT, 0)]
    );
}

#[test]
fn out_of_range_literal_is_a_name() {
    let src = "LDV 4294967296\nHALT";
    assert_eq!(
        assemble(src.to_string(), true).unwrap(),
        vec![ins(Opcode::LDV, 1), ins(Opcode::HALT, 0)]
    );
}
