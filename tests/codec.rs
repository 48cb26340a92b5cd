use mima::instructions::{DecodeError, Instruction, Opcode};
use mima::types::{coerce_mima_address, coerce_mima_value, is_negative, parse_mima_addr, parse_mima_value, signum};

const ALL: [Opcode; 15] = [
    Opcode::LDC,
    Opcode::LDV,
    Opcode::STV,
    Opcode::ADD,
    Opcode::AND,
    Opcode::OR,
    Opcode::XOR,
    Opcode::EQL,
    Opcode::JMP,
    Opcode::JMN,
    Opcode::LDIV,
    Opcode::STIV,
    Opcode::HALT,
    Opcode::NOT,
    Opcode::RAR,
];

#[test]
fn round_trip_every_opcode() {
    for op in ALL {
        for arg in [0u32, 1, 0x1234, 0xFFFFF] {
            let i = Instruction { opcode: op, arg };
            let back = Instruction::decode(i.encode()).unwrap();
            assert_eq!(back.opcode, op);
            if op.has_arg() {
                assert_eq!(back.arg, arg);
            }
        }
    }
}

#[test]
fn encode_packs_code_and_argument() {
    assert_eq!(Instruction { opcode: Opcode::LDV, arg: 5 }.encode(), 0x10_0005);
    assert_eq!(Instruction { opcode: Opcode::STIV, arg: 0xFFFFF }.encode(), 0xBF_FFFF);
    assert_eq!(Instruction { opcode: Opcode::LDC, arg: 0x123456 }.encode(), 0x02_3456);
    assert_eq!(Instruction { opcode: Opcode::HALT, arg: 0 }.encode(), 0xF0_0000);
    assert_eq!(Instruction { opcode: Opcode::NOT, arg: 7 }.encode(), 0xF1_0000);
    assert_eq!(Instruction { opcode: Opcode::RAR, arg: 0 }.encode(), 0xF2_0000);
}

#[test]
fn decode_reads_opcode_and_argument() {
    assert_eq!(Instruction::decode(0x30_0010), Ok(Instruction { opcode: Opcode::ADD, arg: 0x10 }));
    assert_eq!(Instruction::decode(0xF1_0000).unwrap().opcode, Opcode::NOT);
    assert_eq!(Instruction::opcode_bits(0xF2_1234), 0xF2);
    assert_eq!(Instruction::opcode_bits(0x92_1234), 0x09);
    assert_eq!(Instruction::arg_bits(0x92_1234), 0x2_1234);
}

#[test]
fn decode_rejects_unknown_opcode() {
    assert_eq!(Instruction::decode(0xC0_0001), Err(DecodeError { word: 0xC0_0001, opcode: 0x0C }));
    assert_eq!(Instruction::decode(0xF3_0000), Err(DecodeError { word: 0xF3_0000, opcode: 0xF3 }));
}

#[test]
fn opcode_codes_and_arguments() {
    assert_eq!(Opcode::LDC.repr(), 0x00);
    assert_eq!(Opcode::STIV.repr(), 0x0b);
    assert_eq!(Opcode::RAR.repr(), 0xf2);
    assert_eq!(Opcode::from_repr(0xf0), Some(Opcode::HALT));
    assert_eq!(Opcode::from_repr(0x0c), None);
    assert!(Opcode::JMN.has_arg());
    assert!(!Opcode::HALT.has_arg());
    assert!(!Opcode::NOT.has_arg());
}

#[test]
fn mnemonics_parse_ignoring_case() {
    assert_eq!(Opcode::from_mnemonic("ldv"), Ok(Opcode::LDV));
    assert_eq!(Opcode::from_mnemonic("HaLt"), Ok(Opcode::HALT));
    assert_eq!(Opcode::from_mnemonic("STIV"), Ok(Opcode::STIV));
    assert!(Opcode::from_mnemonic("FOO").is_err());
    assert!(Opcode::from_mnemonic("LD").is_err());
    assert_eq!(Opcode::OR.to_string(), "OR");
}

#[test]
fn instruction_text_form() {
    assert_eq!(Instruction { opcode: Opcode::LDV, arg: 5 }.to_string(), "LDV  0x5");
    assert_eq!(Instruction { opcode: Opcode::LDIV, arg: 0xabc }.to_string(), "LDIV 0xabc");
    assert_eq!(Instruction { opcode: Opcode::OR, arg: 0 }.to_string(), "OR   0x0");
    assert_eq!(Instruction { opcode: Opcode::HALT, arg: 0 }.to_string(), "HALT");
}

#[test]
fn values_and_addresses_wrap() {
    assert_eq!(coerce_mima_value(0x1234_5678), 0x34_5678);
    assert_eq!(coerce_mima_address(0x1234_5678), 0x4_5678);
    assert_eq!(signum(0x80_0000), 1);
    assert_eq!(signum(0x7F_FFFF), 0);
    assert!(is_negative(0xFF_FFFF));
    assert!(!is_negative(0x7F_FFFF));
}

#[test]
fn literals_parse() {
    assert_eq!(parse_mima_addr("12"), Ok(12));
    assert_eq!(parse_mima_addr("0x1f"), Ok(0x1f));
    assert_eq!(parse_mima_addr("0xAB"), Ok(0xab));
    assert_eq!(parse_mima_addr("+7"), Ok(7));
    assert_eq!(parse_mima_addr("0x1FFFFF"), Ok(0xFFFFF));
    assert_eq!(parse_mima_value("0x1FFFFFF"), Ok(0xFFFFFF));
    assert_eq!(parse_mima_value("4294967295"), Ok(0xFFFFFF));
    assert!(parse_mima_addr("4294967296").is_err());
    assert!(parse_mima_addr("").is_err());
    assert!(parse_mima_addr("0x").is_err());
    assert!(parse_mima_addr("+").is_err());
    assert!(parse_mima_addr("-1").is_err());
    assert!(parse_mima_addr("1a").is_err());
    assert!(parse_mima_addr("abc").is_err());
}
