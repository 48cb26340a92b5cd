use mima::instructions::{DecodeError, Instruction, Opcode};
use mima::runtime::{Runtime, StepError};

fn word(opcode: Opcode, arg: u32) -> u32 {
    Instruction { opcode, arg }.encode()
}

fn memory(rt: &Runtime) -> Vec<u32> {
    rt.mem_iter().copied().collect()
}

#[test]
fn accumulator_writes_wrap() {
    let mut rt = Runtime::new();
    rt.write_accu(0x123_4567);
    assert_eq!(rt.read_accu(), 0x23_4567);
    rt.write_accu(0x100_0000);
    assert_eq!(rt.read_accu(), 0);
}

#[test]
fn address_writes_wrap() {
    let mut rt = Runtime::new();
    rt.write_iar(0x12_3456);
    assert_eq!(rt.read_iar(), 0x2_3456);
    rt.write_ir(0xFFFF_FFFF);
    assert_eq!(rt.read_ir(), 0xFF_FFFF);
}

#[test]
fn unwritten_memory_reads_zero() {
    let rt = Runtime::with_instructions(&vec![1, 2, 3]);
    assert_eq!(rt.read_mem(2), 3);
    assert_eq!(rt.read_mem(3), 0);
    assert_eq!(rt.read_mem(0xFFFFF), 0);
    assert_eq!(rt.read_mem(0x10_0001), 2);
}

#[test]
fn memory_grows_with_zeros() {
    let mut rt = Runtime::new();
    rt.write_mem(5, 7);
    assert_eq!(memory(&rt), vec![0, 0, 0, 0, 0, 7]);
    rt.write_mem(2, 0x100_0009);
    assert_eq!(memory(&rt), vec![0, 0, 9, 0, 0, 7]);
    rt.write_mem(0x10_0006, 1);
    assert_eq!(memory(&rt), vec![0, 0, 9, 0, 0, 7, 1]);
}

#[test]
fn initial_memory_is_wrapped() {
    let rt = Runtime::with_memory(vec![0x1FF_FFFF, 4]);
    assert_eq!(memory(&rt), vec![0xFF_FFFF, 4]);
    assert!(!rt.is_halted());
}

#[test]
fn halt_is_terminal() {
    let mut rt = Runtime::with_instructions(&vec![word(Opcode::HALT, 0), word(Opcode::LDC, 3)]);
    assert_eq!(rt.step(), Ok(()));
    assert!(rt.is_halted());
    assert_eq!(rt.read_iar(), 1);
    assert_eq!(rt.step(), Err(StepError::Halted));
    assert_eq!(rt.read_iar(), 1);
    assert_eq!(rt.read_accu(), 0);
    assert_eq!(rt.step(), Err(StepError::Halted));
}

#[test]
fn jmn_branches_on_sign_bit() {
    let program = vec![word(Opcode::JMN, 0x40)];
    let mut rt = Runtime::with_instructions(&program);
    rt.write_accu(0x80_0000);
    rt.step().unwrap();
    assert_eq!(rt.read_iar(), 0x40);

    let mut rt = Runtime::with_instructions(&program);
    rt.write_accu(0x7F_FFFF);
    rt.step().unwrap();
    assert_eq!(rt.read_iar(), 1);
}

#[test]
fn arithmetic_and_logic() {
    let program = vec![
        word(Opcode::LDC, 0xF0F0F),
        word(Opcode::ADD, 20),
        word(Opcode::STV, 21),
        word(Opcode::AND, 22),
        word(Opcode::OR, 23),
        word(Opcode::XOR, 24),
        word(Opcode::HALT, 0),
    ];
    let mut rt = Runtime::with_instructions(&program);
    rt.write_mem(20, 0xFF_FFFF);
    rt.write_mem(22, 0x0F_FF00);
    rt.write_mem(23, 0x30_0001);
    rt.write_mem(24, 0x00_0F00);
    rt.step().unwrap();
    assert_eq!(rt.read_accu(), 0x0F_0F0F);
    rt.step().unwrap();
    assert_eq!(rt.read_accu(), 0x0F_0F0E);
    rt.step().unwrap();
    assert_eq!(rt.read_mem(21), 0x0F_0F0E);
    rt.step().unwrap();
    assert_eq!(rt.read_accu(), 0x0F_0F00);
    rt.step().unwrap();
    assert_eq!(rt.read_accu(), 0x3F_0F01);
    rt.step().unwrap();
    assert_eq!(rt.read_accu(), 0x3F_0001);
    assert_eq!(rt.run(), Ok(()));
    assert!(rt.is_halted());
}

#[test]
fn add_wraps_on_overflow() {
    let mut rt = Runtime::with_instructions(&vec![word(Opcode::ADD, 5)]);
    rt.write_accu(0xFF_FFFF);
    rt.write_mem(5, 2);
    rt.step().unwrap();
    assert_eq!(rt.read_accu(), 1);
}

#[test]
fn eql_gives_all_ones_or_zero() {
    let mut rt = Runtime::with_instructions(&vec![word(Opcode::EQL, 5), word(Opcode::EQL, 5)]);
    rt.write_accu(9);
    rt.write_mem(5, 9);
    rt.step().unwrap();
    assert_eq!(rt.read_accu(), 0xFF_FFFF);
    rt.step().unwrap();
    assert_eq!(rt.read_accu(), 0);
}

#[test]
fn not_reverses_the_register_bits() {
    let mut rt = Runtime::with_instructions(&vec![word(Opcode::NOT, 0), word(Opcode::NOT, 0)]);
    rt.write_accu(0x80_0000);
    rt.step().unwrap();
    assert_eq!(rt.read_accu(), 0x100);
    rt.write_accu(1);
    rt.step().unwrap();
    assert_eq!(rt.read_accu(), 0);
}

#[test]
fn rar_rotates_the_register_right() {
    let mut rt = Runtime::with_instructions(&vec![word(Opcode::RAR, 0)]);
    rt.write_accu(0x80_0003);
    rt.step().unwrap();
    assert_eq!(rt.read_accu(), 0x40_0001);
}

#[test]
fn indirect_load_and_store() {
    let program = vec![word(Opcode::LDIV, 10), word(Opcode::STIV, 11), word(Opcode::HALT, 0)];
    let mut rt = Runtime::with_instructions(&program);
    rt.write_mem(10, 20);
    rt.write_mem(20, 77);
    rt.write_mem(11, 30);
    assert_eq!(rt.run(), Ok(()));
    assert_eq!(rt.read_accu(), 77);
    assert_eq!(rt.read_mem(30), 77);
}

#[test]
fn jmp_and_ldv() {
    let program = vec![word(Opcode::JMP, 3), word(Opcode::HALT, 0), 0, word(Opcode::LDV, 6), word(Opcode::HALT, 0), 0, 42];
    let mut rt = Runtime::with_instructions(&program);
    assert_eq!(rt.run(), Ok(()));
    assert_eq!(rt.read_accu(), 42);
    assert_eq!(rt.read_iar(), 5);
}

#[test]
fn decode_failure_advances_only_the_address() {
    let mut rt = Runtime::with_instructions(&vec![0xC0_0001]);
    rt.write_accu(5);
    assert_eq!(
        rt.step(),
        Err(StepError::Decode(DecodeError { word: 0xC0_0001, opcode: 0x0C }))
    );
    assert_eq!(rt.read_iar(), 1);
    assert_eq!(rt.read_ir(), 0xC0_0001);
    assert_eq!(rt.read_accu(), 5);
    assert!(!rt.is_halted());
}

#[test]
fn run_stops_at_first_error() {
    let mut rt = Runtime::with_instructions(&vec![word(Opcode::LDC, 1), 0xF5_0000, word(Opcode::HALT, 0)]);
    assert_eq!(rt.run(), Err(StepError::Decode(DecodeError { word: 0xF5_0000, opcode: 0xF5 })));
    assert_eq!(rt.read_accu(), 1);
    assert_eq!(rt.read_iar(), 2);
}

#[test]
fn run_for_counts_steps() {
    let mut rt = Runtime::with_instructions(&vec![word(Opcode::JMP, 0)]);
    assert_eq!(rt.run_for(10), Ok(false));
    assert_eq!(rt.read_iar(), 0);
    let mut rt = Runtime::with_instructions(&vec![word(Opcode::HALT, 0)]);
    assert_eq!(rt.run_for(10), Ok(true));
    assert_eq!(rt.run_for(10), Ok(true));
}

#[test]
fn next_instruction_and_address() {
    let mut rt = Runtime::with_instructions(&vec![word(Opcode::LDC, 4)]);
    assert_eq!(rt.next_instruction(), Ok(Instruction { opcode: Opcode::LDC, arg: 4 }));
    assert_eq!(rt.next_instruction_addr(), 1);
    rt.write_iar(0xFFFFF);
    assert_eq!(rt.next_instruction_addr(), 0);
    rt.stop();
    assert!(rt.is_halted());
}
