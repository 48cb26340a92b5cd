use mima::binary::{read_all_mima_vals, write_all_mima_vals, MalformedBinaryError};
use mima::cli::{AsmOpts, MainOpts, RunOpts, SubCommand, output_addresses};
use mima::debugger::{parse_command, stringify_instr, DebugCommand, DebugSession};
use mima::disassembly::disassemble;
use mima::instructions::{DecodeError, Instruction, Opcode};
use mima::runtime::Runtime;

fn chars(s: &str) -> Vec<char> {
    s.chars().collect()
}

#[test]
fn four_byte_image_is_malformed() {
    assert_eq!(read_all_mima_vals(&vec![1, 2, 3, 4]), Err(MalformedBinaryError { len: 4 }));
}

#[test]
fn image_words_are_big_endian() {
    assert_eq!(read_all_mima_vals(&vec![0x12, 0x34, 0x56, 0xF0, 0, 1]), Ok(vec![0x12_3456, 0xF0_0001]));
    assert_eq!(read_all_mima_vals(&vec![]), Ok(vec![]));
}

#[test]
fn image_round_trip() {
    let words = vec![0x12_3456, 0, 0xFF_FFFF];
    let bytes = write_all_mima_vals(&words);
    assert_eq!(bytes, vec![0x12, 0x34, 0x56, 0, 0, 0, 0xFF, 0xFF, 0xFF]);
    assert_eq!(read_all_mima_vals(&bytes), Ok(words));
    assert_eq!(write_all_mima_vals(&vec![0x1AB_CDEF]), vec![0xAB, 0xCD, 0xEF]);
}

#[test]
fn disassembly_lists_instructions() {
    assert_eq!(disassemble(vec![0x10_0005, 0xF0_0000]), Ok("LDV  0x5\nHALT\n".to_string()));
    assert_eq!(disassemble(vec![]), Ok(String::new()));
    assert_eq!(
        disassemble(vec![0xF0_0000, 0xD0_0000]),
        Err(DecodeError { word: 0xD0_0000, opcode: 0x0D })
    );
}

#[test]
fn debugger_commands_parse() {
    assert_eq!(parse_command("state"), DebugCommand::State);
    assert_eq!(parse_command("step"), DebugCommand::Step);
    assert_eq!(parse_command("continue"), DebugCommand::Continue);
    assert_eq!(parse_command("halt"), DebugCommand::Halt);
    assert_eq!(parse_command("?"), DebugCommand::Help);
    assert_eq!(parse_command("break 0x10"), DebugCommand::Break(chars("0x10")));
    assert_eq!(parse_command("read 5"), DebugCommand::Read(chars("5")));
    assert_eq!(parse_command("write 5 7"), DebugCommand::Write(chars("5"), chars("7")));
    assert_eq!(parse_command("dump out.bin"), DebugCommand::Dump(chars("out.bin")));
    assert_eq!(parse_command("break  5"), DebugCommand::Unknown);
    assert_eq!(parse_command("stat"), DebugCommand::Unknown);
    assert_eq!(parse_command(""), DebugCommand::Unknown);
}

#[test]
fn breakpoints_toggle() {
    let mut s = DebugSession::new();
    assert!(s.should_break(0));
    s.enter_break();
    assert!(!s.should_break(0));
    assert!(s.toggle_breakpoint(4));
    assert!(s.should_break(4));
    assert!(!s.toggle_breakpoint(4));
    assert!(!s.should_break(4));
    s.step();
    assert!(s.break_next && !s.break_state);
    s.enter_break();
    s.continue_run();
    assert!(!s.break_state);
    let mut rt = Runtime::new();
    s.stop(&mut rt);
    assert!(rt.is_halted());
}

#[test]
fn instruction_lines_for_the_debugger() {
    let rt = Runtime::with_instructions(&vec![
        Instruction { opcode: Opcode::LDC, arg: 0x2a }.encode(),
        0xE0_0000,
    ]);
    assert_eq!(stringify_instr(&rt, 0), "0x00000: LDC  0x2a");
    assert_eq!(stringify_instr(&rt, 1), "0x00001: ???");
    assert_eq!(stringify_instr(&rt, 0x123456), "0x123456: LDC  0x0");
}

#[test]
fn options_give_file_and_addresses() {
    let run = RunOpts {
        debug: false,
        abs_output: Some(vec![1, 2]),
        rel_output: Some(vec![0, 0xFFFFF]),
        memdump: None,
        file: "prog.bin".to_string(),
    };
    assert_eq!(output_addresses(&run, 4), vec![1, 2, 5, 4]);
    let opts = MainOpts { cmd: SubCommand::Run(run) };
    assert_eq!(opts.file(), "prog.bin");
    let assemble_opts = MainOpts {
        cmd: SubCommand::Asm(AsmOpts {
            disassemble: true,
            absolute: false,
            output: None,
            file: "a.s".to_string(),
        }),
    };
    assert_eq!(assemble_opts.file(), "a.s");
}
