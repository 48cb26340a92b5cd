//! A minimal single-accumulator teaching machine: the value and address
//! domain, the instruction codec, the execution engine, the assembler and
//! disassembler, the binary image format, and the decisions of the
//! command-line tool and its interactive debugger.

pub mod text;
pub mod types;
pub mod instructions;
pub mod runtime;
pub mod binary;
pub mod assembly;
pub mod disassembly;
pub mod cli;
pub mod debugger;
