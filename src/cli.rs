//! The command-line options of the machine's tool, as plain data, and the
//! choices that follow from them.

use vstd::prelude::*;
use crate::types::{wrap_address, MimaAddress};

verus! {

/// Options of the `asm` subcommand: assemble, or disassemble, a file.
pub struct AsmOpts {
    /// Disassemble the input file instead of assembling it.
    pub disassemble: bool,
    /// Do not relocate addresses used in the assembly.
    pub absolute: bool,
    /// Where the result goes; standard output when absent (disassembly only).
    pub output: Option<String>,
    /// The file to assemble or disassemble.
    pub file: String,
}

/// Options of the `run` subcommand: run, or debug, a binary.
pub struct RunOpts {
    /// Run under the interactive debugger.
    pub debug: bool,
    /// Addresses whose values are printed when the run ends.
    pub abs_output: Option<Vec<MimaAddress>>,
    /// Addresses, relative to the word after the program, whose values are
    /// printed after the absolute ones.
    pub rel_output: Option<Vec<MimaAddress>>,
    /// Where the memory is dumped when the run ends.
    pub memdump: Option<String>,
    /// The binary to run.
    pub file: String,
}

pub enum SubCommand {
    Asm(AsmOpts),
    Run(RunOpts),
}

pub struct MainOpts {
    pub cmd: SubCommand,
}

impl MainOpts {
    /// The input file of the chosen subcommand.
    pub fn file(&self) -> (r: &String)
        ensures
            r@ == (match &self.cmd {
                SubCommand::Asm(o) => o.file@,
                SubCommand::Run(o) => o.file@,
            }),
    {
        match &self.cmd {
            SubCommand::Asm(opts) => &opts.file,
            SubCommand::Run(opts) => &opts.file,
        }
    }
}

/// The addresses whose values a run prints: the absolute ones, then the
/// relative ones moved past a program of `program_len` words and one spare
/// word, wrapped into the address space.
pub open spec fn printed_addresses(abs: Seq<u32>, rel: Seq<u32>, program_len: nat) -> Seq<u32> {
    abs + rel.map_values(|a: u32| wrap_address(a + program_len + 1) as u32)
}

/// The addresses whose values a run with `opts` prints after a program of
/// `program_len` words.
pub fn output_addresses(opts: &RunOpts, program_len: usize) -> (r: Vec<MimaAddress>)
    ensures
        r@ == printed_addresses(
            match &opts.abs_output {
                Some(v) => v@,
                None => Seq::empty(),
            },
            match &opts.rel_output {
                Some(v) => v@,
                None => Seq::empty(),
            },
            program_len as nat,
        ),
{
    let mut out: Vec<MimaAddress> = match &opts.abs_output {
        Some(v) => v.clone(),
        None => Vec::new(),
    };
    let ghost abs = out@;
    let empty: Vec<MimaAddress> = Vec::new();
    let rel: &Vec<MimaAddress> = match &opts.rel_output {
        Some(v) => v,
        None => &empty,
    };
    let shift = (program_len % 0x10_0000) as u64 + 1;
    let mut i: usize = 0;
    while i < rel.len()
        invariant
            i <= rel.len(),
            shift == program_len as int % 0x10_0000 + 1,
            out@ =~= abs + rel@.take(i as int).map_values(
                |a: u32| wrap_address(a + program_len + 1) as u32,
            ),
        decreases rel.len() - i,
    {
        let a = rel[i];
        proof {
            vstd::arithmetic::div_mod::lemma_add_mod_noop(
                a as int + 1,
                program_len as int,
                0x10_0000,
            );
            vstd::arithmetic::div_mod::lemma_add_mod_noop(a as int, 1, 0x10_0000);
            vstd::arithmetic::div_mod::lemma_add_mod_noop(
                a as int % 0x10_0000 + 1,
                program_len as int % 0x10_0000,
                0x10_0000,
            );
        }
        out.push(((a as u64 + shift) % 0x10_0000) as u32);
        assert(rel@.take(i + 1) =~= rel@.take(i as int).push(a));
        i = i + 1;
    }
    assert(rel@.take(i as int) =~= rel@);
    out
}

} // verus!
