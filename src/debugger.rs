//! The decisions of the interactive debugger: its commands, its breakpoints
//! and when it stops to ask. Reading input and printing stay with the caller.

use vstd::prelude::*;
use vstd::string::*;
use crate::instructions::{decode_word, instruction_text, Instruction};
use crate::runtime::{load, Runtime};
use crate::text::{chars_of, hex_digits, lemma_pieces_nonempty, pieces, seqs, split_on};
use crate::types::MimaAddress;

verus! {

/// A command line of the debugger, split at single spaces.
#[derive(Clone, Debug, PartialEq, Eq)]
pub enum DebugCommand {
    /// `state`: print the machine's state.
    State,
    /// `step`: run the next instruction, then stop again.
    Step,
    /// `continue`: run until the next breakpoint.
    Continue,
    /// `break <addr>`: toggle a breakpoint.
    Break(Vec<char>),
    /// `read <addr>`: print a memory word.
    Read(Vec<char>),
    /// `write <addr> <val>`: store a memory word.
    Write(Vec<char>, Vec<char>),
    /// `dump <file>`: dump the memory to a file.
    Dump(Vec<char>),
    /// `halt`: stop the machine.
    Halt,
    /// `?`: print the help text.
    Help,
    /// Anything else.
    Unknown,
}

/// The command that the parts `p` of a command line spell.
pub open spec fn command_of(p: Seq<Seq<char>>) -> DebugCommand {
    if p.len() == 1 && p[0] == seq!['s', 't', 'a', 't', 'e'] {
        DebugCommand::State
    } else if p.len() == 1 && p[0] == seq!['s', 't', 'e', 'p'] {
        DebugCommand::Step
    } else if p.len() == 1 && p[0] == seq!['c', 'o', 'n', 't', 'i', 'n', 'u', 'e'] {
        DebugCommand::Continue
    } else if p.len() == 1 && p[0] == seq!['h', 'a', 'l', 't'] {
        DebugCommand::Halt
    } else if p.len() == 1 && p[0] == seq!['?'] {
        DebugCommand::Help
    } else {
        DebugCommand::Unknown
    }
}

/// Whether `a` spells the word `w`.
fn is_word(a: &Vec<char>, w: &str) -> (r: bool)
    ensures
        r == (a@ == w@),
{
    let b = chars_of(w);
    if a.len() != b.len() {
        return false;
    }
    let mut i: usize = 0;
    while i < a.len()
        invariant
            a.len() == b.len(),
            i <= a.len(),
            b@ == w@,
            forall|j: int| 0 <= j < i ==> a@[j] == b@[j],
        decreases a.len() - i,
    {
        if a[i] != b[i] {
            return false;
        }
        i = i + 1;
    }
    assert(a@ =~= b@);
    true
}

/// Reads a command line: its parts between single spaces name the command
/// and its arguments.
pub fn parse_command(input: &str) -> (r: DebugCommand)
    ensures
        ({
            let p = pieces(input@, ' ');
            &&& p.len() == 2 && p[0] == seq!['b', 'r', 'e', 'a', 'k'] ==> (r matches DebugCommand::Break(
                a,
            ) && a@ == p[1])
            &&& p.len() == 2 && p[0] == seq!['r', 'e', 'a', 'd'] ==> (r matches DebugCommand::Read(a)
                && a@ == p[1])
            &&& p.len() == 3 && p[0] == seq!['w', 'r', 'i', 't', 'e'] ==> (r matches DebugCommand::Write(
                a,
                v,
            ) && a@ == p[1] && v@ == p[2])
            &&& p.len() == 2 && p[0] == seq!['d', 'u', 'm', 'p'] ==> (r matches DebugCommand::Dump(a)
                && a@ == p[1])
            &&& !(p.len() == 2 && (p[0] == seq!['b', 'r', 'e', 'a', 'k'] || p[0] == seq![
                'r',
                'e',
                'a',
                'd',
            ] || p[0] == seq!['d', 'u', 'm', 'p'])) && !(p.len() == 3 && p[0] == seq![
                'w',
                'r',
                'i',
                't',
                'e',
            ]) ==> r == command_of(p)
        }),
{
    let cs = chars_of(input);
    let parts = split_on(&cs, ' ');
    let ghost p = seqs(parts@);
    assert(p == pieces(input@, ' '));
    proof {
        reveal_strlit("state");
        reveal_strlit("step");
        reveal_strlit("continue");
        reveal_strlit("halt");
        reveal_strlit("?");
        reveal_strlit("break");
        reveal_strlit("read");
        reveal_strlit("write");
        reveal_strlit("dump");
        assert("state"@ =~= seq!['s', 't', 'a', 't', 'e']);
        assert("step"@ =~= seq!['s', 't', 'e', 'p']);
        assert("continue"@ =~= seq!['c', 'o', 'n', 't', 'i', 'n', 'u', 'e']);
        assert("halt"@ =~= seq!['h', 'a', 'l', 't']);
        assert("?"@ =~= seq!['?']);
        assert("break"@ =~= seq!['b', 'r', 'e', 'a', 'k']);
        assert("read"@ =~= seq!['r', 'e', 'a', 'd']);
        assert("write"@ =~= seq!['w', 'r', 'i', 't', 'e']);
        assert("dump"@ =~= seq!['d', 'u', 'm', 'p']);
        lemma_pieces_nonempty(input@, ' ');
    }
    let n = parts.len();
    assert(n >= 1);
    assert(p[0] == parts@[0]@);
    let head = &parts[0];
    if n == 2 {
        assert(p[1] == parts@[1]@);
        if is_word(head, "break") {
            assert(head@ =~= seq!['b', 'r', 'e', 'a', 'k']);
            return DebugCommand::Break(parts[1].clone());
        }
        if is_word(head, "read") {
            assert(head@ =~= seq!['r', 'e', 'a', 'd']);
            return DebugCommand::Read(parts[1].clone());
        }
        if is_word(head, "dump") {
            assert(head@ =~= seq!['d', 'u', 'm', 'p']);
            return DebugCommand::Dump(parts[1].clone());
        }
        assert(head@ != seq!['b', 'r', 'e', 'a', 'k']);
        assert(head@ != seq!['r', 'e', 'a', 'd']);
        assert(head@ != seq!['d', 'u', 'm', 'p']);
        return DebugCommand::Unknown;
    }
    if n == 3 {
        assert(p[1] == parts@[1]@);
        assert(p[2] == parts@[2]@);
        if is_word(head, "write") {
            assert(head@ =~= seq!['w', 'r', 'i', 't', 'e']);
            return DebugCommand::Write(parts[1].clone(), parts[2].clone());
        }
        assert(head@ != seq!['w', 'r', 'i', 't', 'e']);
        return DebugCommand::Unknown;
    }
    if n != 1 {
        return DebugCommand::Unknown;
    }
    if is_word(head, "state") {
        assert(head@ =~= seq!['s', 't', 'a', 't', 'e']);
        DebugCommand::State
    } else if is_word(head, "step") {
        assert(head@ =~= seq!['s', 't', 'e', 'p']);
        DebugCommand::Step
    } else if is_word(head, "continue") {
        assert(head@ =~= seq!['c', 'o', 'n', 't', 'i', 'n', 'u', 'e']);
        DebugCommand::Continue
    } else if is_word(head, "halt") {
        assert(head@ =~= seq!['h', 'a', 'l', 't']);
        DebugCommand::Halt
    } else if is_word(head, "?") {
        assert(head@ =~= seq!['?']);
        DebugCommand::Help
    } else {
        assert(head@ != seq!['s', 't', 'a', 't', 'e']);
        assert(head@ != seq!['s', 't', 'e', 'p']);
        assert(head@ != seq!['c', 'o', 'n', 't', 'i', 'n', 'u', 'e']);
        assert(head@ != seq!['h', 'a', 'l', 't']);
        assert(head@ != seq!['?']);
        DebugCommand::Unknown
    }
}

/// `s` preceded by zeros up to a width of `w` characters.
pub open spec fn zero_pad(s: Seq<char>, w: nat) -> Seq<char> {
    if s.len() < w {
        Seq::new((w - s.len()) as nat, |i: int| '0') + s
    } else {
        s
    }
}

/// The debugger's line for address `a` of machine state `m`: the address
/// in hexadecimal with at least five digits, and the instruction there, or
/// `???` where the word is no instruction.
pub open spec fn instruction_line(m: crate::runtime::MachineState, a: u32) -> Seq<char> {
    seq!['0', 'x'] + zero_pad(hex_digits(a as nat), 5) + seq![':', ' '] + match decode_word(
        load(m, a as int),
    ) {
        Some(i) => instruction_text(i),
        None => seq!['?', '?', '?'],
    }
}

/// The debugger's line for the instruction at `instr_addr`.
pub fn stringify_instr(runtime: &Runtime, instr_addr: MimaAddress) -> (r: String)
    ensures
        r@ == instruction_line(runtime@, instr_addr),
{
    let mut digits = String::new();
    crate::text::push_hex(&mut digits, instr_addr);
    let n = chars_of(digits.as_str()).len();
    let mut out = String::new();
    proof {
        reveal_strlit("0x");
        reveal_strlit("0");
        reveal_strlit(": ");
        reveal_strlit("???");
    }
    out.append("0x");
    let mut k: usize = n;
    while k < 5
        invariant
            n == digits@.len(),
            n <= k <= 5 || (k == n && n >= 5),
            out@ == seq!['0', 'x'] + Seq::new((k - n) as nat, |i: int| '0'),
        decreases 5 - k,
    {
        proof {
            reveal_strlit("0");
        }
        out.append("0");
        k = k + 1;
        assert(out@ =~= seq!['0', 'x'] + Seq::new((k - n) as nat, |i: int| '0'));
    }
    out.append(digits.as_str());
    out.append(": ");
    assert(out@ =~= seq!['0', 'x'] + zero_pad(hex_digits(instr_addr as nat), 5) + seq![':', ' ']);
    match Instruction::decode(runtime.read_mem(instr_addr)) {
        Ok(i) => {
            let text = i.to_string();
            out.append(text.as_str());
        },
        Err(_) => {
            out.append("???");
        },
    }
    assert(out@ =~= instruction_line(runtime@, instr_addr));
    out
}

proof fn lemma_push_contains(s: Seq<u32>, x: u32)
    ensures
        forall|a: u32| #[trigger] s.push(x).contains(a) <==> (s.contains(a) || a == x),
{
    assert forall|a: u32| #[trigger] s.push(x).contains(a) <==> (s.contains(a) || a == x) by {
        let t = s.push(x);
        if t.contains(a) {
            let j = choose|j: int| 0 <= j < t.len() && #[trigger] t[j] == a;
            if j < s.len() {
                assert(s[j] == a);
            }
        }
        if s.contains(a) {
            let j = choose|j: int| 0 <= j < s.len() && #[trigger] s[j] == a;
            assert(t[j] == a);
        }
        if a == x {
            assert(t[s.len() as int] == a);
        }
    }
}

/// What the debugger keeps between commands: its breakpoints, whether it
/// stops before the next instruction, and whether it is waiting for
/// commands now.
pub struct DebugSession {
    pub breakpoints: Vec<MimaAddress>,
    pub break_next: bool,
    pub break_state: bool,
}

impl DebugSession {
    /// A session that stops before the first instruction.
    pub fn new() -> (r: DebugSession)
        ensures
            r.breakpoints@ == Seq::<u32>::empty(),
            r.break_next,
            !r.break_state,
    {
        DebugSession { breakpoints: Vec::new(), break_next: true, break_state: false }
    }

    /// Whether the debugger stops before the instruction at `iar`.
    pub fn should_break(&self, iar: MimaAddress) -> (r: bool)
        ensures
            r == (self.break_next || self.breakpoints@.contains(iar)),
    {
        if self.break_next {
            return true;
        }
        let mut i: usize = 0;
        while i < self.breakpoints.len()
            invariant
                i <= self.breakpoints.len(),
                forall|j: int| 0 <= j < i ==> self.breakpoints@[j] != iar,
            decreases self.breakpoints.len() - i,
        {
            if self.breakpoints[i] == iar {
                return true;
            }
            i = i + 1;
        }
        false
    }

    /// Starts waiting for commands.
    pub fn enter_break(&mut self)
        ensures
            final(self).breakpoints@ == old(self).breakpoints@,
            !final(self).break_next,
            final(self).break_state,
    {
        self.break_next = false;
        self.break_state = true;
    }

    /// Runs one instruction, then waits for commands again.
    pub fn step(&mut self)
        ensures
            final(self).breakpoints@ == old(self).breakpoints@,
            final(self).break_next,
            !final(self).break_state,
    {
        self.break_state = false;
        self.break_next = true;
    }

    /// Runs until the next breakpoint.
    pub fn continue_run(&mut self)
        ensures
            final(self).breakpoints@ == old(self).breakpoints@,
            final(self).break_next == old(self).break_next,
            !final(self).break_state,
    {
        self.break_state = false;
    }

    /// Sets a breakpoint at `addr`, or removes the one there. Returns
    /// whether one is set now.
    pub fn toggle_breakpoint(&mut self, addr: MimaAddress) -> (set: bool)
        ensures
            set == !old(self).breakpoints@.contains(addr),
            forall|a: u32|
                #![trigger final(self).breakpoints@.contains(a)]
                a != addr ==> (final(self).breakpoints@.contains(a) <==> old(
                    self,
                ).breakpoints@.contains(a)),
            final(self).breakpoints@.contains(addr) == set,
            final(self).break_next == old(self).break_next,
            final(self).break_state == old(self).break_state,
    {
        let ghost old_bp = self.breakpoints@;
        let mut kept: Vec<MimaAddress> = Vec::new();
        let mut found = false;
        let mut i: usize = 0;
        while i < self.breakpoints.len()
            invariant
                i <= self.breakpoints.len(),
                self.breakpoints@ == old_bp,
                found == old_bp.take(i as int).contains(addr),
                !kept@.contains(addr),
                forall|a: u32|
                    #![trigger kept@.contains(a)]
                    a != addr ==> (kept@.contains(a) <==> old_bp.take(i as int).contains(a)),
            decreases self.breakpoints.len() - i,
        {
            let b = self.breakpoints[i];
            assert(old_bp.take(i + 1) =~= old_bp.take(i as int).push(b));
            proof {
                lemma_push_contains(old_bp.take(i as int), b);
            }
            if b == addr {
                found = true;
            } else {
                let ghost before = kept@;
                kept.push(b);
                proof {
                    lemma_push_contains(before, b);
                }
            }
            i = i + 1;
        }
        assert(old_bp.take(i as int) =~= old_bp);
        if found {
            self.breakpoints = kept;
            false
        } else {
            self.breakpoints.push(addr);
            proof {
                lemma_push_contains(old_bp, addr);
            }
            true
        }
    }

    /// Halts the machine and stops waiting for commands.
    pub fn stop(&mut self, runtime: &mut Runtime)
        ensures
            final(runtime)@ == (crate::runtime::MachineState { halt: true, ..old(runtime)@ }),
            final(self).breakpoints@ == old(self).breakpoints@,
            final(self).break_next == old(self).break_next,
            !final(self).break_state,
    {
        runtime.stop();
        self.break_state = false;
    }
}

} // verus!
