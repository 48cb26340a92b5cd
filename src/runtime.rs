//! The execution engine: an accumulator machine with a fetch-decode-execute
//! cycle over a growable memory.

use vstd::prelude::*;
use vstd::std_specs::iter::IteratorSpec;
use crate::instructions::{decode_word, DecodeError, Instruction, Opcode};
use crate::types::{
    coerce_mima_address, coerce_mima_value, is_negative, sign_bit, wrap_address, wrap_value,
    MimaAddress, MimaValue, MAX_VALUE,
};

verus! {

/// The registers, memory and halt flag of a machine, as mathematical values.
pub struct MachineState {
    pub accu: u32,
    pub iar: u32,
    pub ir: u32,
    pub memory: Seq<u32>,
    pub halt: bool,
}

impl MachineState {
    /// Every register and memory cell holds a wrapped number.
    pub open spec fn wf(self) -> bool {
        &&& self.accu < 0x100_0000
        &&& self.iar < 0x10_0000
        &&& self.ir < 0x100_0000
        &&& forall|a: int| 0 <= a < self.memory.len() ==> #[trigger] self.memory[a] < 0x100_0000
    }
}

/// The word at address `a`: zero beyond the extent of `m`.
pub open spec fn mem_at(m: Seq<u32>, a: int) -> u32 {
    if 0 <= a < m.len() {
        m[a]
    } else {
        0
    }
}

/// `m` with `v` stored at address `a`, grown with zeros up to `a` if needed.
pub open spec fn mem_store(m: Seq<u32>, a: int, v: u32) -> Seq<u32> {
    if a < m.len() {
        m.update(a, v)
    } else {
        m + Seq::new((a - m.len()) as nat, |i: int| 0u32) + seq![v]
    }
}

/// The bits of `x`, `k` of them, moved from the low end onto `acc`.
pub open spec fn reverse_low(x: nat, k: nat, acc: nat) -> nat
    decreases k,
{
    if k == 0 {
        acc
    } else {
        reverse_low(x / 2, (k - 1) as nat, acc * 2 + x % 2)
    }
}

/// The 32 bits of `x` in reverse order.
pub open spec fn bit_reversal(x: u32) -> nat {
    reverse_low(x as nat, 32, 0)
}

/// `x` rotated right by one over 32 bits.
pub open spec fn rotate_right_one(x: u32) -> nat {
    x as nat / 2 + (x as nat % 2) * 0x8000_0000
}

/// Why a step did not run: the machine is halted, the word at the
/// instruction address is no instruction, or a run used up its step budget.
#[derive(Clone, Copy, Debug, PartialEq, Eq, Structural)]
pub enum StepError {
    Halted,
    Decode(DecodeError),
    OutOfSteps,
}

/// The word at the instruction address.
pub open spec fn fetch_word(s: MachineState) -> u32 {
    load(s, s.iar as int)
}

/// `s` after a fetch: the instruction address moved on by one and the
/// fetched word in the instruction register.
pub open spec fn advance(s: MachineState) -> MachineState {
    MachineState {
        iar: wrap_address(s.iar + 1) as u32,
        ir: wrap_value(fetch_word(s) as int) as u32,
        ..s
    }
}

/// `s` with the accumulator set to `v`, wrapped.
pub open spec fn with_accu(s: MachineState, v: int) -> MachineState {
    MachineState { accu: wrap_value(v) as u32, ..s }
}

/// `s` with `v` stored at address `a`, both wrapped.
pub open spec fn with_store(s: MachineState, a: int, v: int) -> MachineState {
    MachineState { memory: mem_store(s.memory, wrap_address(a), wrap_value(v) as u32), ..s }
}

/// The word at address `a`, wrapped into the address space, of `s`.
pub open spec fn load(s: MachineState, a: int) -> u32 {
    mem_at(s.memory, wrap_address(a))
}

/// The effect of instruction `i` on `s`.
pub open spec fn execute(s: MachineState, i: Instruction) -> MachineState {
    let a = i.arg as int;
    match i.opcode {
        Opcode::LDC => with_accu(s, a),
        Opcode::LDV => with_accu(s, load(s, a) as int),
        Opcode::STV => with_store(s, a, s.accu as int),
        Opcode::ADD => with_accu(s, s.accu + load(s, a)),
        Opcode::AND => with_accu(s, (s.accu & load(s, a)) as int),
        Opcode::OR => with_accu(s, (s.accu | load(s, a)) as int),
        Opcode::XOR => with_accu(s, (s.accu ^ load(s, a)) as int),
        Opcode::EQL => with_accu(s, if s.accu == load(s, a) { 0xFF_FFFF } else { 0 }),
        Opcode::JMP => MachineState { iar: wrap_address(a) as u32, ..s },
        Opcode::JMN => if sign_bit(s.accu) == 1 {
            MachineState { iar: wrap_address(a) as u32, ..s }
        } else {
            s
        },
        Opcode::LDIV => with_accu(s, load(s, load(s, a) as int) as int),
        Opcode::STIV => with_store(s, load(s, a) as int, s.accu as int),
        Opcode::HALT => MachineState { halt: true, ..s },
        Opcode::NOT => with_accu(s, bit_reversal(s.accu) as int),
        Opcode::RAR => with_accu(s, rotate_right_one(s.accu) as int),
    }
}

/// One step from `s`: the state after it, and whether it ran.
pub open spec fn step_spec(s: MachineState) -> (MachineState, Result<(), StepError>) {
    if s.halt {
        (s, Err(StepError::Halted))
    } else {
        match decode_word(fetch_word(s)) {
            Some(i) => (execute(advance(s), i), Ok(())),
            None => (
                advance(s),
                Err(
                    StepError::Decode(
                        DecodeError {
                            word: fetch_word(s),
                            opcode: crate::instructions::spec_opcode_bits(fetch_word(s)),
                        },
                    ),
                ),
            ),
        }
    }
}

/// Up to `fuel` steps from `s`, stopping at a halt or at the first failed
/// step: the state then, and `Ok(true)` if the machine halted, `Ok(false)`
/// if the steps ran out first.
pub open spec fn run_spec(s: MachineState, fuel: nat) -> (MachineState, Result<bool, StepError>)
    decreases fuel,
{
    if s.halt {
        (s, Ok(true))
    } else if fuel == 0 {
        (s, Ok(false))
    } else {
        let (t, r) = step_spec(s);
        match r {
            Ok(_) => run_spec(t, (fuel - 1) as nat),
            Err(e) => (t, Err(e)),
        }
    }
}

/// A machine: accumulator, instruction address register, instruction
/// register, memory and halt flag.
pub struct Runtime {
    accu: MimaValue,
    iar: MimaAddress,
    ir: MimaValue,
    memory: Vec<MimaValue>,
    halt: bool,
}

impl View for Runtime {
    type V = MachineState;

    closed spec fn view(&self) -> MachineState {
        MachineState {
            accu: self.accu,
            iar: self.iar,
            ir: self.ir,
            memory: self.memory@,
            halt: self.halt,
        }
    }
}

/// `2^n`.
pub open spec fn two_to(n: nat) -> nat
    decreases n,
{
    if n == 0 {
        1
    } else {
        2 * two_to((n - 1) as nat)
    }
}

/// The 32 bits of `x` in reverse order.
fn reverse_bits(x: u32) -> (r: u32)
    ensures
        r == bit_reversal(x),
{
    let mut acc: u64 = 0;
    let mut rest: u32 = x;
    let mut k: u32 = 32;
    assert(two_to(32) == 0x1_0000_0000) by {
        reveal_with_fuel(two_to, 33);
    }
    while k > 0
        invariant
            k <= 32,
            reverse_low(rest as nat, k as nat, acc as nat) == bit_reversal(x),
            acc < two_to((32 - k) as nat),
            two_to(32) == 0x1_0000_0000,
        decreases k,
    {
        assert(two_to((32 - k + 1) as nat) == 2 * two_to((32 - k) as nat));
        proof {
            lemma_two_to_monotone((32 - k + 1) as nat, 32);
        }
        acc = acc * 2 + (rest % 2) as u64;
        rest = rest / 2;
        k = k - 1;
    }
    acc as u32
}

proof fn lemma_two_to_monotone(a: nat, b: nat)
    ensures
        a <= b ==> two_to(a) <= two_to(b),
    decreases b,
{
    if a < b {
        lemma_two_to_monotone(a, (b - 1) as nat);
    }
}

/// `x` rotated right by one over 32 bits.
fn rotate_right(x: u32) -> (r: u32)
    ensures
        r == rotate_right_one(x),
{
    assert((x >> 1u32) | (x << 31u32) == x / 2 + (x % 2) * 0x8000_0000) by (bit_vector);
    (x >> 1u32) | (x << 31u32)
}

impl Runtime {
    /// A machine whose memory starts as `initial_memory`, each word wrapped,
    /// with all registers zero and not halted.
    pub fn with_memory(initial_memory: Vec<MimaValue>) -> (r: Runtime)
        ensures
            r@ == (MachineState {
                accu: 0,
                iar: 0,
                ir: 0,
                memory: initial_memory@.map_values(|v: u32| wrap_value(v as int) as u32),
                halt: false,
            }),
            r@.wf(),
    {
        let mut memory = initial_memory;
        let ghost orig = memory@;
        let mut i: usize = 0;
        while i < memory.len()
            invariant
                i <= memory.len(),
                memory.len() == orig.len(),
                forall|j: int| 0 <= j < i ==> #[trigger] memory@[j] == wrap_value(orig[j] as int) as u32,
                forall|j: int| i <= j < memory.len() ==> #[trigger] memory@[j] == orig[j],
            decreases memory.len() - i,
        {
            let v = coerce_mima_value(memory[i]);
            memory.set(i, v);
            i = i + 1;
        }
        let r = Runtime { accu: 0, iar: 0, ir: 0, memory, halt: false };
        assert(r@.memory =~= orig.map_values(|v: u32| wrap_value(v as int) as u32));
        r
    }

    /// A machine whose memory starts as a copy of `instructions`.
    pub fn with_instructions(instructions: &Vec<MimaValue>) -> (r: Runtime)
        ensures
            r@ == (MachineState {
                accu: 0,
                iar: 0,
                ir: 0,
                memory: instructions@.map_values(|v: u32| wrap_value(v as int) as u32),
                halt: false,
            }),
            r@.wf(),
    {
        let memory = instructions.clone();
        assert(memory@ =~= instructions@);
        Runtime::with_memory(memory)
    }

    /// A machine with empty memory.
    pub fn new() -> (r: Runtime)
        ensures
            r@ == (MachineState { accu: 0, iar: 0, ir: 0, memory: Seq::empty(), halt: false }),
            r@.wf(),
    {
        let r = Runtime::with_memory(Vec::new());
        assert(r@.memory =~= Seq::<u32>::empty());
        r
    }

    pub fn read_accu(&self) -> (r: MimaValue)
        ensures
            r == self@.accu,
    {
        self.accu
    }

    /// Sets the accumulator to `val`, wrapped.
    pub fn write_accu(&mut self, val: MimaValue)
        ensures
            final(self)@ == with_accu(old(self)@, val as int),
    {
        self.accu = coerce_mima_value(val);
    }

    pub fn read_ir(&self) -> (r: MimaValue)
        ensures
            r == self@.ir,
    {
        self.ir
    }

    /// Sets the instruction register to `instr`, wrapped.
    pub fn write_ir(&mut self, instr: MimaValue)
        ensures
            final(self)@ == (MachineState { ir: wrap_value(instr as int) as u32, ..old(self)@ }),
    {
        self.ir = coerce_mima_value(instr);
    }

    pub fn read_iar(&self) -> (r: MimaAddress)
        ensures
            r == self@.iar,
    {
        self.iar
    }

    /// Sets the instruction address register to `addr`, wrapped.
    pub fn write_iar(&mut self, addr: MimaAddress)
        ensures
            final(self)@ == (MachineState { iar: wrap_address(addr as int) as u32, ..old(self)@ }),
    {
        self.iar = coerce_mima_address(addr);
    }

    /// The word at `addr`, wrapped into the address space; zero where
    /// nothing was ever stored.
    pub fn read_mem(&self, addr: MimaAddress) -> (r: MimaValue)
        ensures
            r == load(self@, addr as int),
    {
        let coerced = coerce_mima_address(addr) as usize;
        if coerced < self.memory.len() {
            self.memory[coerced]
        } else {
            0
        }
    }

    /// Stores `val`, wrapped, at `addr`, wrapped; memory grows with zeros up
    /// to that address if it is beyond the extent.
    pub fn write_mem(&mut self, addr: MimaAddress, val: MimaValue)
        ensures
            final(self)@ == with_store(old(self)@, addr as int, val as int),
    {
        let coerced = coerce_mima_address(addr) as usize;
        let v = coerce_mima_value(val);
        let ghost m0 = self.memory@;
        if coerced >= self.memory.len() {
            while self.memory.len() <= coerced
                invariant
                    m0.len() <= self.memory.len() <= coerced + 1,
                    coerced < 0x10_0000,
                    self.accu == old(self).accu,
                    self.iar == old(self).iar,
                    self.ir == old(self).ir,
                    self.halt == old(self).halt,
                    self.memory@ =~= m0 + Seq::new((self.memory.len() - m0.len()) as nat, |i: int| 0u32),
                decreases coerced + 1 - self.memory.len(),
            {
                self.memory.push(0);
            }
            self.memory.set(coerced, v);
            assert(self.memory@ =~= mem_store(m0, coerced as int, v));
        } else {
            self.memory.set(coerced, v);
        }
    }

    /// An iterator over the memory, from address zero to the extent.
    pub fn mem_iter(&self) -> (r: std::slice::Iter<'_, MimaValue>)
        ensures
            r.remaining().unref() == self@.memory,
    {
        self.memory.iter()
    }

    /// Whether the machine has halted.
    pub fn is_halted(&self) -> (r: bool)
        ensures
            r == self@.halt,
    {
        self.halt
    }

    /// Halts the machine from outside.
    pub fn stop(&mut self)
        ensures
            final(self)@ == (MachineState { halt: true, ..old(self)@ }),
    {
        self.halt = true;
    }
    /// The instruction at the instruction address.
    pub fn next_instruction(&self) -> (r: Result<Instruction, DecodeError>)
        ensures
            decode_word(fetch_word(self@)) matches Some(i) ==> r == Ok::<Instruction, DecodeError>(i),
            decode_word(fetch_word(self@)) is None ==> r == Err::<Instruction, DecodeError>(
                (DecodeError {
                    word: fetch_word(self@),
                    opcode: crate::instructions::spec_opcode_bits(fetch_word(self@)),
                }),
            ),
    {
        let w = self.read_mem(self.read_iar());
        Instruction::decode(w)
    }

    /// The address after the instruction address, wrapped.
    pub fn next_instruction_addr(&self) -> (r: MimaAddress)
        ensures
            r == wrap_address(self@.iar + 1),
    {
        let a = coerce_mima_address(self.read_iar());
        coerce_mima_address(a + 1)
    }

    fn ldc(&mut self, arg: MimaAddress)
        ensures
            final(self)@ == execute(old(self)@, (Instruction { opcode: Opcode::LDC, arg })),
    {
        self.write_accu(coerce_mima_value(arg));
    }

    fn ldv(&mut self, arg: MimaAddress)
        ensures
            final(self)@ == execute(old(self)@, (Instruction { opcode: Opcode::LDV, arg })),
    {
        self.write_accu(self.read_mem(arg));
    }

    fn stv(&mut self, arg: MimaAddress)
        ensures
            final(self)@ == execute(old(self)@, (Instruction { opcode: Opcode::STV, arg })),
    {
        self.write_mem(arg, self.accu);
    }

    fn add(&mut self, arg: MimaAddress)
        ensures
            final(self)@ == execute(old(self)@, (Instruction { opcode: Opcode::ADD, arg })),
    {
        let sum: u64 = self.read_accu() as u64 + self.read_mem(arg) as u64;
        let result = (sum % 0x100_0000) as u32;
        self.write_accu(result);
    }

    fn and(&mut self, arg: MimaAddress)
        ensures
            final(self)@ == execute(old(self)@, (Instruction { opcode: Opcode::AND, arg })),
    {
        let result = self.read_accu() & self.read_mem(arg);
        self.write_accu(result);
    }

    fn or(&mut self, arg: MimaAddress)
        ensures
            final(self)@ == execute(old(self)@, (Instruction { opcode: Opcode::OR, arg })),
    {
        let result = self.read_accu() | self.read_mem(arg);
        self.write_accu(result);
    }

    fn xor(&mut self, arg: MimaAddress)
        ensures
            final(self)@ == execute(old(self)@, (Instruction { opcode: Opcode::XOR, arg })),
    {
        let result = self.read_accu() ^ self.read_mem(arg);
        self.write_accu(result);
    }

    fn eql(&mut self, arg: MimaAddress)
        ensures
            final(self)@ == execute(old(self)@, (Instruction { opcode: Opcode::EQL, arg })),
    {
        let result = self.read_accu() == self.read_mem(arg);
        self.write_accu(
            if result {
                MAX_VALUE
            } else {
                0
            },
        );
    }

    fn jmp(&mut self, arg: MimaAddress)
        ensures
            final(self)@ == execute(old(self)@, (Instruction { opcode: Opcode::JMP, arg })),
    {
        self.write_iar(arg)
    }

    fn jmn(&mut self, arg: MimaAddress)
        ensures
            final(self)@ == execute(old(self)@, (Instruction { opcode: Opcode::JMN, arg })),
    {
        if is_negative(self.read_accu()) {
            self.jmp(arg);
        }
    }

    fn ldiv(&mut self, arg: MimaAddress)
        ensures
            final(self)@ == execute(old(self)@, (Instruction { opcode: Opcode::LDIV, arg })),
    {
        self.ldv(self.read_mem(arg));
    }

    fn stiv(&mut self, arg: MimaAddress)
        ensures
            final(self)@ == execute(old(self)@, (Instruction { opcode: Opcode::STIV, arg })),
    {
        self.stv(self.read_mem(arg));
    }

    fn halt(&mut self)
        ensures
            final(self)@ == execute(old(self)@, (Instruction { opcode: Opcode::HALT, arg: 0 })),
    {
        self.halt = true;
    }

    fn not(&mut self)
        ensures
            final(self)@ == execute(old(self)@, (Instruction { opcode: Opcode::NOT, arg: 0 })),
    {
        self.write_accu(reverse_bits(self.read_accu()));
    }

    fn rar(&mut self)
        ensures
            final(self)@ == execute(old(self)@, (Instruction { opcode: Opcode::RAR, arg: 0 })),
    {
        self.write_accu(rotate_right(self.read_accu()));
    }

    /// Runs one fetch-decode-execute cycle. A halted machine refuses and is
    /// left as it is. Otherwise the fetched word goes to the instruction
    /// register and the instruction address moves on by one; a word that is
    /// no instruction then fails the step with nothing else changed, and an
    /// instruction takes effect.
    pub fn step(&mut self) -> (r: Result<(), StepError>)
        ensures
            (final(self)@, r) == step_spec(old(self)@),
    {
        if self.halt {
            return Err(StepError::Halted);
        }
        let instruction = self.next_instruction();
        let word = self.read_mem(self.read_iar());
        self.write_ir(word);
        self.write_iar(self.next_instruction_addr());
        assert(self@ == advance(old(self)@));
        match instruction {
            Err(e) => Err(StepError::Decode(e)),
            Ok(instr) => {
                let arg = instr.arg;
                match instr.opcode {
                    Opcode::LDC => self.ldc(arg),
                    Opcode::LDV => self.ldv(arg),
                    Opcode::STV => self.stv(arg),
                    Opcode::ADD => self.add(arg),
                    Opcode::AND => self.and(arg),
                    Opcode::OR => self.or(arg),
                    Opcode::XOR => self.xor(arg),
                    Opcode::EQL => self.eql(arg),
                    Opcode::JMP => self.jmp(arg),
                    Opcode::JMN => self.jmn(arg),
                    Opcode::LDIV => self.ldiv(arg),
                    Opcode::STIV => self.stiv(arg),
                    Opcode::HALT => self.halt(),
                    Opcode::NOT => self.not(),
                    Opcode::RAR => self.rar(),
                }
                Ok(())
            },
        }
    }

    /// Runs at most `max_steps` steps, stopping when the machine halts or a
    /// step fails. `Ok(true)`: the machine is halted; `Ok(false)`: the steps
    /// ran out first.
    pub fn run_for(&mut self, max_steps: u64) -> (r: Result<bool, StepError>)
        ensures
            (final(self)@, r) == run_spec(old(self)@, max_steps as nat),
    {
        let mut left: u64 = max_steps;
        while !self.halt
            invariant
                run_spec(self@, left as nat) == run_spec(old(self)@, max_steps as nat),
            decreases left,
        {
            if left == 0 {
                return Ok(false);
            }
            let r = self.step();
            match r {
                Err(e) => {
                    return Err(e);
                },
                Ok(()) => {},
            }
            left = left - 1;
        }
        Ok(true)
    }

    /// Steps until the machine halts or a step fails; the first failure ends
    /// the run and the machine stays as that step left it. A run that has
    /// not halted after 2^64 - 1 steps ends with `OutOfSteps`.
    pub fn run(&mut self) -> (r: Result<(), StepError>)
        ensures
            run_spec(old(self)@, u64::MAX as nat).0 == final(self)@,
            run_spec(old(self)@, u64::MAX as nat).1 matches Ok(true) ==> r == Ok::<(), StepError>(()),
            run_spec(old(self)@, u64::MAX as nat).1 matches Ok(false) ==> r == Err::<(), StepError>(
                StepError::OutOfSteps,
            ),
            run_spec(old(self)@, u64::MAX as nat).1 matches Err(e) ==> r == Err::<(), StepError>(e),
    {
        match self.run_for(u64::MAX) {
            Ok(true) => Ok(()),
            Ok(false) => Err(StepError::OutOfSteps),
            Err(e) => Err(e),
        }
    }
}

/// An address that was never written reads as zero.
pub proof fn lemma_unwritten_reads_zero(s: MachineState, a: int)
    requires
        wrap_address(a) >= s.memory.len(),
    ensures
        load(s, a) == 0,
{
}

/// Storing at address `n` of a memory of length at most `n` grows it to
/// `n + 1` words: the old words stay, the new ones are zero but the stored one.
pub proof fn lemma_store_grows(m: Seq<u32>, n: int, v: u32)
    requires
        m.len() <= n,
    ensures
        mem_store(m, n, v).len() == n + 1,
        forall|a: int| 0 <= a < m.len() ==> #[trigger] mem_store(m, n, v)[a] == m[a],
        forall|a: int| m.len() <= a < n ==> #[trigger] mem_store(m, n, v)[a] == 0,
        mem_store(m, n, v)[n] == v,
{
}

/// Once a `HALT` has run, every further step fails as halted and changes nothing.
pub proof fn lemma_halt_is_terminal(s: MachineState)
    requires
        !s.halt,
        decode_word(fetch_word(s)) matches Some(i) && i.opcode == Opcode::HALT,
    ensures
        step_spec(s).1 == Ok::<(), StepError>(()),
        step_spec(s).0.halt,
        step_spec(step_spec(s).0) == (step_spec(s).0, Err::<(), StepError>(StepError::Halted)),
{
}

/// `JMN` jumps to its argument exactly when the accumulator's sign bit is set,
/// and otherwise leaves the instruction address alone.
pub proof fn lemma_jmn_branches_on_sign(s: MachineState, arg: u32)
    ensures
        sign_bit(s.accu) == 1 ==> execute(s, (Instruction { opcode: Opcode::JMN, arg })).iar
            == wrap_address(arg as int),
        sign_bit(s.accu) != 1 ==> execute(s, (Instruction { opcode: Opcode::JMN, arg })) == s,
{
}

proof fn lemma_store_wf(s: MachineState, a: int, v: int)
    requires
        s.wf(),
    ensures
        with_store(s, a, v).wf(),
{
    let m = with_store(s, a, v).memory;
    let w = wrap_address(a);
    assert forall|i: int| 0 <= i < m.len() implies #[trigger] m[i] < 0x100_0000 by {
        if i < s.memory.len() && i != w {
            assert(m[i] == s.memory[i]);
        }
    }
}

/// A step keeps every register and memory word wrapped.
pub proof fn lemma_step_keeps_wf(s: MachineState)
    requires
        s.wf(),
    ensures
        step_spec(s).0.wf(),
{
    if !s.halt {
        let t = advance(s);
        assert(t.wf());
        if let Some(i) = decode_word(fetch_word(s)) {
            let a = i.arg as int;
            match i.opcode {
                Opcode::STV => lemma_store_wf(t, a, t.accu as int),
                Opcode::STIV => lemma_store_wf(t, load(t, a) as int, t.accu as int),
                _ => {},
            }
        }
    }
}

/// A run keeps every register and memory word wrapped.
pub proof fn lemma_run_keeps_wf(s: MachineState, fuel: nat)
    requires
        s.wf(),
    ensures
        run_spec(s, fuel).0.wf(),
    decreases fuel,
{
    if !s.halt && fuel > 0 {
        lemma_step_keeps_wf(s);
        let (t, r) = step_spec(s);
        if r is Ok {
            lemma_run_keeps_wf(t, (fuel - 1) as nat);
        }
    }
}

} // verus!
