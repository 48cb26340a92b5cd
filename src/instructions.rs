//! The instruction set and its codec: packing (opcode, argument) pairs into
//! 24-bit words and back, and the textual mnemonic form.

use vstd::prelude::*;
use vstd::string::*;
use crate::text::{
    chars_of, eq_ignoring_case, equals_ignoring_case, same_ignoring_case, hex_digits, pad_right, push_hex,
    push_padded,
};
use crate::types::{coerce_mima_value, MimaAddress, MimaValue, MAX_ADDRESS};

verus! {

/// The operations of the machine. The first twelve take an address or
/// immediate argument; `HALT`, `NOT` and `RAR` take none.
#[derive(Clone, Copy, Debug, PartialEq, Eq, Hash, Structural)]
pub enum Opcode {
    LDC,
    LDV,
    STV,
    ADD,
    AND,
    OR,
    XOR,
    EQL,
    JMP,
    JMN,
    LDIV,
    STIV,
    HALT,
    NOT,
    RAR,
}

/// Every opcode once, in the order of their codes.
pub open spec fn all_opcodes() -> Seq<Opcode> {
    seq![
        Opcode::LDC,
        Opcode::LDV,
        Opcode::STV,
        Opcode::ADD,
        Opcode::AND,
        Opcode::OR,
        Opcode::XOR,
        Opcode::EQL,
        Opcode::JMP,
        Opcode::JMN,
        Opcode::LDIV,
        Opcode::STIV,
        Opcode::HALT,
        Opcode::NOT,
        Opcode::RAR,
    ]
}

/// The opcode whose numeric code is `c`, if any.
pub open spec fn opcode_of_code(c: u8) -> Option<Opcode> {
    if c == 0x00 {
        Some(Opcode::LDC)
    } else if c == 0x01 {
        Some(Opcode::LDV)
    } else if c == 0x02 {
        Some(Opcode::STV)
    } else if c == 0x03 {
        Some(Opcode::ADD)
    } else if c == 0x04 {
        Some(Opcode::AND)
    } else if c == 0x05 {
        Some(Opcode::OR)
    } else if c == 0x06 {
        Some(Opcode::XOR)
    } else if c == 0x07 {
        Some(Opcode::EQL)
    } else if c == 0x08 {
        Some(Opcode::JMP)
    } else if c == 0x09 {
        Some(Opcode::JMN)
    } else if c == 0x0a {
        Some(Opcode::LDIV)
    } else if c == 0x0b {
        Some(Opcode::STIV)
    } else if c == 0xf0 {
        Some(Opcode::HALT)
    } else if c == 0xf1 {
        Some(Opcode::NOT)
    } else if c == 0xf2 {
        Some(Opcode::RAR)
    } else {
        None
    }
}

impl Opcode {
    /// The numeric code of the opcode.
    pub open spec fn code(self) -> u8 {
        match self {
            Opcode::LDC => 0x00,
            Opcode::LDV => 0x01,
            Opcode::STV => 0x02,
            Opcode::ADD => 0x03,
            Opcode::AND => 0x04,
            Opcode::OR => 0x05,
            Opcode::XOR => 0x06,
            Opcode::EQL => 0x07,
            Opcode::JMP => 0x08,
            Opcode::JMN => 0x09,
            Opcode::LDIV => 0x0a,
            Opcode::STIV => 0x0b,
            Opcode::HALT => 0xf0,
            Opcode::NOT => 0xf1,
            Opcode::RAR => 0xf2,
        }
    }

    /// The opcode takes an argument: the high nibble of its code is not `0xF`.
    pub open spec fn takes_arg(self) -> bool {
        (self.code() / 16) % 16 != 15
    }

    /// The canonical (uppercase) mnemonic.
    pub open spec fn spec_mnemonic(self) -> Seq<char> {
        match self {
            Opcode::LDC => seq!['L', 'D', 'C'],
            Opcode::LDV => seq!['L', 'D', 'V'],
            Opcode::STV => seq!['S', 'T', 'V'],
            Opcode::ADD => seq!['A', 'D', 'D'],
            Opcode::AND => seq!['A', 'N', 'D'],
            Opcode::OR => seq!['O', 'R'],
            Opcode::XOR => seq!['X', 'O', 'R'],
            Opcode::EQL => seq!['E', 'Q', 'L'],
            Opcode::JMP => seq!['J', 'M', 'P'],
            Opcode::JMN => seq!['J', 'M', 'N'],
            Opcode::LDIV => seq!['L', 'D', 'I', 'V'],
            Opcode::STIV => seq!['S', 'T', 'I', 'V'],
            Opcode::HALT => seq!['H', 'A', 'L', 'T'],
            Opcode::NOT => seq!['N', 'O', 'T'],
            Opcode::RAR => seq!['R', 'A', 'R'],
        }
    }

    /// The numeric code of the opcode.
    pub fn repr(&self) -> (r: u8)
        ensures
            r == self.code(),
    {
        match self {
            Opcode::LDC => 0x00,
            Opcode::LDV => 0x01,
            Opcode::STV => 0x02,
            Opcode::ADD => 0x03,
            Opcode::AND => 0x04,
            Opcode::OR => 0x05,
            Opcode::XOR => 0x06,
            Opcode::EQL => 0x07,
            Opcode::JMP => 0x08,
            Opcode::JMN => 0x09,
            Opcode::LDIV => 0x0a,
            Opcode::STIV => 0x0b,
            Opcode::HALT => 0xf0,
            Opcode::NOT => 0xf1,
            Opcode::RAR => 0xf2,
        }
    }

    /// The opcode with numeric code `c`, if there is one.
    pub fn from_repr(c: u8) -> (r: Option<Opcode>)
        ensures
            r == opcode_of_code(c),
    {
        match c {
            0x00 => Some(Opcode::LDC),
            0x01 => Some(Opcode::LDV),
            0x02 => Some(Opcode::STV),
            0x03 => Some(Opcode::ADD),
            0x04 => Some(Opcode::AND),
            0x05 => Some(Opcode::OR),
            0x06 => Some(Opcode::XOR),
            0x07 => Some(Opcode::EQL),
            0x08 => Some(Opcode::JMP),
            0x09 => Some(Opcode::JMN),
            0x0a => Some(Opcode::LDIV),
            0x0b => Some(Opcode::STIV),
            0xf0 => Some(Opcode::HALT),
            0xf1 => Some(Opcode::NOT),
            0xf2 => Some(Opcode::RAR),
            _ => None,
        }
    }

    /// Whether the opcode takes an argument.
    pub fn has_arg(&self) -> (r: bool)
        ensures
            r == self.takes_arg(),
    {
        let c = self.repr();
        assert(((c >> 4u8) & 0xf) == (c / 16) % 16) by (bit_vector);
        ((c >> 4u8) & 0xf) != 0xf
    }

    /// The canonical (uppercase) mnemonic.
    pub fn mnemonic(&self) -> (r: &'static str)
        ensures
            r@ == self.spec_mnemonic(),
    {
        proof {
            reveal_strlit("LDC");
            reveal_strlit("LDV");
            reveal_strlit("STV");
            reveal_strlit("ADD");
            reveal_strlit("AND");
            reveal_strlit("OR");
            reveal_strlit("XOR");
            reveal_strlit("EQL");
            reveal_strlit("JMP");
            reveal_strlit("JMN");
            reveal_strlit("LDIV");
            reveal_strlit("STIV");
            reveal_strlit("HALT");
            reveal_strlit("NOT");
            reveal_strlit("RAR");
        }
        match self {
            Opcode::LDC => "LDC",
            Opcode::LDV => "LDV",
            Opcode::STV => "STV",
            Opcode::ADD => "ADD",
            Opcode::AND => "AND",
            Opcode::OR => "OR",
            Opcode::XOR => "XOR",
            Opcode::EQL => "EQL",
            Opcode::JMP => "JMP",
            Opcode::JMN => "JMN",
            Opcode::LDIV => "LDIV",
            Opcode::STIV => "STIV",
            Opcode::HALT => "HALT",
            Opcode::NOT => "NOT",
            Opcode::RAR => "RAR",
        }
    }

    /// The canonical mnemonic as an owned string.
    pub fn to_string(&self) -> (r: String)
        ensures
            r@ == self.spec_mnemonic(),
    {
        self.mnemonic().to_owned()
    }

    /// The opcode whose mnemonic `s` spells, ASCII case ignored.
    pub fn from_mnemonic_chars(s: &Vec<char>) -> (r: Result<Opcode, MnemonicError>)
        ensures
            r matches Ok(op) ==> equals_ignoring_case(s@, op.spec_mnemonic()),
            r matches Err(e) ==> e.text@ == s@ && forall|op: Opcode|
                !equals_ignoring_case(s@, #[trigger] op.spec_mnemonic()),
    {
        let all: Vec<Opcode> = vec![
            Opcode::LDC,
            Opcode::LDV,
            Opcode::STV,
            Opcode::ADD,
            Opcode::AND,
            Opcode::OR,
            Opcode::XOR,
            Opcode::EQL,
            Opcode::JMP,
            Opcode::JMN,
            Opcode::LDIV,
            Opcode::STIV,
            Opcode::HALT,
            Opcode::NOT,
            Opcode::RAR,
        ];
        assert(all@ =~= all_opcodes());
        let mut i: usize = 0;
        while i < all.len()
            invariant
                all@ == all_opcodes(),
                i <= all.len(),
                forall|j: int| 0 <= j < i ==> !equals_ignoring_case(s@, #[trigger] all@[j].spec_mnemonic()),
            decreases all.len() - i,
        {
            let op = all[i];
            let m = chars_of(op.mnemonic());
            if eq_ignoring_case(s, &m) {
                return Ok(op);
            }
            i = i + 1;
        }
        assert forall|op: Opcode| !equals_ignoring_case(s@, #[trigger] op.spec_mnemonic()) by {
            let j: int = match op {
                Opcode::LDC => 0,
                Opcode::LDV => 1,
                Opcode::STV => 2,
                Opcode::ADD => 3,
                Opcode::AND => 4,
                Opcode::OR => 5,
                Opcode::XOR => 6,
                Opcode::EQL => 7,
                Opcode::JMP => 8,
                Opcode::JMN => 9,
                Opcode::LDIV => 10,
                Opcode::STIV => 11,
                Opcode::HALT => 12,
                Opcode::NOT => 13,
                Opcode::RAR => 14,
            };
            assert(all@[j] == op);
        }
        Err(MnemonicError { text: s.clone() })
    }

    /// The opcode whose mnemonic `s` spells, ASCII case ignored.
    pub fn from_mnemonic(s: &str) -> (r: Result<Opcode, MnemonicError>)
        ensures
            r matches Ok(op) ==> equals_ignoring_case(s@, op.spec_mnemonic()),
            r matches Err(e) ==> e.text@ == s@ && forall|op: Opcode|
                !equals_ignoring_case(s@, #[trigger] op.spec_mnemonic()),
    {
        let cs = chars_of(s);
        Opcode::from_mnemonic_chars(&cs)
    }
}

/// Text that names no opcode.
#[derive(Clone, Debug, PartialEq, Eq)]
pub struct MnemonicError {
    pub text: Vec<char>,
}

/// A word whose opcode bits name no opcode.
#[derive(Clone, Copy, Debug, PartialEq, Eq, Structural)]
pub struct DecodeError {
    pub word: MimaValue,
    pub opcode: u8,
}

/// One machine instruction. The argument means something only when the
/// opcode takes one.
#[derive(Clone, Copy, Debug, PartialEq, Eq, Structural)]
pub struct Instruction {
    pub opcode: Opcode,
    pub arg: MimaAddress,
}

/// The opcode bits of word `w`: the nibble above the argument, widened to
/// a byte when that nibble is `0xF`.
pub open spec fn spec_opcode_bits(w: u32) -> u8 {
    let prefix = w as int / 0x10_0000;
    if prefix == 15 {
        ((w as int / 0x1_0000) % 256) as u8
    } else {
        (prefix % 256) as u8
    }
}

/// The instruction that word `w` holds, if its opcode bits name an opcode.
pub open spec fn decode_word(w: u32) -> Option<Instruction> {
    match opcode_of_code(spec_opcode_bits(w)) {
        Some(op) => Some(Instruction { opcode: op, arg: (w as int % 0x10_0000) as u32 }),
        None => None,
    }
}

/// The word that holds instruction `i`.
pub open spec fn encode_instruction(i: Instruction) -> u32 {
    if i.opcode.takes_arg() {
        (i.opcode.code() as int * 0x10_0000 + i.arg as int % 0x10_0000) as u32
    } else {
        (i.opcode.code() as int * 0x1_0000) as u32
    }
}

/// The text form of instruction `i`: the mnemonic, and for an opcode that
/// takes an argument the mnemonic padded to four columns, a space and the
/// argument in hexadecimal after `0x`.
pub open spec fn instruction_text(i: Instruction) -> Seq<char> {
    if i.opcode.takes_arg() {
        pad_right(i.opcode.spec_mnemonic(), 4) + seq![' ', '0', 'x'] + hex_digits(i.arg as nat)
    } else {
        i.opcode.spec_mnemonic()
    }
}

impl Instruction {
    /// The opcode bits of word `instr`.
    pub fn opcode_bits(instr: MimaValue) -> (r: u8)
        ensures
            r == spec_opcode_bits(instr),
    {
        let prefix = instr >> 20u32;
        assert(instr >> 20u32 == instr / 0x10_0000) by (bit_vector);
        assert(instr >> 16u32 == instr / 0x1_0000) by (bit_vector);
        let v = if prefix == 0x0f {
            instr >> 16u32
        } else {
            prefix
        };
        assert(v & 0xff == v % 256) by (bit_vector);
        (v & 0xff) as u8
    }

    /// The argument bits of word `instr`.
    pub fn arg_bits(instr: MimaValue) -> (r: MimaAddress)
        ensures
            r == instr as int % 0x10_0000,
    {
        assert(instr & 0xF_FFFF == instr % 0x10_0000) by (bit_vector);
        instr & MAX_ADDRESS
    }

    /// Unpacks a word into an instruction.
    pub fn decode(instr: MimaValue) -> (r: Result<Instruction, DecodeError>)
        ensures
            decode_word(instr) matches Some(i) ==> r == Ok::<Instruction, DecodeError>(i),
            decode_word(instr) is None ==> r == Err::<Instruction, DecodeError>(
                (DecodeError { word: instr, opcode: spec_opcode_bits(instr) }),
            ),
    {
        let bits = Instruction::opcode_bits(instr);
        match Opcode::from_repr(bits) {
            Some(opcode) => Ok(Instruction { opcode, arg: Instruction::arg_bits(instr) }),
            None => Err(DecodeError { word: instr, opcode: bits }),
        }
    }

    /// Packs the instruction into a word.
    pub fn encode(&self) -> (r: MimaValue)
        ensures
            r == encode_instruction(*self),
            r < 0x100_0000,
    {
        let code = self.opcode.repr() as u32;
        let arg = self.arg;
        if self.opcode.has_arg() {
            assert(code < 16);
            assert(code < 16 ==> ((code << 20u32) | (arg & 0xF_FFFF)) % 0x100_0000 == code * 0x10_0000
                + arg % 0x10_0000) by (bit_vector);
            coerce_mima_value((code << 20u32) | (arg & MAX_ADDRESS))
        } else {
            assert(code < 256 ==> (code << 16u32) % 0x100_0000 == code * 0x1_0000) by (bit_vector);
            coerce_mima_value(code << 16u32)
        }
    }

    /// The text form: the mnemonic, then for an opcode with an argument the
    /// argument in hexadecimal.
    pub fn to_string(&self) -> (r: String)
        ensures
            r@ == instruction_text(*self),
    {
        if self.opcode.has_arg() {
            let mut out = String::new();
            push_padded(&mut out, self.opcode.mnemonic(), 4);
            proof {
                reveal_strlit(" 0x");
            }
            out.append(" 0x");
            push_hex(&mut out, self.arg);
            assert(out@ =~= instruction_text(*self));
            out
        } else {
            self.opcode.to_string()
        }
    }
}

/// Decoding the word of an instruction gives back its opcode, and also its
/// argument when the opcode takes one.
pub proof fn lemma_decode_encode(i: Instruction)
    requires
        i.opcode.takes_arg() ==> i.arg < 0x10_0000,
    ensures
        decode_word(encode_instruction(i)) matches Some(j) && j.opcode == i.opcode && (
        i.opcode.takes_arg() ==> j.arg == i.arg),
{
    let c = i.opcode.code() as int;
    let w = encode_instruction(i);
    if i.opcode.takes_arg() {
        assert(c < 16);
        assert(w as int == c * 0x10_0000 + i.arg as int);
        assert(w as int / 0x10_0000 == c);
        assert(w as int % 0x10_0000 == i.arg as int);
    } else {
        assert(0xf0 <= c <= 0xf2);
        assert(w as int == c * 0x1_0000);
        assert(w as int / 0x10_0000 == 15);
        assert(w as int / 0x1_0000 == c);
    }
}

/// A 24-bit word that decodes to an opcode with an argument is packed back
/// into the same word.
pub proof fn lemma_encode_decode(w: u32)
    requires
        w < 0x100_0000,
        decode_word(w) matches Some(i) && i.opcode.takes_arg(),
    ensures
        encode_instruction(decode_word(w)->0) == w,
{
    let i = decode_word(w)->0;
    let p = w as int / 0x10_0000;
    if p == 15 {
        assert(0xf0 <= (w as int / 0x1_0000) % 256 <= 0xff);
    }
    assert(i.opcode.code() as int == p);
    assert(w as int == p * 0x10_0000 + w as int % 0x10_0000);
}

/// The opcode whose mnemonic `t` spells, ASCII case ignored, if any.
pub open spec fn opcode_named(t: Seq<char>) -> Option<Opcode> {
    if exists|op: Opcode| equals_ignoring_case(t, #[trigger] op.spec_mnemonic()) {
        Some(choose|op: Opcode| equals_ignoring_case(t, #[trigger] op.spec_mnemonic()))
    } else {
        None
    }
}

/// No text spells two mnemonics: mnemonics are distinct words of uppercase
/// letters.
pub proof fn lemma_mnemonic_unique(t: Seq<char>, a: Opcode, b: Opcode)
    requires
        equals_ignoring_case(t, a.spec_mnemonic()),
        equals_ignoring_case(t, b.spec_mnemonic()),
    ensures
        a == b,
{
    let ma = a.spec_mnemonic();
    let mb = b.spec_mnemonic();
    assert(forall|i: int| 0 <= i < ma.len() ==> 0x41 <= (#[trigger] ma[i]) as u32 <= 0x5A);
    assert(forall|i: int| 0 <= i < mb.len() ==> 0x41 <= (#[trigger] mb[i]) as u32 <= 0x5A);
    assert forall|i: int| 0 <= i < ma.len() implies ma[i] == mb[i] by {
        assert(same_ignoring_case(t[i], ma[i]));
        assert(same_ignoring_case(t[i], mb[i]));
    }
    assert(ma =~= mb);
}

/// The opcode named by `t` is the one that `from_mnemonic_chars` finds.
pub proof fn lemma_opcode_named(t: Seq<char>, op: Opcode)
    requires
        equals_ignoring_case(t, op.spec_mnemonic()),
    ensures
        opcode_named(t) == Some(op),
{
    let c = choose|o: Opcode| equals_ignoring_case(t, #[trigger] o.spec_mnemonic());
    lemma_mnemonic_unique(t, c, op);
}

} // verus!
