//! Turning words back into assembly text.

use vstd::prelude::*;
use vstd::string::*;
use crate::instructions::{decode_word, instruction_text, spec_opcode_bits, DecodeError, Instruction};
use crate::types::MimaValue;

verus! {

/// The listing of `ws`: one line per word with its instruction's text, or
/// the error of the first word that is no instruction.
pub open spec fn listing(ws: Seq<u32>) -> Result<Seq<char>, DecodeError>
    decreases ws.len(),
{
    if ws.len() == 0 {
        Ok(Seq::empty())
    } else {
        match listing(ws.drop_last()) {
            Err(e) => Err(e),
            Ok(t) => match decode_word(ws.last()) {
                Some(i) => Ok(t + instruction_text(i) + seq!['\n']),
                None => Err(DecodeError { word: ws.last(), opcode: spec_opcode_bits(ws.last()) }),
            },
        }
    }
}

proof fn lemma_listing_error_stays(ws: Seq<u32>, k: int)
    requires
        0 <= k <= ws.len(),
        listing(ws.take(k)) is Err,
    ensures
        listing(ws) == listing(ws.take(k)),
    decreases ws.len(),
{
    if ws.len() == k {
        assert(ws.take(k) =~= ws);
    } else {
        assert(ws.drop_last().take(k) =~= ws.take(k));
        lemma_listing_error_stays(ws.drop_last(), k);
    }
}

/// The assembly text of `instructions`, one instruction per line, or the
/// error of the first word that is no instruction.
pub fn disassemble(instructions: Vec<MimaValue>) -> (r: Result<String, DecodeError>)
    ensures
        listing(instructions@) matches Ok(t) ==> (r matches Ok(s) && s@ == t),
        listing(instructions@) matches Err(e) ==> r == Err::<String, DecodeError>(e),
{
    let ghost ws = instructions@;
    let mut output = String::new();
    let mut i: usize = 0;
    assert(ws.take(0) =~= Seq::<u32>::empty());
    while i < instructions.len()
        invariant
            i <= instructions.len(),
            ws == instructions@,
            listing(ws.take(i as int)) == Ok::<Seq<char>, DecodeError>(output@),
        decreases instructions.len() - i,
    {
        assert(ws.take(i + 1).drop_last() =~= ws.take(i as int));
        let instr = match Instruction::decode(instructions[i]) {
            Ok(instr) => instr,
            Err(e) => {
                proof {
                    lemma_listing_error_stays(ws, i + 1);
                }
                return Err(e);
            },
        };
        let text = instr.to_string();
        let ghost before = output@;
        output.append(text.as_str());
        proof {
            reveal_strlit("\n");
        }
        output.append("\n");
        assert(output@ =~= before + instruction_text(instr) + seq!['\n']);
        i = i + 1;
    }
    assert(ws.take(i as int) =~= ws);
    Ok(output)
}

} // verus!
