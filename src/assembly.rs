//! The two-pass assembler: source text to resolved instructions, with label
//! resolution, address assignment for undeclared names and relocation.

use vstd::prelude::*;
use crate::instructions::{opcode_named, lemma_opcode_named, Instruction, Opcode};
use crate::text::{chars_of, line_tokens, pieces, seqs, split_on, tokens_of};
use crate::types::{
    coerce_mima_address, parse_number, parse_number_chars, wrap_address, MimaAddress,
};

verus! {

/// Why a source text does not assemble; `line` counts source lines from 1.
#[derive(Clone, Debug, PartialEq, Eq)]
pub enum AsmError {
    /// A label declaration followed by more tokens.
    UnexpectedAfterLabel { line: usize, label: Vec<char> },
    /// A token in mnemonic position that names no opcode.
    UnknownMnemonic { line: usize, token: Vec<char> },
    /// An opcode that takes an argument, without one.
    MissingArgument { line: usize, mnemonic: Vec<char> },
    /// Tokens after a complete instruction.
    TrailingTokens { line: usize },
}

/// An assembly error as a mathematical value.
pub enum AsmFault {
    UnexpectedAfterLabel { line: nat, label: Seq<char> },
    UnknownMnemonic { line: nat, token: Seq<char> },
    MissingArgument { line: nat, mnemonic: Seq<char> },
    TrailingTokens { line: nat },
}

impl View for AsmError {
    type V = AsmFault;

    open spec fn view(&self) -> AsmFault {
        match self {
            AsmError::UnexpectedAfterLabel { line, label } => AsmFault::UnexpectedAfterLabel {
                line: *line as nat,
                label: label@,
            },
            AsmError::UnknownMnemonic { line, token } => AsmFault::UnknownMnemonic {
                line: *line as nat,
                token: token@,
            },
            AsmError::MissingArgument { line, mnemonic } => AsmFault::MissingArgument {
                line: *line as nat,
                mnemonic: mnemonic@,
            },
            AsmError::TrailingTokens { line } => AsmFault::TrailingTokens { line: *line as nat },
        }
    }
}

/// An argument after the first pass: a name still to resolve, or a
/// literal address.
pub enum ArgModel {
    Symbol(Seq<char>),
    Literal(u32),
}

/// What the first pass has gathered: labels with the index of the
/// instruction that follows them (a later declaration wins), the names used
/// as arguments in order of first use, the instructions with unresolved
/// arguments, and the highest literal address used by an instruction other
/// than `LDC`.
pub struct FirstPass {
    pub labels: Seq<(Seq<char>, nat)>,
    pub templates: Seq<Seq<char>>,
    pub instrs: Seq<(Opcode, Option<ArgModel>)>,
    pub highest: nat,
}

/// The address of the last declaration of `name` in `ls`.
pub open spec fn label_lookup(ls: Seq<(Seq<char>, nat)>, name: Seq<char>) -> Option<nat>
    decreases ls.len(),
{
    if ls.len() == 0 {
        None
    } else if ls.last().0 == name {
        Some(ls.last().1)
    } else {
        label_lookup(ls.drop_last(), name)
    }
}

/// `ts` with `name` appended if it is not there yet.
pub open spec fn add_template(ts: Seq<Seq<char>>, name: Seq<char>) -> Seq<Seq<char>> {
    if ts.contains(name) {
        ts
    } else {
        ts.push(name)
    }
}

/// The first pass applied to one line's tokens, numbered `line`.
pub open spec fn line_step(st: FirstPass, toks: Seq<Seq<char>>, line: nat) -> Result<
    FirstPass,
    AsmFault,
> {
    if toks.len() == 0 {
        Ok(st)
    } else {
        let t = toks[0];
        if t.len() > 0 && t.last() == ':' {
            if toks.len() > 1 {
                Err(AsmFault::UnexpectedAfterLabel { line, label: t.drop_last() })
            } else {
                Ok(FirstPass { labels: st.labels.push((t.drop_last(), st.instrs.len())), ..st })
            }
        } else {
            match opcode_named(t) {
                None => Err(AsmFault::UnknownMnemonic { line, token: t }),
                Some(op) => if !op.takes_arg() {
                    if toks.len() > 1 {
                        Err(AsmFault::TrailingTokens { line })
                    } else {
                        Ok(FirstPass { instrs: st.instrs.push((op, None)), ..st })
                    }
                } else if toks.len() == 1 {
                    Err(AsmFault::MissingArgument { line, mnemonic: t })
                } else if toks.len() > 2 {
                    Err(AsmFault::TrailingTokens { line })
                } else {
                    let a = toks[1];
                    match parse_number(a) {
                        Some(v) => {
                            let addr = wrap_address(v as int) as nat;
                            Ok(
                                FirstPass {
                                    instrs: st.instrs.push(
                                        (op, Some(ArgModel::Literal(addr as u32))),
                                    ),
                                    highest: if op != Opcode::LDC && addr > st.highest {
                                        addr
                                    } else {
                                        st.highest
                                    },
                                    ..st
                                },
                            )
                        },
                        None => Ok(
                            FirstPass {
                                templates: add_template(st.templates, a),
                                instrs: st.instrs.push((op, Some(ArgModel::Symbol(a)))),
                                ..st
                            },
                        ),
                    }
                },
            }
        }
    }
}

/// The state before any line.
pub open spec fn first_pass_start() -> FirstPass {
    FirstPass { labels: Seq::empty(), templates: Seq::empty(), instrs: Seq::empty(), highest: 0 }
}

/// The first pass over `ls`, the source lines, stopping at the first error.
pub open spec fn first_pass(ls: Seq<Seq<char>>) -> Result<FirstPass, AsmFault>
    decreases ls.len(),
{
    if ls.len() == 0 {
        Ok(first_pass_start())
    } else {
        match first_pass(ls.drop_last()) {
            Err(f) => Err(f),
            Ok(st) => line_step(st, line_tokens(ls.last()), ls.len()),
        }
    }
}

/// Addresses for the names of `ts` that no label declares, in order of
/// first use, counting up from `start` in the address space.
pub open spec fn assign_unbound(
    ts: Seq<Seq<char>>,
    labels: Seq<(Seq<char>, nat)>,
    start: nat,
) -> Seq<(Seq<char>, nat)>
    decreases ts.len(),
{
    if ts.len() == 0 {
        Seq::empty()
    } else {
        let p = assign_unbound(ts.drop_last(), labels, start);
        if label_lookup(labels, ts.last()) is Some {
            p
        } else {
            p.push((ts.last(), wrap_address((start + p.len()) as int) as nat))
        }
    }
}

/// `a` moved past a program of `count` instructions and one spare word,
/// unless `unchanged`; wrapped into the address space either way.
pub open spec fn relocate(a: nat, count: nat, unchanged: bool) -> u32 {
    if unchanged {
        wrap_address(a as int) as u32
    } else {
        wrap_address((a + count + 1) as int) as u32
    }
}

/// The address that a name resolves to before relocation: its label, or
/// else the address assigned to it after the highest literal.
pub open spec fn symbol_address(st: FirstPass, name: Seq<char>) -> nat {
    match label_lookup(st.labels, name) {
        Some(a) => a,
        None => match label_lookup(assign_unbound(st.templates, st.labels, st.highest + 1), name) {
            Some(a) => a,
            None => 0,
        },
    }
}

/// The instruction that a first-pass entry becomes. Names are relocated
/// unless addressing is absolute; literals too, except for `LDC`, whose
/// argument is a value.
pub open spec fn resolve(st: FirstPass, t: (Opcode, Option<ArgModel>), absolute: bool) -> Instruction {
    let count = st.instrs.len();
    Instruction {
        opcode: t.0,
        arg: match t.1 {
            None => 0,
            Some(ArgModel::Symbol(n)) => relocate(symbol_address(st, n), count, absolute),
            Some(ArgModel::Literal(a)) => relocate(
                a as nat,
                count,
                absolute || !t.0.takes_arg() || t.0 == Opcode::LDC,
            ),
        },
    }
}

/// What `src` assembles to.
pub open spec fn assemble_spec(src: Seq<char>, absolute: bool) -> Result<Seq<Instruction>, AsmFault> {
    match first_pass(pieces(src, '\n')) {
        Err(f) => Err(f),
        Ok(st) => Ok(st.instrs.map_values(|t: (Opcode, Option<ArgModel>)| resolve(st, t, absolute))),
    }
}

/// An argument after the first pass: a name still to resolve, or a literal
/// address.
enum InterimAddr {
    Template(Vec<char>),
    Real(MimaAddress),
}

spec fn arg_view(a: Option<InterimAddr>) -> Option<ArgModel> {
    match a {
        None => None,
        Some(InterimAddr::Template(n)) => Some(ArgModel::Symbol(n@)),
        Some(InterimAddr::Real(v)) => Some(ArgModel::Literal(v)),
    }
}

spec fn pairs_view(v: Seq<(Vec<char>, usize)>) -> Seq<(Seq<char>, nat)> {
    v.map_values(|p: (Vec<char>, usize)| (p.0@, p.1 as nat))
}

spec fn entries_view(v: Seq<(Opcode, Option<InterimAddr>)>) -> Seq<(Opcode, Option<ArgModel>)> {
    v.map_values(|t: (Opcode, Option<InterimAddr>)| (t.0, arg_view(t.1)))
}

/// The assembler's state, threaded through both passes.
struct Context {
    labels: Vec<(Vec<char>, usize)>,
    templates: Vec<Vec<char>>,
    instrs: Vec<(Opcode, Option<InterimAddr>)>,
    highest: MimaAddress,
}

impl Context {
    spec fn view(&self) -> FirstPass {
        FirstPass {
            labels: pairs_view(self.labels@),
            templates: seqs(self.templates@),
            instrs: entries_view(self.instrs@),
            highest: self.highest as nat,
        }
    }

    spec fn wf(&self) -> bool {
        self.highest < 0x10_0000
    }
}

/// Whether `a` and `b` hold the same characters.
fn chars_eq(a: &Vec<char>, b: &Vec<char>) -> (r: bool)
    ensures
        r == (a@ == b@),
{
    if a.len() != b.len() {
        return false;
    }
    let mut i: usize = 0;
    while i < a.len()
        invariant
            a.len() == b.len(),
            i <= a.len(),
            forall|j: int| 0 <= j < i ==> a@[j] == b@[j],
        decreases a.len() - i,
    {
        if a[i] != b[i] {
            return false;
        }
        i = i + 1;
    }
    assert(a@ =~= b@);
    true
}

/// The address of the last entry for `name` in `entries`.
fn lookup_label(entries: &Vec<(Vec<char>, usize)>, name: &Vec<char>) -> (r: Option<usize>)
    ensures
        r matches Some(a) ==> label_lookup(pairs_view(entries@), name@) == Some(a as nat),
        r is None ==> label_lookup(pairs_view(entries@), name@) is None,
{
    let ghost all = pairs_view(entries@);
    let mut found: Option<usize> = None;
    let mut i: usize = 0;
    while i < entries.len()
        invariant
            i <= entries.len(),
            all == pairs_view(entries@),
            found matches Some(a) ==> label_lookup(all.take(i as int), name@) == Some(a as nat),
            found is None ==> label_lookup(all.take(i as int), name@) is None,
        decreases entries.len() - i,
    {
        assert(all.take(i + 1).drop_last() =~= all.take(i as int));
        if chars_eq(&entries[i].0, name) {
            found = Some(entries[i].1);
        }
        i = i + 1;
    }
    assert(all.take(i as int) =~= all);
    found
}

/// Whether `name` is among `ts`.
fn contains_name(ts: &Vec<Vec<char>>, name: &Vec<char>) -> (r: bool)
    ensures
        r == seqs(ts@).contains(name@),
{
    let mut i: usize = 0;
    while i < ts.len()
        invariant
            i <= ts.len(),
            forall|j: int| 0 <= j < i ==> ts@[j]@ != name@,
        decreases ts.len() - i,
    {
        if chars_eq(&ts[i], name) {
            assert(seqs(ts@)[i as int] == name@);
            return true;
        }
        i = i + 1;
    }
    assert forall|j: int| 0 <= j < seqs(ts@).len() implies seqs(ts@)[j] != name@ by {
        assert(ts@[j]@ != name@);
    }
    false
}

/// `a` moved past a program of `instr_count` instructions and one spare
/// word, unless `unchanged`; wrapped into the address space either way.
fn add_offset(addr: usize, instr_count: usize, unchanged: bool) -> (r: MimaAddress)
    ensures
        r == relocate(addr as nat, instr_count as nat, unchanged),
{
    let a = (addr % 0x10_0000) as u64;
    if unchanged {
        a as u32
    } else {
        let c = (instr_count % 0x10_0000) as u64;
        proof {
            vstd::arithmetic::div_mod::lemma_add_mod_noop(addr as int, instr_count as int, 0x10_0000);
            vstd::arithmetic::div_mod::lemma_add_mod_noop(
                addr as int + instr_count as int,
                1,
                0x10_0000,
            );
            vstd::arithmetic::div_mod::lemma_add_mod_noop(
                (addr as int % 0x10_0000) + (instr_count as int % 0x10_0000),
                1,
                0x10_0000,
            );
            vstd::arithmetic::div_mod::lemma_mod_twice(
                (addr as int % 0x10_0000) + (instr_count as int % 0x10_0000),
                0x10_0000,
            );
        }
        ((a + c + 1) % 0x10_0000) as u32
    }
}

/// The first pass on one line's tokens, numbered `line`.
fn assemble_line(ctx: &mut Context, toks: &Vec<Vec<char>>, line: usize) -> (r: Result<(), AsmError>)
    requires
        old(ctx).wf(),
    ensures
        final(ctx).wf(),
        line_step(old(ctx)@, seqs(toks@), line as nat) matches Ok(st) ==> (r is Ok && final(ctx)@
            == st),
        line_step(old(ctx)@, seqs(toks@), line as nat) matches Err(f) ==> (r matches Err(e) && e@
            == f),
{
    let ghost ts = seqs(toks@);
    if toks.len() == 0 {
        return Ok(());
    }
    let token = &toks[0];
    assert(ts[0] == token@);
    if token.len() > 0 && token[token.len() - 1] == ':' {
        let mut label = token.clone();
        label.pop();
        assert(label@ =~= token@.drop_last());
        if toks.len() > 1 {
            return Err(AsmError::UnexpectedAfterLabel { line, label });
        }
        let ghost old_labels = pairs_view(ctx.labels@);
        let at = ctx.instrs.len();
        ctx.labels.push((label, at));
        assert(pairs_view(ctx.labels@) =~= old_labels.push((token@.drop_last(), at as nat)));
        return Ok(());
    }
    let opcode = match Opcode::from_mnemonic_chars(token) {
        Err(_) => {
            assert(opcode_named(token@) is None);
            return Err(AsmError::UnknownMnemonic { line, token: token.clone() });
        },
        Ok(op) => op,
    };
    proof {
        lemma_opcode_named(token@, opcode);
    }
    if !opcode.has_arg() {
        if toks.len() > 1 {
            return Err(AsmError::TrailingTokens { line });
        }
        let ghost old_instrs = entries_view(ctx.instrs@);
        ctx.instrs.push((opcode, None));
        assert(entries_view(ctx.instrs@) =~= old_instrs.push((opcode, None)));
        return Ok(());
    }
    if toks.len() == 1 {
        return Err(AsmError::MissingArgument { line, mnemonic: token.clone() });
    }
    if toks.len() > 2 {
        return Err(AsmError::TrailingTokens { line });
    }
    let arg = &toks[1];
    assert(ts[1] == arg@);
    let ghost old_instrs = entries_view(ctx.instrs@);
    match parse_number_chars(arg) {
        Some(v) => {
            let addr = coerce_mima_address(v);
            if opcode != Opcode::LDC && addr > ctx.highest {
                ctx.highest = addr;
            }
            ctx.instrs.push((opcode, Some(InterimAddr::Real(addr))));
            assert(entries_view(ctx.instrs@) =~= old_instrs.push(
                (opcode, Some(ArgModel::Literal(addr))),
            ));
        },
        None => {
            let ghost old_templates = seqs(ctx.templates@);
            if !contains_name(&ctx.templates, arg) {
                ctx.templates.push(arg.clone());
                assert(seqs(ctx.templates@) =~= old_templates.push(arg@));
            }
            ctx.instrs.push((opcode, Some(InterimAddr::Template(arg.clone()))));
            assert(entries_view(ctx.instrs@) =~= old_instrs.push(
                (opcode, Some(ArgModel::Symbol(arg@))),
            ));
        },
    }
    Ok(())
}

proof fn lemma_first_pass_error_stays(ls: Seq<Seq<char>>, k: int)
    requires
        0 <= k <= ls.len(),
        first_pass(ls.take(k)) is Err,
    ensures
        first_pass(ls) == first_pass(ls.take(k)),
    decreases ls.len(),
{
    if ls.len() == k {
        assert(ls.take(k) =~= ls);
    } else {
        assert(ls.drop_last().take(k) =~= ls.take(k));
        lemma_first_pass_error_stays(ls.drop_last(), k);
    }
}

/// Gives each name that no label declares an address, counting up from just
/// after the highest literal address, in order of first use.
fn assign_template_addresses(ctx: &Context) -> (r: Vec<(Vec<char>, usize)>)
    requires
        ctx.wf(),
    ensures
        pairs_view(r@) == assign_unbound(ctx@.templates, ctx@.labels, ctx@.highest + 1),
{
    let ghost ts = ctx@.templates;
    let ghost start: nat = ctx@.highest + 1;
    let mut out: Vec<(Vec<char>, usize)> = Vec::new();
    let mut next_addr: MimaAddress = coerce_mima_address(ctx.highest + 1);
    let mut i: usize = 0;
    assert(pairs_view(out@) =~= assign_unbound(ts.take(0), ctx@.labels, start));
    while i < ctx.templates.len()
        invariant
            i <= ctx.templates.len(),
            ts == seqs(ctx.templates@),
            pairs_view(out@) == assign_unbound(ts.take(i as int), ctx@.labels, start),
            next_addr as int == wrap_address(start + out.len()),
        decreases ctx.templates.len() - i,
    {
        let t = &ctx.templates[i];
        assert(ts.take(i + 1).drop_last() =~= ts.take(i as int));
        assert(ts.take(i + 1).last() == t@);
        if lookup_label(&ctx.labels, t).is_none() {
            let ghost old_out = pairs_view(out@);
            out.push((t.clone(), next_addr as usize));
            assert(pairs_view(out@) =~= old_out.push((t@, next_addr as nat)));
            proof {
                vstd::arithmetic::div_mod::lemma_add_mod_noop((start + old_out.len()) as int, 1, 0x10_0000);
                vstd::arithmetic::div_mod::lemma_mod_twice((start + old_out.len()) as int, 0x10_0000);
            }
            next_addr = coerce_mima_address(next_addr + 1);
        }
        i = i + 1;
    }
    assert(ts.take(i as int) =~= ts);
    out
}

/// Resolves every first-pass entry into an instruction.
fn construct_instructions(ctx: &Context, assigned: &Vec<(Vec<char>, usize)>, absolute: bool) -> (r:
    Vec<Instruction>)
    requires
        ctx.wf(),
        pairs_view(assigned@) == assign_unbound(ctx@.templates, ctx@.labels, ctx@.highest + 1),
    ensures
        r@ == ctx@.instrs.map_values(|t: (Opcode, Option<ArgModel>)| resolve(ctx@, t, absolute)),
{
    let count = ctx.instrs.len();
    let ghost spec_out = ctx@.instrs.map_values(
        |t: (Opcode, Option<ArgModel>)| resolve(ctx@, t, absolute),
    );
    let mut out: Vec<Instruction> = Vec::new();
    let mut i: usize = 0;
    while i < count
        invariant
            i <= count,
            count == ctx.instrs.len(),
            spec_out == ctx@.instrs.map_values(
                |t: (Opcode, Option<ArgModel>)| resolve(ctx@, t, absolute),
            ),
            out@ =~= spec_out.take(i as int),
            pairs_view(assigned@) == assign_unbound(ctx@.templates, ctx@.labels, ctx@.highest + 1),
        decreases count - i,
    {
        let op = ctx.instrs[i].0;
        assert(ctx@.instrs[i as int] == (op, arg_view(ctx.instrs@[i as int].1)));
        let ghost entry = ctx@.instrs[i as int];
        let addr: MimaAddress = match &ctx.instrs[i].1 {
            None => 0,
            Some(InterimAddr::Template(name)) => {
                assert(entry.1 == Some(ArgModel::Symbol(name@)));
                assert(ctx@.labels == pairs_view(ctx.labels@));
                let ghost unbound = assign_unbound(ctx@.templates, ctx@.labels, ctx@.highest + 1);
                let a = match lookup_label(&ctx.labels, name) {
                    Some(a) => a,
                    None => match lookup_label(assigned, name) {
                        Some(b) => {
                            assert(label_lookup(unbound, name@) == Some(b as nat));
                            b
                        },
                        None => {
                            assert(label_lookup(unbound, name@) is None);
                            0
                        },
                    },
                };
                assert(a as nat == symbol_address(ctx@, name@));
                add_offset(a, count, absolute)
            },
            Some(InterimAddr::Real(a)) => {
                assert(entry.1 == Some(ArgModel::Literal(*a)));
                add_offset(*a as usize, count, absolute || !op.has_arg() || op == Opcode::LDC)
            },
        };
        assert(addr == resolve(ctx@, entry, absolute).arg);
        out.push(Instruction { opcode: op, arg: addr });
        assert(out@[i as int] == spec_out[i as int]);
        i = i + 1;
    }
    out
}

/// Assembles source text. Each line is blank or a comment, a label
/// declaration `name:`, or an instruction `MNEMONIC [ARG]`; `;` opens a
/// comment. The first malformed line ends assembly with its error.
/// Otherwise each instruction line gives one instruction, with names
/// resolved and, unless `absolute_addresses`, addresses relocated past the
/// program.
pub fn assemble(input: String, absolute_addresses: bool) -> (r: Result<Vec<Instruction>, AsmError>)
    ensures
        assemble_spec(input@, absolute_addresses) matches Ok(v) ==> (r matches Ok(w) && w@ == v),
        assemble_spec(input@, absolute_addresses) matches Err(f) ==> (r matches Err(e) && e@ == f),
{
    let chars = chars_of(input.as_str());
    let ls = split_on(&chars, '\n');
    let ghost all = seqs(ls@);
    let mut ctx = Context {
        labels: Vec::new(),
        templates: Vec::new(),
        instrs: Vec::new(),
        highest: 0,
    };
    assert(ctx@ == first_pass_start()) by {
        assert(pairs_view(ctx.labels@) =~= Seq::empty());
        assert(seqs(ctx.templates@) =~= Seq::empty());
        assert(entries_view(ctx.instrs@) =~= Seq::empty());
    }
    assert(all.take(0) =~= Seq::<Seq<char>>::empty());
    let mut i: usize = 0;
    while i < ls.len()
        invariant
            i <= ls.len(),
            all == seqs(ls@),
            all == pieces(input@, '\n'),
            ctx.wf(),
            first_pass(all.take(i as int)) == Ok::<FirstPass, AsmFault>(ctx@),
        decreases ls.len() - i,
    {
        let toks = tokens_of(&ls[i]);
        assert(all.take(i + 1).drop_last() =~= all.take(i as int));
        assert(all.take(i + 1).last() == ls@[i as int]@);
        match assemble_line(&mut ctx, &toks, i + 1) {
            Err(e) => {
                proof {
                    lemma_first_pass_error_stays(all, i + 1);
                }
                return Err(e);
            },
            Ok(()) => {},
        }
        i = i + 1;
    }
    assert(all.take(i as int) =~= all);
    let assigned = assign_template_addresses(&ctx);
    let instructions = construct_instructions(&ctx, &assigned, absolute_addresses);
    Ok(instructions)
}

} // verus!
