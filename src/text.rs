//! Character-level helpers: turning text into characters, hexadecimal
//! digits, ASCII case folding and the Unicode white-space class.

use vstd::prelude::*;
use vstd::string::*;

verus! {

/// The characters of `s`, in order.
pub fn chars_of(s: &str) -> (r: Vec<char>)
    ensures
        r@ == s@,
{
    let mut out: Vec<char> = Vec::new();
    for c in it: s.chars()
        invariant
            out@ == it.seq().take(it.index() as int),
            it.seq() == s@,
    {
        out.push(c);
    }
    assert(out@ =~= s@);
    out
}

/// The lowercase hexadecimal digit for `d`, which is below 16.
pub open spec fn hex_char(d: nat) -> char {
    seq!['0', '1', '2', '3', '4', '5', '6', '7', '8', '9', 'a', 'b', 'c', 'd', 'e', 'f'][d as int]
}

/// The lowercase hexadecimal digits of `n`, most significant first, with no
/// leading zeros (`0` for zero).
pub open spec fn hex_digits(n: nat) -> Seq<char>
    decreases n,
{
    if n < 16 {
        seq![hex_char(n)]
    } else {
        hex_digits(n / 16).push(hex_char(n % 16))
    }
}

/// `s` followed by spaces up to a width of `w` characters.
pub open spec fn pad_right(s: Seq<char>, w: nat) -> Seq<char> {
    if s.len() < w {
        s + Seq::new((w - s.len()) as nat, |i: int| ' ')
    } else {
        s
    }
}

/// `c` equals the uppercase letter or other character `m` when ASCII case is ignored.
pub open spec fn same_ignoring_case(c: char, m: char) -> bool {
    c == m || (0x41 <= (m as u32) <= 0x5A && (c as u32) == (m as u32) + 32)
}

/// `s` spells `m`, an uppercase word, when ASCII case is ignored.
pub open spec fn equals_ignoring_case(s: Seq<char>, m: Seq<char>) -> bool {
    s.len() == m.len() && forall|i: int| 0 <= i < s.len() ==> same_ignoring_case(#[trigger] s[i], m[i])
}

fn hex_digit_str(d: u32) -> (r: &'static str)
    requires
        d < 16,
    ensures
        r@ == seq![hex_char(d as nat)],
{
    proof {
        reveal_strlit("0");
        reveal_strlit("1");
        reveal_strlit("2");
        reveal_strlit("3");
        reveal_strlit("4");
        reveal_strlit("5");
        reveal_strlit("6");
        reveal_strlit("7");
        reveal_strlit("8");
        reveal_strlit("9");
        reveal_strlit("a");
        reveal_strlit("b");
        reveal_strlit("c");
        reveal_strlit("d");
        reveal_strlit("e");
        reveal_strlit("f");
    }
    match d {
        0 => "0",
        1 => "1",
        2 => "2",
        3 => "3",
        4 => "4",
        5 => "5",
        6 => "6",
        7 => "7",
        8 => "8",
        9 => "9",
        10 => "a",
        11 => "b",
        12 => "c",
        13 => "d",
        14 => "e",
        _ => "f",
    }
}

/// Appends the hexadecimal digits of `n` to `out`.
pub fn push_hex(out: &mut String, n: u32)
    ensures
        final(out)@ == old(out)@ + hex_digits(n as nat),
    decreases n,
{
    if n >= 16 {
        push_hex(out, n / 16);
    }
    out.append(hex_digit_str(n % 16));
    assert(final(out)@ =~= old(out)@ + hex_digits(n as nat));
}

/// Appends `s` to `out`, then spaces up to a width of `w` characters for what `s` adds.
pub fn push_padded(out: &mut String, s: &str, w: usize)
    ensures
        final(out)@ == old(out)@ + pad_right(s@, w as nat),
{
    out.append(s);
    let n = chars_of(s).len();
    let mut k: usize = n;
    while k < w
        invariant
            n == s@.len(),
            n <= k <= w || (k == n && n >= w),
            out@ == old(out)@ + s@ + Seq::new((k - n) as nat, |i: int| ' '),
        decreases w - k,
    {
        proof {
            reveal_strlit(" ");
        }
        out.append(" ");
        k = k + 1;
        assert(out@ =~= old(out)@ + s@ + Seq::new((k - n) as nat, |i: int| ' '));
    }
    assert(out@ =~= old(out)@ + pad_right(s@, w as nat));
}

/// Whether `s` equals the uppercase word `m` when ASCII case is ignored.
pub fn eq_ignoring_case(s: &Vec<char>, m: &Vec<char>) -> (r: bool)
    ensures
        r == equals_ignoring_case(s@, m@),
{
    if s.len() != m.len() {
        return false;
    }
    let mut i: usize = 0;
    while i < s.len()
        invariant
            s.len() == m.len(),
            i <= s.len(),
            forall|j: int| 0 <= j < i ==> same_ignoring_case(#[trigger] s@[j], m@[j]),
        decreases s.len() - i,
    {
        let c = s[i];
        let d = m[i];
        let same = c == d || (0x41 <= (d as u32) && (d as u32) <= 0x5A && (c as u32) == (d as u32) + 32);
        if !same {
            return false;
        }
        i = i + 1;
    }
    true
}

/// The character sequences that the vectors of `v` hold.
pub open spec fn seqs(v: Seq<Vec<char>>) -> Seq<Seq<char>> {
    v.map_values(|x: Vec<char>| x@)
}

/// `c` is white space in the Unicode sense (the `White_Space` property).
pub open spec fn is_space(c: char) -> bool {
    let u = c as u32;
    (0x09 <= u <= 0x0D) || u == 0x20 || u == 0x85 || u == 0xA0 || u == 0x1680 || (0x2000 <= u
        <= 0x200A) || u == 0x2028 || u == 0x2029 || u == 0x202F || u == 0x205F || u == 0x3000
}

/// Whether `c` is white space in the Unicode sense.
pub fn space(c: char) -> (r: bool)
    ensures
        r == is_space(c),
{
    let u = c as u32;
    (0x09 <= u && u <= 0x0D) || u == 0x20 || u == 0x85 || u == 0xA0 || u == 0x1680 || (0x2000 <= u
        && u <= 0x200A) || u == 0x2028 || u == 0x2029 || u == 0x202F || u == 0x205F || u == 0x3000
}

/// The maximal runs of characters of `s` that are not white space, in order.
pub open spec fn words(s: Seq<char>) -> Seq<Seq<char>>
    decreases s.len(),
{
    if s.len() == 0 {
        Seq::empty()
    } else {
        let w = words(s.drop_last());
        let c = s.last();
        if is_space(c) {
            w
        } else if s.len() >= 2 && !is_space(s[s.len() - 2]) {
            w.update(w.len() - 1, w.last().push(c))
        } else {
            w.push(seq![c])
        }
    }
}

/// The pieces of `s` between occurrences of `sep`; one more than there are
/// occurrences.
pub open spec fn pieces(s: Seq<char>, sep: char) -> Seq<Seq<char>>
    decreases s.len(),
{
    if s.len() == 0 {
        seq![Seq::empty()]
    } else {
        let l = pieces(s.drop_last(), sep);
        if s.last() == sep {
            l.push(Seq::empty())
        } else {
            l.update(l.len() - 1, l.last().push(s.last()))
        }
    }
}

/// The words of `s`, in order.
pub fn split_words(s: &Vec<char>) -> (r: Vec<Vec<char>>)
    ensures
        seqs(r@) == words(s@),
{
    let mut done: Vec<Vec<char>> = Vec::new();
    let mut cur: Vec<char> = Vec::new();
    let mut i: usize = 0;
    while i < s.len()
        invariant
            i <= s.len(),
            words(s@.take(i as int)) == (if cur.len() > 0 {
                seqs(done@).push(cur@)
            } else {
                seqs(done@)
            }),
            cur.len() > 0 <==> (i > 0 && !is_space(s@[i - 1])),
        decreases s.len() - i,
    {
        let c = s[i];
        let ghost pre = s@.take(i as int);
        let ghost cur_before = cur@;
        assert(s@.take(i + 1).drop_last() =~= pre);
        if space(c) {
            if cur.len() > 0 {
                let ghost old_done = seqs(done@);
                done.push(cur);
                assert(seqs(done@) =~= old_done.push(cur@));
                cur = Vec::new();
            }
        } else {
            cur.push(c);
        }
        i = i + 1;
        proof {
            let w = words(pre);
            if !is_space(c) && i >= 2 && !is_space(s@[i - 2]) {
                assert(s@.take(i as int)[i - 2] == s@[i - 2]);
                assert(w.update(w.len() - 1, w.last().push(c)) =~= seqs(done@).push(cur@));
            } else if !is_space(c) {
                assert(i < 2 || is_space(s@.take(i as int)[i - 2]));
                assert(cur_before.len() == 0);
                assert(cur@ =~= seq![c]);
                assert(w.push(seq![c]) =~= seqs(done@).push(cur@));
            }
        }
    }
    assert(s@.take(i as int) =~= s@);
    if cur.len() > 0 {
        let ghost old_done = seqs(done@);
        done.push(cur);
        assert(seqs(done@) =~= old_done.push(cur@));
    }
    done
}

/// The pieces of `s` between occurrences of `sep`, in order.
pub fn split_on(s: &Vec<char>, sep: char) -> (r: Vec<Vec<char>>)
    ensures
        seqs(r@) == pieces(s@, sep),
{
    let mut done: Vec<Vec<char>> = Vec::new();
    let mut cur: Vec<char> = Vec::new();
    let mut i: usize = 0;
    assert(s@.take(0) =~= Seq::<char>::empty());
    assert(seqs(done@).push(cur@) =~= seq![Seq::<char>::empty()]);
    while i < s.len()
        invariant
            i <= s.len(),
            pieces(s@.take(i as int), sep) == seqs(done@).push(cur@),
        decreases s.len() - i,
    {
        let c = s[i];
        let ghost pre = s@.take(i as int);
        let ghost before = seqs(done@).push(cur@);
        assert(s@.take(i + 1).drop_last() =~= pre);
        if c == sep {
            let ghost old_done = seqs(done@);
            done.push(cur);
            assert(seqs(done@) =~= old_done.push(before.last()));
            cur = Vec::new();
            assert(seqs(done@).push(cur@) =~= before.push(Seq::empty()));
        } else {
            cur.push(c);
            assert(seqs(done@).push(cur@) =~= before.update(
                before.len() - 1,
                before.last().push(c),
            ));
        }
        i = i + 1;
    }
    assert(s@.take(i as int) =~= s@);
    let ghost old_done = seqs(done@);
    done.push(cur);
    assert(seqs(done@) =~= old_done.push(cur@));
    done
}

/// `t` opens a comment: it starts with `;`.
pub open spec fn starts_comment(t: Seq<char>) -> bool {
    t.len() > 0 && t[0] == ';'
}

/// The words of `ts` before the first one that opens a comment.
pub open spec fn uncommented(ts: Seq<Seq<char>>) -> Seq<Seq<char>>
    decreases ts.len(),
{
    if ts.len() == 0 {
        ts
    } else {
        let p = uncommented(ts.drop_last());
        if p.len() == ts.len() - 1 && !starts_comment(ts.last()) {
            p.push(ts.last())
        } else {
            p
        }
    }
}

/// The tokens of a source line: its words up to the first that opens a comment.
pub open spec fn line_tokens(line: Seq<char>) -> Seq<Seq<char>> {
    uncommented(words(line))
}

proof fn lemma_uncommented_rest(ts: Seq<Seq<char>>, k: int)
    requires
        0 <= k <= ts.len(),
        uncommented(ts.take(k)).len() < k,
    ensures
        uncommented(ts) == uncommented(ts.take(k)),
    decreases ts.len(),
{
    if ts.len() == k {
        assert(ts.take(k) =~= ts);
    } else {
        assert(ts.drop_last().take(k) =~= ts.take(k));
        lemma_uncommented_rest(ts.drop_last(), k);
    }
}

/// The tokens of a source line: its words up to the first that opens a comment.
pub fn tokens_of(line: &Vec<char>) -> (r: Vec<Vec<char>>)
    ensures
        seqs(r@) == line_tokens(line@),
{
    let ws = split_words(line);
    let ghost ts = seqs(ws@);
    let mut out: Vec<Vec<char>> = Vec::new();
    let mut i: usize = 0;
    assert(ts.take(0) =~= Seq::<Seq<char>>::empty());
    assert(seqs(out@) =~= Seq::<Seq<char>>::empty());
    while i < ws.len()
        invariant
            i <= ws.len(),
            ts == seqs(ws@),
            seqs(out@) == uncommented(ts.take(i as int)),
            out.len() == i,
            ts == words(line@),
        decreases ws.len() - i,
    {
        let ghost pre = ts.take(i as int);
        assert(ts.take(i + 1).drop_last() =~= pre);
        let t = &ws[i];
        if t.len() > 0 && t[0] == ';' {
            assert(starts_comment(ts[i as int]));
            proof {
                lemma_uncommented_rest(ts, i + 1);
            }
            return out;
        }
        let ghost old_out = seqs(out@);
        out.push(t.clone());
        assert(seqs(out@) =~= old_out.push(ts[i as int]));
        i = i + 1;
    }
    assert(ts.take(i as int) =~= ts);
    out
}

/// There is always at least one piece.
pub proof fn lemma_pieces_nonempty(s: Seq<char>, sep: char)
    ensures
        pieces(s, sep).len() >= 1,
    decreases s.len(),
{
    if s.len() > 0 {
        lemma_pieces_nonempty(s.drop_last(), sep);
    }
}

} // verus!
