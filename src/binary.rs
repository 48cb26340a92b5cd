//! The binary image format: a sequence of 3-byte big-endian words with no
//! header, length prefix or padding.

use vstd::prelude::*;
use byteorder::{BigEndian, ByteOrder};
use crate::types::{coerce_mima_value, wrap_value, MimaValue};

verus! {

/// A binary image whose length is not a multiple of the word size.
#[derive(Clone, Copy, Debug, PartialEq, Eq, Structural)]
pub struct MalformedBinaryError {
    pub len: usize,
}

/// The big-endian 24-bit number in bytes `at`, `at + 1` and `at + 2` of `b`.
pub open spec fn be24(b: Seq<u8>, at: int) -> int {
    b[at] as int * 0x1_0000 + b[at + 1] as int * 0x100 + b[at + 2] as int
}

/// The words of image `b`, whose length is a multiple of three.
pub open spec fn image_words(b: Seq<u8>) -> Seq<u32> {
    Seq::new(b.len() / 3, |i: int| be24(b, 3 * i) as u32)
}

/// The three bytes, most significant first, of a 24-bit number `n`.
pub open spec fn word_bytes(n: int) -> Seq<u8> {
    seq![(n / 0x1_0000) as u8, ((n / 0x100) % 0x100) as u8, (n % 0x100) as u8]
}

/// The image of `ws`, each word wrapped into the value space.
pub open spec fn image_of(ws: Seq<u32>) -> Seq<u8>
    decreases ws.len(),
{
    if ws.len() == 0 {
        Seq::empty()
    } else {
        image_of(ws.drop_last()) + word_bytes(wrap_value(ws.last() as int))
    }
}

/// Relies on byteorder's `BigEndian::read_u24`: the three bytes from `at`
/// on, most significant first.
#[verifier::external_body]
fn read_u24_at(bytes: &Vec<u8>, at: usize) -> (r: u32)
    requires
        at + 3 <= bytes.len(),
    ensures
        r == be24(bytes@, at as int),
{
    BigEndian::read_u24(&bytes[at..])
}

/// Relies on byteorder's `BigEndian::write_u24`: `n`, below 2^24, as three
/// bytes, most significant first.
#[verifier::external_body]
fn write_u24(n: u32) -> (r: [u8; 3])
    requires
        n < 0x100_0000,
    ensures
        r@ == word_bytes(n as int),
{
    let mut buf = [0u8; 3];
    BigEndian::write_u24(&mut buf, n);
    buf
}

/// Reads a binary image into its words.
pub fn read_all_mima_vals(bytes: &Vec<u8>) -> (r: Result<Vec<MimaValue>, MalformedBinaryError>)
    ensures
        bytes.len() % 3 == 0 ==> (r matches Ok(v) && v@ == image_words(bytes@)),
        bytes.len() % 3 != 0 ==> r == Err::<Vec<MimaValue>, MalformedBinaryError>(
            (MalformedBinaryError { len: bytes.len() }),
        ),
{
    let n = bytes.len();
    if n % 3 != 0 {
        return Err(MalformedBinaryError { len: n });
    }
    let count = n / 3;
    let mut values: Vec<MimaValue> = Vec::new();
    let mut i: usize = 0;
    while i < count
        invariant
            count == bytes.len() / 3,
            bytes.len() % 3 == 0,
            i <= count,
            values@ =~= image_words(bytes@).take(i as int),
        decreases count - i,
    {
        let w = read_u24_at(bytes, 3 * i);
        values.push(w);
        i = i + 1;
    }
    assert(values@ =~= image_words(bytes@));
    Ok(values)
}

/// Writes words as a binary image, each wrapped into the value space.
pub fn write_all_mima_vals(vals: &Vec<MimaValue>) -> (r: Vec<u8>)
    ensures
        r@ == image_of(vals@),
        r.len() == 3 * vals.len(),
{
    let mut out: Vec<u8> = Vec::new();
    let mut i: usize = 0;
    while i < vals.len()
        invariant
            i <= vals.len(),
            out@ == image_of(vals@.take(i as int)),
            out.len() == 3 * i,
        decreases vals.len() - i,
    {
        let b = write_u24(coerce_mima_value(vals[i]));
        out.push(b[0]);
        out.push(b[1]);
        out.push(b[2]);
        assert(vals@.take(i + 1).drop_last() =~= vals@.take(i as int));
        i = i + 1;
        assert(out@ =~= image_of(vals@.take(i as int)));
    }
    assert(vals@.take(i as int) =~= vals@);
    out
}

proof fn lemma_image_len(ws: Seq<u32>)
    ensures
        image_of(ws).len() == 3 * ws.len(),
    decreases ws.len(),
{
    if ws.len() > 0 {
        lemma_image_len(ws.drop_last());
    }
}

proof fn lemma_image_prefix(ws: Seq<u32>, i: int)
    requires
        0 <= i < ws.len(),
    ensures
        image_of(ws).subrange(3 * i, 3 * i + 3) == word_bytes(wrap_value(ws[i] as int)),
    decreases ws.len(),
{
    lemma_image_len(ws.drop_last());
    let pre = image_of(ws.drop_last());
    let last = word_bytes(wrap_value(ws.last() as int));
    if i < ws.len() - 1 {
        lemma_image_prefix(ws.drop_last(), i);
        assert((pre + last).subrange(3 * i, 3 * i + 3) =~= pre.subrange(3 * i, 3 * i + 3));
    } else {
        assert((pre + last).subrange(3 * i, 3 * i + 3) =~= last);
    }
}

/// Writing words as an image and reading the image back gives the words,
/// each wrapped into the value space.
pub proof fn lemma_image_round_trip(ws: Seq<u32>)
    ensures
        image_of(ws).len() % 3 == 0,
        image_words(image_of(ws)) == ws.map_values(|v: u32| wrap_value(v as int) as u32),
{
    lemma_image_len(ws);
    let b = image_of(ws);
    assert forall|i: int| 0 <= i < ws.len() implies be24(b, 3 * i) == wrap_value(ws[i] as int) by {
        lemma_image_prefix(ws, i);
        let n = wrap_value(ws[i] as int);
        assert(b[3 * i] == b.subrange(3 * i, 3 * i + 3)[0]);
        assert(b[3 * i + 1] == b.subrange(3 * i, 3 * i + 3)[1]);
        assert(b[3 * i + 2] == b.subrange(3 * i, 3 * i + 3)[2]);
        assert(0 <= n < 0x100_0000);
        assert((n / 0x1_0000) * 0x1_0000 + ((n / 0x100) % 0x100) * 0x100 + n % 0x100 == n)
            by (nonlinear_arith)
            requires
                0 <= n < 0x100_0000,
        ;
    }
    assert(image_words(b) =~= ws.map_values(|v: u32| wrap_value(v as int) as u32));
}

} // verus!
