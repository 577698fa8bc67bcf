//! What every decoder and encoder stands on: how the result of a decoder is
//! held to its model, and big-endian integers with their readers and
//! writers.

use crate::error::CodecError;
use vstd::prelude::*;

verus! {

/// A decoder that returned `value` and the remainder `rest` of `input` did
/// what `model` says: `model` gives that value, and `rest` is `input`
/// without the octets that `model` says were taken.
pub open spec fn gives<V>(
    model: Result<(V, int), CodecError>,
    value: V,
    input: Seq<u8>,
    rest: Seq<u8>,
) -> bool {
    match model {
        Ok((v, n)) => v == value && 0 <= n <= input.len() && rest == input.skip(n),
        Err(_) => false,
    }
}

/// A decoder that failed with `e` did what `model` says: `model` fails, and
/// with that error.
pub open spec fn fails<V>(model: Result<(V, int), CodecError>, e: CodecError) -> bool {
    match model {
        Ok(_) => false,
        Err(x) => x == e,
    }
}

/// The 16-bit value whose big-endian octets are `hi`, `lo`.
pub open spec fn be16(hi: u8, lo: u8) -> u16 {
    (hi as int * 256 + lo as int) as u16
}

/// The 32-bit value whose big-endian octets are `b0` to `b3`.
pub open spec fn be32(b0: u8, b1: u8, b2: u8, b3: u8) -> u32 {
    (b0 as int * 16777216 + b1 as int * 65536 + b2 as int * 256 + b3 as int) as u32
}

/// The two big-endian octets of `x`.
pub open spec fn be16_bytes(x: u16) -> Seq<u8> {
    seq![(x / 256) as u8, (x % 256) as u8]
}

/// The four big-endian octets of `x`.
pub open spec fn be32_bytes(x: u32) -> Seq<u8> {
    seq![
        (x / 16777216) as u8,
        ((x / 65536) % 256) as u8,
        ((x / 256) % 256) as u8,
        (x % 256) as u8,
    ]
}

/// What is left behind `a` octets, and then behind `b` more, is what is
/// left behind `a + b`.
pub proof fn lemma_skip_again(s: Seq<u8>, a: int, b: int)
    requires
        0 <= a,
        0 <= b,
        a + b <= s.len(),
    ensures
        s.skip(a).skip(b) == s.skip(a + b),
{
    assert(s.skip(a).skip(b) =~= s.skip(a + b));
}

/// The big-endian octets of a 16-bit value give that value back.
pub proof fn lemma_be16_roundtrip(x: u16)
    ensures
        be16_bytes(x).len() == 2,
        be16(be16_bytes(x)[0], be16_bytes(x)[1]) == x,
{
}

/// The big-endian octets of a 32-bit value give that value back.
pub proof fn lemma_be32_roundtrip(x: u32)
    ensures
        be32_bytes(x).len() == 4,
        be32(be32_bytes(x)[0], be32_bytes(x)[1], be32_bytes(x)[2], be32_bytes(x)[3]) == x,
{
}

/// Reads one octet with nom's `number::complete::be_u8`: on an empty input
/// it fails, otherwise it hands back the first octet and the input after it.
#[verifier::external_body]
pub(crate) fn be_u8<'a>(input: &'a [u8]) -> (r: Option<(&'a [u8], u8)>)
    ensures
        r is None <==> input@.len() < 1,
        r matches Some((rest, v)) ==> rest@ == input@.skip(1) && v == input@[0],
{
    match nom::number::complete::be_u8::<&'a [u8], nom::error::Error<&'a [u8]>>(input) {
        Ok((rest, v)) => Some((rest, v)),
        Err(_) => None,
    }
}

/// Reads a big-endian 16-bit integer with nom's `number::complete::be_u16`:
/// with fewer than two octets it fails, otherwise it hands back the value of
/// the first two and the input after them.
#[verifier::external_body]
pub(crate) fn be_u16<'a>(input: &'a [u8]) -> (r: Option<(&'a [u8], u16)>)
    ensures
        r is None <==> input@.len() < 2,
        r matches Some((rest, v)) ==> rest@ == input@.skip(2) && v == be16(input@[0], input@[1]),
{
    match nom::number::complete::be_u16::<&'a [u8], nom::error::Error<&'a [u8]>>(input) {
        Ok((rest, v)) => Some((rest, v)),
        Err(_) => None,
    }
}

/// Reads a big-endian 32-bit integer with nom's `number::complete::be_u32`:
/// with fewer than four octets it fails, otherwise it hands back the value of
/// the first four and the input after them.
#[verifier::external_body]
pub(crate) fn be_u32<'a>(input: &'a [u8]) -> (r: Option<(&'a [u8], u32)>)
    ensures
        r is None <==> input@.len() < 4,
        r matches Some((rest, v)) ==> rest@ == input@.skip(4) && v == be32(
            input@[0],
            input@[1],
            input@[2],
            input@[3],
        ),
{
    match nom::number::complete::be_u32::<&'a [u8], nom::error::Error<&'a [u8]>>(input) {
        Ok((rest, v)) => Some((rest, v)),
        Err(_) => None,
    }
}

/// Reads one octet, or fails with `Truncated` where none is left.
pub fn read_u8<'a>(input: &'a [u8]) -> (r: Result<(&'a [u8], u8), CodecError>)
    ensures
        match r {
            Ok((rest, v)) => input@.len() >= 1 && rest@ == input@.skip(1) && v == input@[0],
            Err(e) => input@.len() < 1 && e == CodecError::Truncated,
        },
{
    match be_u8(input) {
        Some(found) => Ok(found),
        None => Err(CodecError::Truncated),
    }
}

/// Reads a big-endian 16-bit integer, or fails with `Truncated` where fewer
/// than two octets are left.
pub fn read_u16<'a>(input: &'a [u8]) -> (r: Result<(&'a [u8], u16), CodecError>)
    ensures
        match r {
            Ok((rest, v)) => input@.len() >= 2 && rest@ == input@.skip(2) && v == be16(
                input@[0],
                input@[1],
            ),
            Err(e) => input@.len() < 2 && e == CodecError::Truncated,
        },
{
    match be_u16(input) {
        Some(found) => Ok(found),
        None => Err(CodecError::Truncated),
    }
}

/// Reads a big-endian 32-bit integer, or fails with `Truncated` where fewer
/// than four octets are left.
pub fn read_u32<'a>(input: &'a [u8]) -> (r: Result<(&'a [u8], u32), CodecError>)
    ensures
        match r {
            Ok((rest, v)) => input@.len() >= 4 && rest@ == input@.skip(4) && v == be32(
                input@[0],
                input@[1],
                input@[2],
                input@[3],
            ),
            Err(e) => input@.len() < 4 && e == CodecError::Truncated,
        },
{
    match be_u32(input) {
        Some(found) => Ok(found),
        None => Err(CodecError::Truncated),
    }
}

/// Appends the two big-endian octets of `x`.
pub fn push_u16(bytes: &mut Vec<u8>, x: u16)
    ensures
        final(bytes)@ == old(bytes)@ + be16_bytes(x),
{
    assert((x >> 8) == x / 256) by (bit_vector);
    assert((x & 0xff) == x % 256) by (bit_vector);
    bytes.push((x >> 8) as u8);
    bytes.push((x & 0xff) as u8);
}

/// Appends the four big-endian octets of `x`.
pub fn push_u32(bytes: &mut Vec<u8>, x: u32)
    ensures
        final(bytes)@ == old(bytes)@ + be32_bytes(x),
{
    assert((x >> 24) == x / 16777216) by (bit_vector);
    assert(((x >> 16) & 0xff) == (x / 65536) % 256) by (bit_vector);
    assert(((x >> 8) & 0xff) == (x / 256) % 256) by (bit_vector);
    assert((x & 0xff) == x % 256) by (bit_vector);
    bytes.push((x >> 24) as u8);
    bytes.push(((x >> 16) & 0xff) as u8);
    bytes.push(((x >> 8) & 0xff) as u8);
    bytes.push((x & 0xff) as u8);
}

} // verus!
