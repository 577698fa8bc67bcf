//! The model of a domain name on the wire.
//!
//! In memory a name is its labels joined by dots. On the wire every label
//! that is not empty stands behind one octet that holds its length, and a
//! zero octet ends the name.

use crate::error::CodecError;
use vstd::prelude::*;
use vstd::utf8::{
    decode_utf8, decode_utf8_split, encode_utf8, encode_utf8_decode_utf8, encode_utf8_valid_utf8,
    is_ascii_chars, is_ascii_chars_encode_utf8, is_char_boundary_iff_not_is_continuation_byte,
    valid_utf8, valid_utf8_split,
};

verus! {

/// The octet that separates the labels of a name in memory.
pub const DOT: u8 = 46;

/// How many octets stand before the first dot of `raw`, or all of them where
/// it holds no dot.
pub open spec fn first_label_len(raw: Seq<u8>) -> nat
    decreases raw.len(),
{
    if raw.len() == 0 || raw[0] == DOT {
        0
    } else {
        1 + first_label_len(raw.skip(1))
    }
}

/// One label on the wire: its length, then its octets. An empty label leaves
/// nothing.
pub open spec fn label_wire(label: Seq<u8>) -> Seq<u8> {
    if label.len() == 0 {
        Seq::empty()
    } else {
        seq![label.len() as u8] + label
    }
}

/// The labels of the dot-joined octets `raw` on the wire, one after another.
pub open spec fn labels_wire(raw: Seq<u8>) -> Seq<u8>
    decreases raw.len(),
{
    let k = first_label_len(raw) as int;
    if k < raw.len() {
        label_wire(raw.take(k)) + labels_wire(raw.skip(k + 1))
    } else {
        label_wire(raw)
    }
}

/// Whether the length of every label of `raw` fits one octet.
pub open spec fn labels_fit(raw: Seq<u8>) -> bool
    decreases raw.len(),
{
    let k = first_label_len(raw) as int;
    k <= 255 && (k < raw.len() ==> labels_fit(raw.skip(k + 1)))
}

/// Whether a name can be encoded: no label of it is longer than 255 octets.
pub open spec fn name_fits(name: Seq<char>) -> bool {
    labels_fit(encode_utf8(name))
}

/// A name on the wire: its labels, then the zero octet.
pub open spec fn name_wire(name: Seq<char>) -> Seq<u8> {
    labels_wire(encode_utf8(name)) + seq![0u8]
}

/// Whether each label of the dot-joined octets `raw` holds 1 to 255 octets.
pub open spec fn labels_canonical(raw: Seq<u8>) -> bool
    decreases raw.len(),
{
    let k = first_label_len(raw) as int;
    1 <= k <= 255 && (k < raw.len() ==> labels_canonical(raw.skip(k + 1)))
}

/// Whether a name is written the way it is read: it is empty, or each of
/// its labels holds 1 to 255 octets, so that no dot stands first, last or
/// beside another.
pub open spec fn name_canonical(name: Seq<char>) -> bool {
    name.len() == 0 || labels_canonical(encode_utf8(name))
}

/// The text that the octets `raw` are the UTF-8 form of, where they are
/// one. It is opaque, so that what reads names need not look into UTF-8:
/// reveal it to reason with the model of UTF-8.
#[verifier::opaque]
pub open spec fn text_of(raw: Seq<u8>) -> Option<Seq<char>> {
    if valid_utf8(raw) {
        Some(decode_utf8(raw))
    } else {
        None
    }
}

/// What reading one label gives: the text of the label and how many octets
/// it took, the length octet included. A zero length octet gives the empty
/// label.
pub open spec fn label_read(bytes: Seq<u8>) -> Result<(Seq<char>, int), CodecError> {
    if bytes.len() == 0 {
        Err(CodecError::Truncated)
    } else if bytes.len() < 1 + bytes[0] {
        Err(CodecError::Truncated)
    } else {
        match text_of(bytes.subrange(1, 1 + bytes[0])) {
            Some(label) => Ok((label, 1 + bytes[0])),
            None => Err(CodecError::InvalidLabel),
        }
    }
}

/// A label in front of the labels that follow it, a dot between them.
pub open spec fn join_label(label: Seq<char>, tail: Seq<char>) -> Seq<char> {
    if tail.len() == 0 {
        label
    } else {
        label + seq!['.'] + tail
    }
}

/// What reading a name gives: the labels up to the first zero length octet,
/// joined by dots, and how many octets they took, that zero octet included.
pub open spec fn name_read(bytes: Seq<u8>) -> Result<(Seq<char>, int), CodecError>
    decreases bytes.len(),
{
    match label_read(bytes) {
        Err(e) => Err(e),
        Ok((label, n)) => if n == 1 {
            Ok((Seq::empty(), 1))
        } else {
            match name_read(bytes.skip(n)) {
                Err(e) => Err(e),
                Ok((tail, m)) => Ok((join_label(label, tail), n + m)),
            }
        },
    }
}

/// Labels joined with a dot behind each, without the last dot.
pub open spec fn trimmed(acc: Seq<char>) -> Seq<char> {
    if acc.len() > 0 {
        acc.drop_last()
    } else {
        acc
    }
}

/// What reading a name gives once labels have been read: `acc` holds them,
/// each with a dot behind it, `used` octets went into them, and `tail` is
/// what reading the rest of the name gives.
pub open spec fn name_after(
    acc: Seq<char>,
    used: int,
    tail: Result<(Seq<char>, int), CodecError>,
) -> Result<(Seq<char>, int), CodecError> {
    match tail {
        Err(e) => Err(e),
        Ok((t, m)) => Ok(
            (
                if t.len() > 0 {
                    acc + t
                } else {
                    trimmed(acc)
                },
                used + m,
            ),
        ),
    }
}

/// Well-formed octets that are not empty hold at least one character.
proof fn lemma_decoded_label_not_empty(raw: Seq<u8>)
    requires
        valid_utf8(raw),
        raw.len() > 0,
    ensures
        decode_utf8(raw).len() > 0,
{
}

/// The label that was read is empty exactly where its length octet is zero.
pub(crate) proof fn lemma_label_read_empty(bytes: Seq<u8>)
    ensures
        label_read(bytes) matches Ok((label, n)) ==> (label.len() == 0 <==> n == 1),
{
    reveal(text_of);
    if bytes.len() > 0 && bytes.len() >= 1 + bytes[0] {
        let raw = bytes.subrange(1, 1 + bytes[0]);
        if valid_utf8(raw) && raw.len() > 0 {
            lemma_decoded_label_not_empty(raw);
        }
    }
}

/// Reading a name whose first label is not empty reads that label, then the
/// rest of the name, and puts the label in front.
pub(crate) proof fn lemma_name_read_step(acc: Seq<char>, used: int, bytes: Seq<u8>)
    requires
        label_read(bytes) is Ok,
        label_read(bytes)->Ok_0.1 > 1,
    ensures
        name_after(acc, used, name_read(bytes)) == name_after(
            acc + label_read(bytes)->Ok_0.0 + seq!['.'],
            used + label_read(bytes)->Ok_0.1,
            name_read(bytes.skip(label_read(bytes)->Ok_0.1)),
        ),
{
    let label = label_read(bytes)->Ok_0.0;
    let n = label_read(bytes)->Ok_0.1;
    lemma_label_read_empty(bytes);
    match name_read(bytes.skip(n)) {
        Err(e) => {},
        Ok((t, m)) => {
            if t.len() == 0 {
                assert((acc + label + seq!['.']).drop_last() =~= acc + label);
            } else {
                assert(acc + (label + seq!['.'] + t) =~= acc + label + seq!['.'] + t);
            }
        },
    }
}

/// The first label ends where the first dot stands.
pub(crate) proof fn lemma_first_label_len(raw: Seq<u8>, k: int)
    requires
        0 <= k <= raw.len(),
        forall|i: int| 0 <= i < k ==> raw[i] != DOT,
        k < raw.len() ==> raw[k] == DOT,
    ensures
        first_label_len(raw) == k,
    decreases k,
{
    if k > 0 {
        lemma_first_label_len(raw.skip(1), k - 1);
    }
}

/// The first label holds no dot, and a dot follows it unless the name ends.
proof fn lemma_first_label_bounds(raw: Seq<u8>)
    ensures
        first_label_len(raw) <= raw.len(),
        forall|i: int| 0 <= i < first_label_len(raw) ==> raw[i] != DOT,
        first_label_len(raw) < raw.len() ==> raw[first_label_len(raw) as int] == DOT,
    decreases raw.len(),
{
    if raw.len() == 0 || raw[0] == DOT {
    } else {
        let rest = raw.skip(1);
        lemma_first_label_bounds(rest);
        assert forall|i: int| 0 <= i < first_label_len(raw) implies raw[i] != DOT by {
            if i > 0 {
                assert(raw[i] == rest[i - 1]);
            }
        }
    }
}

/// Text that is cut at a dot: the octets before the dot and those after it
/// are text too, and the whole is the first part, a dot, and the second.
proof fn lemma_split_at_dot(raw: Seq<u8>, k: int)
    requires
        valid_utf8(raw),
        0 <= k < raw.len(),
        raw[k] == DOT,
    ensures
        valid_utf8(raw.take(k)),
        valid_utf8(raw.skip(k + 1)),
        decode_utf8(raw) == decode_utf8(raw.take(k)) + seq!['.'] + decode_utf8(raw.skip(k + 1)),
{
    is_char_boundary_iff_not_is_continuation_byte(raw, k);
    valid_utf8_split(raw, k);
    decode_utf8_split(raw, k);
    let dotted = raw.subrange(k, raw.len() as int);
    assert(dotted[0] == DOT);
    assert(raw.take(k) =~= raw.subrange(0, k));
    assert(dotted.subrange(1, dotted.len() as int) =~= raw.skip(k + 1));
    assert(46u8 & 0x7F == 46u8) by (bit_vector);
    assert(decode_utf8(dotted) =~= seq!['.'] + decode_utf8(raw.skip(k + 1)));
}

/// Labels of 1 to 255 octets each, once written, read back as the text they
/// are the octets of.
proof fn lemma_labels_roundtrip(raw: Seq<u8>, rest: Seq<u8>)
    requires
        valid_utf8(raw),
        labels_canonical(raw),
    ensures
        labels_fit(raw),
        decode_utf8(raw).len() > 0,
        name_read(labels_wire(raw) + seq![0u8] + rest) == Ok::<(Seq<char>, int), CodecError>(
            (decode_utf8(raw), (labels_wire(raw).len() + 1) as int),
        ),
    decreases raw.len(),
{
    reveal(text_of);
    let k = first_label_len(raw) as int;
    lemma_first_label_bounds(raw);
    let bytes = labels_wire(raw) + seq![0u8] + rest;
    let end = seq![0u8] + rest;
    assert(label_read(end) == Ok::<(Seq<char>, int), CodecError>((Seq::empty(), 1))) by {
        assert(end.subrange(1, 1) =~= Seq::<u8>::empty());
    }
    assert(name_read(end) == Ok::<(Seq<char>, int), CodecError>((Seq::empty(), 1)));
    if k < raw.len() {
        let label = raw.take(k);
        let tail = raw.skip(k + 1);
        lemma_split_at_dot(raw, k);
        lemma_labels_roundtrip(tail, rest);
        lemma_decoded_label_not_empty(label);
        assert(bytes[0] == k);
        assert(bytes.subrange(1, 1 + k) =~= label);
        assert(bytes.skip(1 + k) =~= labels_wire(tail) + seq![0u8] + rest);
    } else {
        lemma_decoded_label_not_empty(raw);
        assert(bytes[0] == k);
        assert(bytes.subrange(1, 1 + k) =~= raw);
        assert(bytes.skip(1 + k) =~= end);
    }
}

/// A name whose labels hold 1 to 255 octets each, and the empty name, read
/// back from their wire form as they were, whatever follows that form.
pub proof fn lemma_name_roundtrip(name: Seq<char>, rest: Seq<u8>)
    requires
        name_canonical(name),
    ensures
        name_fits(name),
        name_read(name_wire(name) + rest) == Ok::<(Seq<char>, int), CodecError>(
            (name, name_wire(name).len() as int),
        ),
{
    reveal(text_of);
    let raw = encode_utf8(name);
    if name.len() == 0 {
        let end = seq![0u8] + rest;
        assert(raw =~= Seq::<u8>::empty());
        assert(name_wire(name) + rest =~= end);
        assert(end.subrange(1, 1) =~= Seq::<u8>::empty());
        assert(label_read(end) == Ok::<(Seq<char>, int), CodecError>((Seq::empty(), 1)));
        assert(name =~= Seq::<char>::empty());
    } else {
        encode_utf8_valid_utf8(name);
        encode_utf8_decode_utf8(name);
        lemma_labels_roundtrip(raw, rest);
    }
}

/// Labels of 1 to 255 octets each, written and then cut short, fail to read
/// as `Truncated`.
proof fn lemma_labels_cut(raw: Seq<u8>, j: int)
    requires
        valid_utf8(raw),
        labels_canonical(raw),
        0 <= j <= labels_wire(raw).len(),
    ensures
        name_read((labels_wire(raw) + seq![0u8]).take(j)) == Err::<(Seq<char>, int), CodecError>(
            CodecError::Truncated,
        ),
    decreases raw.len(),
{
    reveal(text_of);
    let k = first_label_len(raw) as int;
    lemma_first_label_bounds(raw);
    let whole = labels_wire(raw) + seq![0u8];
    let bytes = whole.take(j);
    if j >= 1 + k {
        assert(bytes[0] == k);
        if k < raw.len() {
            let tail = raw.skip(k + 1);
            lemma_split_at_dot(raw, k);
            lemma_labels_cut(tail, j - 1 - k);
            assert(bytes.subrange(1, 1 + k) =~= raw.take(k));
            assert(bytes.skip(1 + k) =~= (labels_wire(tail) + seq![0u8]).take(j - 1 - k));
        } else {
            assert(bytes.subrange(1, 1 + k) =~= raw);
            assert(bytes.skip(1 + k) =~= Seq::<u8>::empty());
        }
        assert(label_read(bytes) is Ok);
        assert(name_read(bytes.skip(1 + k)) is Err);
    } else if j >= 1 {
        assert(bytes[0] == k);
    }
}

/// The wire form of a canonical name, cut short anywhere, fails to read as
/// `Truncated`.
pub proof fn lemma_name_cut(name: Seq<char>, j: int)
    requires
        name_canonical(name),
        0 <= j < name_wire(name).len(),
    ensures
        name_read(name_wire(name).take(j)) == Err::<(Seq<char>, int), CodecError>(
            CodecError::Truncated,
        ),
{
    let raw = encode_utf8(name);
    if name.len() == 0 {
        assert(raw =~= Seq::<u8>::empty());
    } else {
        encode_utf8_valid_utf8(name);
        lemma_labels_cut(raw, j);
    }
}

/// What a name read took lies within the octets it was given.
pub proof fn lemma_name_read_bounds(bytes: Seq<u8>)
    ensures
        name_read(bytes) matches Ok((_, n)) ==> 1 <= n <= bytes.len(),
    decreases bytes.len(),
{
    match label_read(bytes) {
        Err(_) => {},
        Ok((_, n)) => {
            if n > 1 {
                lemma_name_read_bounds(bytes.skip(n));
            }
        },
    }
}

/// Octets below 128 are ASCII text: each is the character of its own code.
pub proof fn lemma_text_of_ascii(raw: Seq<u8>)
    requires
        forall|i: int| 0 <= i < raw.len() ==> raw[i] < 128,
    ensures
        text_of(raw) == Some(Seq::new(raw.len(), |i: int| raw[i] as char)),
{
    reveal(text_of);
    let chars = Seq::new(raw.len(), |i: int| raw[i] as char);
    assert(is_ascii_chars(chars));
    is_ascii_chars_encode_utf8(chars);
    assert(encode_utf8(chars) =~= raw);
    encode_utf8_valid_utf8(chars);
    encode_utf8_decode_utf8(chars);
}

/// ASCII text is on the wire what it is in memory: each character is the
/// octet of its code.
pub proof fn lemma_ascii_octets(name: Seq<char>)
    requires
        is_ascii_chars(name),
    ensures
        encode_utf8(name) == Seq::new(name.len(), |i: int| name[i] as u8),
{
    is_ascii_chars_encode_utf8(name);
    assert(encode_utf8(name) =~= Seq::new(name.len(), |i: int| name[i] as u8));
}

} // verus!
