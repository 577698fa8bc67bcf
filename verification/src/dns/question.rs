//! One entry of the question section.

use crate::dns::append_rname;
use crate::dns::name::{
    lemma_name_cut, lemma_name_read_bounds, lemma_name_roundtrip, name_canonical, name_fits,
    name_read, name_wire,
};
use crate::dns::{QClass, QType};
use crate::error::CodecError;
use crate::wire::{be16, be16_bytes, lemma_be16_roundtrip, push_u16};
use vstd::prelude::*;

verus! {

/// A question: the name asked about, and the type and class asked for.
#[derive(Debug, PartialEq)]
pub struct Question {
    pub qname: String,
    pub qtype: QType,
    pub qclass: QClass,
}

/// A question as a mathematical value: its name is a sequence of characters.
pub struct QuestionView {
    pub qname: Seq<char>,
    pub qtype: QType,
    pub qclass: QClass,
}

impl View for Question {
    type V = QuestionView;

    open spec fn view(&self) -> QuestionView {
        QuestionView { qname: self.qname@, qtype: self.qtype, qclass: self.qclass }
    }
}

impl QuestionView {
    /// Whether this question can be encoded: its name can.
    pub open spec fn fits(self) -> bool {
        name_fits(self.qname)
    }

    /// Whether this question is written the way it is read: its name is
    /// canonical.
    pub open spec fn canonical(self) -> bool {
        name_canonical(self.qname)
    }

    /// This question on the wire: the name, then type and class as
    /// big-endian 16-bit codes.
    pub open spec fn wire(self) -> Seq<u8> {
        name_wire(self.qname) + be16_bytes(self.qtype.code()) + be16_bytes(self.qclass.code())
    }

    /// What reading a question gives: the question and how many octets it
    /// took, or the first failure on the way through name, type and class.
    pub open spec fn read(bytes: Seq<u8>) -> Result<(QuestionView, int), CodecError> {
        match name_read(bytes) {
            Err(e) => Err(e),
            Ok((qname, n)) => if bytes.len() < n + 2 {
                Err(CodecError::Truncated)
            } else {
                match QType::from_code(be16(bytes[n], bytes[n + 1])) {
                    Err(e) => Err(e),
                    Ok(qtype) => if bytes.len() < n + 4 {
                        Err(CodecError::Truncated)
                    } else {
                        match QClass::from_code(be16(bytes[n + 2], bytes[n + 3])) {
                            Err(e) => Err(e),
                            Ok(qclass) => Ok((QuestionView { qname, qtype, qclass }, n + 4)),
                        }
                    },
                }
            },
        }
    }
}

impl Question {
    /// Encodes this question. Fails with `LabelTooLong` exactly where a label
    /// of the name is longer than 255 octets.
    pub fn to_bytes(&self) -> (r: Result<Vec<u8>, CodecError>)
        ensures
            match r {
                Ok(bytes) => self@.fits() && bytes@ == self@.wire(),
                Err(e) => !self@.fits() && e == CodecError::LabelTooLong,
            },
    {
        let mut bytes: Vec<u8> = Vec::new();

        append_rname(&mut bytes, &self.qname)?;
        push_u16(&mut bytes, self.qtype.to_u16());
        push_u16(&mut bytes, self.qclass.to_u16());

        Ok(bytes)
    }
}

/// A canonical question reads back from its wire form as it was, whatever
/// follows that form.
pub proof fn lemma_question_roundtrip(q: QuestionView, rest: Seq<u8>)
    requires
        q.canonical(),
    ensures
        q.fits(),
        QuestionView::read(q.wire() + rest) == Ok::<(QuestionView, int), CodecError>(
            (q, q.wire().len() as int),
        ),
{
    let name = name_wire(q.qname);
    let n = name.len() as int;
    let after = be16_bytes(q.qtype.code()) + be16_bytes(q.qclass.code()) + rest;
    let bytes = q.wire() + rest;
    lemma_name_roundtrip(q.qname, after);
    lemma_be16_roundtrip(q.qtype.code());
    lemma_be16_roundtrip(q.qclass.code());
    assert(bytes =~= name + after);
    assert(bytes[n] == be16_bytes(q.qtype.code())[0]);
    assert(bytes[n + 1] == be16_bytes(q.qtype.code())[1]);
    assert(bytes[n + 2] == be16_bytes(q.qclass.code())[0]);
    assert(bytes[n + 3] == be16_bytes(q.qclass.code())[1]);
}

/// The wire form of a canonical question, cut short anywhere, fails to read
/// as `Truncated`.
pub proof fn lemma_question_cut(q: QuestionView, j: int)
    requires
        q.canonical(),
        0 <= j < q.wire().len(),
    ensures
        QuestionView::read(q.wire().take(j)) == Err::<(QuestionView, int), CodecError>(
            CodecError::Truncated,
        ),
{
    let name = name_wire(q.qname);
    let n = name.len() as int;
    let codes = be16_bytes(q.qtype.code()) + be16_bytes(q.qclass.code());
    let bytes = q.wire().take(j);
    if j < n {
        lemma_name_cut(q.qname, j);
        assert(bytes =~= name.take(j));
    } else {
        let after = codes.take(j - n);
        lemma_name_roundtrip(q.qname, after);
        lemma_be16_roundtrip(q.qtype.code());
        assert(bytes =~= name + after);
        if j >= n + 2 {
            assert(bytes[n] == be16_bytes(q.qtype.code())[0]);
            assert(bytes[n + 1] == be16_bytes(q.qtype.code())[1]);
        }
    }
}

/// A question is refused for the first code in it that is not in its table:
/// behind a name that reads, an unknown type fails as `UnsupportedQType`,
/// and behind a known type an unknown class fails as `UnsupportedQClass`.
pub proof fn lemma_question_refuses_unknown_codes(bytes: Seq<u8>)
    requires
        name_read(bytes) is Ok,
        bytes.len() >= name_read(bytes)->Ok_0.1 + 2,
    ensures
        ({
            let n = name_read(bytes)->Ok_0.1;
            let t = be16(bytes[n], bytes[n + 1]);
            &&& !(t == 1 || t == 2 || t == 5 || t == 12 || t == 28) ==> QuestionView::read(bytes)
                == Err::<(QuestionView, int), CodecError>(CodecError::UnsupportedQType)
            &&& (t == 1 || t == 2 || t == 5 || t == 12 || t == 28) && bytes.len() >= n + 4 && !({
                let c = be16(bytes[n + 2], bytes[n + 3]);
                c == 1 || c == 255
            }) ==> QuestionView::read(bytes) == Err::<(QuestionView, int), CodecError>(
                CodecError::UnsupportedQClass,
            )
        }),
{
}

/// What a question read took lies within the octets it was given.
pub proof fn lemma_question_read_bounds(bytes: Seq<u8>)
    ensures
        QuestionView::read(bytes) matches Ok((_, n)) ==> 5 <= n <= bytes.len(),
{
    lemma_name_read_bounds(bytes);
}

} // verus!
