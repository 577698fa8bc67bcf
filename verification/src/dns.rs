//! The code tables shared by questions and resource records, and the
//! encoder of domain names.

use crate::dns::name::{
    label_wire, labels_fit, labels_wire, lemma_first_label_len, name_fits, name_wire, DOT,
};
use crate::error::CodecError;
use std::convert::TryFrom;
use vstd::prelude::*;
use vstd::slice::slice_subrange;
use vstd::std_specs::convert::TryFromSpecImpl;
use vstd::utf8::encode_utf8;

pub mod header;
pub mod message;
pub mod message_proofs;
pub mod name;
pub mod question;
pub mod resourcerecord;

verus! {

/// Appends the wire form of the name `s` to `bytes`: for every label of `s`
/// that is not empty its length and its octets, then a zero octet. Where a
/// label is longer than 255 octets nothing is appended.
pub fn append_rname(bytes: &mut Vec<u8>, s: &String) -> (r: Result<(), CodecError>)
    ensures
        match r {
            Ok(()) => name_fits(s@) && final(bytes)@ == old(bytes)@ + name_wire(s@),
            Err(e) => !name_fits(s@) && e == CodecError::LabelTooLong && final(bytes)@ == old(
                bytes,
            )@,
        },
{
    let raw: &[u8] = s.as_str().as_bytes();
    let n: usize = raw.len();
    let start: usize = bytes.len();
    let ghost mut out: Seq<u8> = Seq::empty();
    let mut pos: usize = 0;
    let mut more: bool = true;
    assert(raw@.skip(0) =~= raw@);
    while more
        invariant
            raw@ == encode_utf8(s@),
            n == raw@.len(),
            start == old(bytes)@.len(),
            bytes@ == old(bytes)@ + out,
            more ==> pos <= n,
            more ==> labels_wire(raw@) == out + labels_wire(raw@.skip(pos as int)),
            more ==> labels_fit(raw@) == labels_fit(raw@.skip(pos as int)),
            !more ==> labels_wire(raw@) == out && labels_fit(raw@),
        decreases
                (if more {
                    n - pos + 1
                } else {
                    0
                }),
    {
        let ghost tail = raw@.skip(pos as int);
        let mut end: usize = pos;
        while end < n && raw[end] != DOT
            invariant
                n == raw@.len(),
                pos <= end <= n,
                forall|i: int| pos <= i < end ==> raw@[i] != DOT,
            decreases n - end,
        {
            end += 1;
        }
        let len: usize = end - pos;
        proof {
            lemma_first_label_len(tail, len as int);
            assert(tail.take(len as int) =~= raw@.subrange(pos as int, end as int));
            if end < n {
                assert(tail.skip(len + 1) =~= raw@.skip(end + 1));
            } else {
                assert(tail.take(len as int) =~= tail);
            }
        }
        if len > 255 {
            bytes.truncate(start);
            assert(bytes@ =~= old(bytes)@);
            return Err(CodecError::LabelTooLong);
        }
        if len > 0 {
            bytes.push(len as u8);
            bytes.extend_from_slice(slice_subrange(raw, pos, end));
        }
        proof {
            let label = raw@.subrange(pos as int, end as int);
            assert(bytes@ =~= old(bytes)@ + (out + label_wire(label)));
            if end < n {
                assert(out + labels_wire(tail) =~= (out + label_wire(label)) + labels_wire(
                    raw@.skip(end + 1),
                ));
            }
            out = out + label_wire(label);
        }
        if end == n {
            more = false;
        } else {
            pos = end + 1;
        }
    }
    bytes.push(0);
    assert(bytes@ =~= old(bytes)@ + name_wire(s@));
    Ok(())
}

/// The record type a question asks for.
#[derive(Clone, Copy, Debug, PartialEq, Eq)]
pub enum QType {
    A,
    AAAA,
    NS,
    CNAME,
    PTR,
}

impl QType {
    /// The code of this type on the wire.
    pub open spec fn code(self) -> u16 {
        match self {
            QType::A => 1,
            QType::AAAA => 28,
            QType::NS => 2,
            QType::CNAME => 5,
            QType::PTR => 12,
        }
    }

    /// The type that a wire code stands for; every other code is refused.
    pub open spec fn from_code(c: u16) -> Result<QType, CodecError> {
        if c == 1 {
            Ok(QType::A)
        } else if c == 28 {
            Ok(QType::AAAA)
        } else if c == 2 {
            Ok(QType::NS)
        } else if c == 5 {
            Ok(QType::CNAME)
        } else if c == 12 {
            Ok(QType::PTR)
        } else {
            Err(CodecError::UnsupportedQType)
        }
    }

    /// The code of this type on the wire.
    pub fn to_u16(self) -> (c: u16)
        ensures
            c == self.code(),
    {
        match self {
            QType::A => 1,
            QType::AAAA => 28,
            QType::NS => 2,
            QType::CNAME => 5,
            QType::PTR => 12,
        }
    }
}

impl TryFrom<u16> for QType {
    type Error = CodecError;

    fn try_from(i: u16) -> (r: Result<Self, Self::Error>) {
        match i {
            1 => Ok(QType::A),
            28 => Ok(QType::AAAA),
            2 => Ok(QType::NS),
            5 => Ok(QType::CNAME),
            12 => Ok(QType::PTR),
            _ => Err(CodecError::UnsupportedQType),
        }
    }
}

impl TryFromSpecImpl<u16> for QType {
    open spec fn obeys_try_from_spec() -> bool {
        true
    }

    open spec fn try_from_spec(v: u16) -> Result<Self, Self::Error> {
        QType::from_code(v)
    }
}

/// The type of a resource record, which selects the shape of its data.
#[derive(Clone, Copy, Debug, PartialEq, Eq)]
pub enum Type {
    A,
    AAAA,
    NS,
    CNAME,
    PTR,
}

impl Type {
    /// The code of this type on the wire.
    pub open spec fn code(self) -> u16 {
        match self {
            Type::A => 1,
            Type::AAAA => 28,
            Type::NS => 2,
            Type::CNAME => 5,
            Type::PTR => 12,
        }
    }

    /// The type that a wire code stands for; every other code is refused.
    pub open spec fn from_code(c: u16) -> Result<Type, CodecError> {
        if c == 1 {
            Ok(Type::A)
        } else if c == 28 {
            Ok(Type::AAAA)
        } else if c == 2 {
            Ok(Type::NS)
        } else if c == 5 {
            Ok(Type::CNAME)
        } else if c == 12 {
            Ok(Type::PTR)
        } else {
            Err(CodecError::UnsupportedType)
        }
    }

    /// The code of this type on the wire.
    pub fn to_u16(self) -> (c: u16)
        ensures
            c == self.code(),
    {
        match self {
            Type::A => 1,
            Type::AAAA => 28,
            Type::NS => 2,
            Type::CNAME => 5,
            Type::PTR => 12,
        }
    }
}

impl TryFrom<u16> for Type {
    type Error = CodecError;

    fn try_from(i: u16) -> (r: Result<Self, Self::Error>) {
        match i {
            1 => Ok(Type::A),
            28 => Ok(Type::AAAA),
            2 => Ok(Type::NS),
            5 => Ok(Type::CNAME),
            12 => Ok(Type::PTR),
            _ => Err(CodecError::UnsupportedType),
        }
    }
}

impl TryFromSpecImpl<u16> for Type {
    open spec fn obeys_try_from_spec() -> bool {
        true
    }

    open spec fn try_from_spec(v: u16) -> Result<Self, Self::Error> {
        Type::from_code(v)
    }
}

/// The class a question asks for.
#[derive(Clone, Copy, Debug, PartialEq, Eq)]
pub enum QClass {
    IN,
    Any,
}

impl QClass {
    /// The code of this class on the wire.
    pub open spec fn code(self) -> u16 {
        match self {
            QClass::IN => 1,
            QClass::Any => 255,
        }
    }

    /// The class that a wire code stands for; every other code is refused.
    pub open spec fn from_code(c: u16) -> Result<QClass, CodecError> {
        if c == 1 {
            Ok(QClass::IN)
        } else if c == 255 {
            Ok(QClass::Any)
        } else {
            Err(CodecError::UnsupportedQClass)
        }
    }

    /// The code of this class on the wire.
    pub fn to_u16(self) -> (c: u16)
        ensures
            c == self.code(),
    {
        match self {
            QClass::IN => 1,
            QClass::Any => 255,
        }
    }
}

impl TryFrom<u16> for QClass {
    type Error = CodecError;

    fn try_from(i: u16) -> (r: Result<Self, Self::Error>) {
        match i {
            1 => Ok(QClass::IN),
            255 => Ok(QClass::Any),
            _ => Err(CodecError::UnsupportedQClass),
        }
    }
}

impl TryFromSpecImpl<u16> for QClass {
    open spec fn obeys_try_from_spec() -> bool {
        true
    }

    open spec fn try_from_spec(v: u16) -> Result<Self, Self::Error> {
        QClass::from_code(v)
    }
}

/// The class of a resource record.
#[derive(Clone, Copy, Debug, PartialEq, Eq)]
pub enum Class {
    IN,
}

impl Class {
    /// The code of this class on the wire.
    pub open spec fn code(self) -> u16 {
        match self {
            Class::IN => 1,
        }
    }

    /// The class that a wire code stands for; every other code is refused.
    pub open spec fn from_code(c: u16) -> Result<Class, CodecError> {
        if c == 1 {
            Ok(Class::IN)
        } else {
            Err(CodecError::UnsupportedClass)
        }
    }

    /// The code of this class on the wire.
    pub fn to_u16(self) -> (c: u16)
        ensures
            c == self.code(),
    {
        match self {
            Class::IN => 1,
        }
    }
}

impl TryFrom<u16> for Class {
    type Error = CodecError;

    fn try_from(i: u16) -> (r: Result<Self, Self::Error>) {
        match i {
            1 => Ok(Class::IN),
            _ => Err(CodecError::UnsupportedClass),
        }
    }
}

impl TryFromSpecImpl<u16> for Class {
    open spec fn obeys_try_from_spec() -> bool {
        true
    }

    open spec fn try_from_spec(v: u16) -> Result<Self, Self::Error> {
        Class::from_code(v)
    }
}
/// Every code of the type and class tables stands for the value it is the
/// code of, and a code outside a table is refused with the failure of that
/// table.
pub proof fn lemma_codes(qtype: QType, rr_type: Type, qclass: QClass, class: Class, c: u16)
    ensures
        QType::from_code(qtype.code()) == Ok::<QType, CodecError>(qtype),
        Type::from_code(rr_type.code()) == Ok::<Type, CodecError>(rr_type),
        QClass::from_code(qclass.code()) == Ok::<QClass, CodecError>(qclass),
        Class::from_code(class.code()) == Ok::<Class, CodecError>(class),
        !(c == 1 || c == 2 || c == 5 || c == 12 || c == 28) ==> QType::from_code(c) == Err::<
            QType,
            CodecError,
        >(CodecError::UnsupportedQType) && Type::from_code(c) == Err::<Type, CodecError>(
            CodecError::UnsupportedType,
        ),
        !(c == 1 || c == 255) ==> QClass::from_code(c) == Err::<QClass, CodecError>(
            CodecError::UnsupportedQClass,
        ),
        c != 1 ==> Class::from_code(c) == Err::<Class, CodecError>(CodecError::UnsupportedClass),
{
}

} // verus!
