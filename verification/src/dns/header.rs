//! The fixed twelve-octet header and its bit-packed flags.

use crate::error::CodecError;
use crate::wire::{be16, be16_bytes, lemma_be16_roundtrip, push_u16};
use std::convert::TryFrom;
use vstd::prelude::*;
use vstd::std_specs::convert::TryFromSpecImpl;

verus! {

/// The fields packed into the header's two flag octets: first octet
/// (direction, operation, authoritative, truncated, recursion desired), then
/// second octet (recursion available, response code).
pub type HeaderRow2 = ((QR, OpCode, bool, bool, bool), (bool, RespCode));

/// Whether a message asks or answers.
#[derive(Clone, Copy, Debug, PartialEq, Eq)]
pub enum QR {
    Query,
    Response,
}

impl QR {
    /// The bit of this direction on the wire.
    pub open spec fn code(self) -> u8 {
        match self {
            QR::Query => 0,
            QR::Response => 1,
        }
    }

    /// The direction that a bit stands for; every other value is refused.
    pub open spec fn from_code(c: u8) -> Result<QR, CodecError> {
        if c == 0 {
            Ok(QR::Query)
        } else if c == 1 {
            Ok(QR::Response)
        } else {
            Err(CodecError::UnsupportedQr)
        }
    }

    /// The bit of this direction on the wire.
    pub fn to_u8(self) -> (c: u8)
        ensures
            c == self.code(),
    {
        match self {
            QR::Query => 0,
            QR::Response => 1,
        }
    }
}

impl TryFrom<u8> for QR {
    type Error = CodecError;

    fn try_from(i: u8) -> (r: Result<Self, Self::Error>) {
        match i {
            0 => Ok(QR::Query),
            1 => Ok(QR::Response),
            _ => Err(CodecError::UnsupportedQr),
        }
    }
}

impl TryFromSpecImpl<u8> for QR {
    open spec fn obeys_try_from_spec() -> bool {
        true
    }

    open spec fn try_from_spec(v: u8) -> Result<Self, Self::Error> {
        QR::from_code(v)
    }
}

/// The kind of query.
#[derive(Clone, Copy, Debug, PartialEq, Eq)]
pub enum OpCode {
    StdQuery,
    IvQuery,
    Status,
}

impl OpCode {
    /// The code of this operation on the wire.
    pub open spec fn code(self) -> u8 {
        match self {
            OpCode::StdQuery => 0,
            OpCode::IvQuery => 1,
            OpCode::Status => 2,
        }
    }

    /// The operation that a wire code stands for; every other code is refused.
    pub open spec fn from_code(c: u8) -> Result<OpCode, CodecError> {
        if c == 0 {
            Ok(OpCode::StdQuery)
        } else if c == 1 {
            Ok(OpCode::IvQuery)
        } else if c == 2 {
            Ok(OpCode::Status)
        } else {
            Err(CodecError::UnsupportedOpcode)
        }
    }

    /// The code of this operation on the wire.
    pub fn to_u8(self) -> (c: u8)
        ensures
            c == self.code(),
    {
        match self {
            OpCode::StdQuery => 0,
            OpCode::IvQuery => 1,
            OpCode::Status => 2,
        }
    }
}

impl TryFrom<u8> for OpCode {
    type Error = CodecError;

    fn try_from(i: u8) -> (r: Result<Self, Self::Error>) {
        match i {
            0 => Ok(OpCode::StdQuery),
            1 => Ok(OpCode::IvQuery),
            2 => Ok(OpCode::Status),
            _ => Err(CodecError::UnsupportedOpcode),
        }
    }
}

impl TryFromSpecImpl<u8> for OpCode {
    open spec fn obeys_try_from_spec() -> bool {
        true
    }

    open spec fn try_from_spec(v: u8) -> Result<Self, Self::Error> {
        OpCode::from_code(v)
    }
}

/// How a response ended.
#[derive(Clone, Copy, Debug, PartialEq, Eq)]
pub enum RespCode {
    NoError,
    FormatError,
    ServFail,
    NameError,
    NotImpl,
    Refused,
}

impl RespCode {
    /// The code of this outcome on the wire.
    pub open spec fn code(self) -> u8 {
        match self {
            RespCode::NoError => 0,
            RespCode::FormatError => 1,
            RespCode::ServFail => 2,
            RespCode::NameError => 3,
            RespCode::NotImpl => 4,
            RespCode::Refused => 5,
        }
    }

    /// The outcome that a wire code stands for; every other code is refused.
    pub open spec fn from_code(c: u8) -> Result<RespCode, CodecError> {
        if c == 0 {
            Ok(RespCode::NoError)
        } else if c == 1 {
            Ok(RespCode::FormatError)
        } else if c == 2 {
            Ok(RespCode::ServFail)
        } else if c == 3 {
            Ok(RespCode::NameError)
        } else if c == 4 {
            Ok(RespCode::NotImpl)
        } else if c == 5 {
            Ok(RespCode::Refused)
        } else {
            Err(CodecError::UnsupportedResponseCode)
        }
    }

    /// The code of this outcome on the wire.
    pub fn to_u8(self) -> (c: u8)
        ensures
            c == self.code(),
    {
        match self {
            RespCode::NoError => 0,
            RespCode::FormatError => 1,
            RespCode::ServFail => 2,
            RespCode::NameError => 3,
            RespCode::NotImpl => 4,
            RespCode::Refused => 5,
        }
    }
}

impl TryFrom<u8> for RespCode {
    type Error = CodecError;

    fn try_from(i: u8) -> (r: Result<Self, Self::Error>) {
        match i {
            0 => Ok(RespCode::NoError),
            1 => Ok(RespCode::FormatError),
            2 => Ok(RespCode::ServFail),
            3 => Ok(RespCode::NameError),
            4 => Ok(RespCode::NotImpl),
            5 => Ok(RespCode::Refused),
            _ => Err(CodecError::UnsupportedResponseCode),
        }
    }
}

impl TryFromSpecImpl<u8> for RespCode {
    open spec fn obeys_try_from_spec() -> bool {
        true
    }

    open spec fn try_from_spec(v: u8) -> Result<Self, Self::Error> {
        RespCode::from_code(v)
    }
}

/// The value of a flag bit.
pub open spec fn bit(b: bool) -> int {
    if b {
        1
    } else {
        0
    }
}

/// The header of a message. The four counts say how many entries each
/// section of the message holds.
#[derive(Clone, Copy, Debug, PartialEq, Eq)]
pub struct Header {
    pub id: u16,
    pub qr: QR,
    pub op: OpCode,
    pub auth_answ: bool,
    pub trunc_resp: bool,
    pub rec_desired: bool,
    pub rec_avail: bool,
    pub rcode: RespCode,
    pub qd_count: u16,
    pub an_count: u16,
    pub ns_count: u16,
    pub ar_count: u16,
}

pub const QR_SHIFT: u8 = 7;

pub const OP_SHIFT: u8 = 3;

pub const AA_SHIFT: u8 = 2;

pub const TC_SHIFT: u8 = 1;

pub const RD_SHIFT: u8 = 0;

pub const RA_SHIFT: u8 = 7;

pub const RC_SHIFT: u8 = 0;

/// The fields that the first flag octet holds: direction from bit 7,
/// operation from bits 6 to 3, then the three flags from bits 2, 1 and 0.
/// Fails where the operation code is unknown.
pub open spec fn r2_first(b: u8) -> Result<(QR, OpCode, bool, bool, bool), CodecError> {
    match OpCode::from_code(((b / 8) % 16) as u8) {
        Err(e) => Err(e),
        Ok(op) => Ok(
            (
                if b >= 128 {
                    QR::Response
                } else {
                    QR::Query
                },
                op,
                (b / 4) % 2 == 1,
                (b / 2) % 2 == 1,
                b % 2 == 1,
            ),
        ),
    }
}

/// The fields that the second flag octet holds: recursion available from bit
/// 7 and the response code from bits 3 to 0; bits 6 to 4 are not looked at.
/// Fails where the response code is unknown.
pub open spec fn r2_second(b: u8) -> Result<(bool, RespCode), CodecError> {
    match RespCode::from_code((b % 16) as u8) {
        Err(e) => Err(e),
        Ok(rcode) => Ok((b >= 128, rcode)),
    }
}

/// What reading the two flag octets gives: first octet, then second, each
/// needing its octet before it is looked at.
pub open spec fn r2_read(bytes: Seq<u8>) -> Result<(HeaderRow2, int), CodecError> {
    if bytes.len() < 1 {
        Err(CodecError::Truncated)
    } else {
        match r2_first(bytes[0]) {
            Err(e) => Err(e),
            Ok(first) => if bytes.len() < 2 {
                Err(CodecError::Truncated)
            } else {
                match r2_second(bytes[1]) {
                    Err(e) => Err(e),
                    Ok(second) => Ok(((first, second), 2)),
                }
            },
        }
    }
}

impl Header {
    /// What reading a header gives. With fewer than twelve octets it fails as
    /// `Truncated`; otherwise an unknown operation code fails, then an
    /// unknown response code, and else the twelve octets give the header.
    pub open spec fn read(bytes: Seq<u8>) -> Result<(Header, int), CodecError> {
        if bytes.len() < 12 {
            Err(CodecError::Truncated)
        } else {
            match r2_first(bytes[2]) {
                Err(e) => Err(e),
                Ok(first) => match r2_second(bytes[3]) {
                    Err(e) => Err(e),
                    Ok(second) => Ok(
                        (
                            Header {
                                id: be16(bytes[0], bytes[1]),
                                qr: first.0,
                                op: first.1,
                                auth_answ: first.2,
                                trunc_resp: first.3,
                                rec_desired: first.4,
                                rec_avail: second.0,
                                rcode: second.1,
                                qd_count: be16(bytes[4], bytes[5]),
                                an_count: be16(bytes[6], bytes[7]),
                                ns_count: be16(bytes[8], bytes[9]),
                                ar_count: be16(bytes[10], bytes[11]),
                            },
                            12,
                        ),
                    ),
                },
            }
        }
    }

    /// The first flag octet: direction in bit 7, operation in bits 6 to 3,
    /// then authoritative, truncated and recursion desired in bits 2, 1, 0.
    pub open spec fn flags_hi(self) -> u8 {
        (self.qr.code() * 128 + self.op.code() * 8 + bit(self.auth_answ) * 4 + bit(self.trunc_resp)
            * 2 + bit(self.rec_desired)) as u8
    }

    /// The second flag octet: recursion available in bit 7, three zero bits,
    /// and the response code in bits 3 to 0.
    pub open spec fn flags_lo(self) -> u8 {
        (bit(self.rec_avail) * 128 + self.rcode.code()) as u8
    }

    /// The twelve octets of this header: identifier, the two flag octets and
    /// the four counts, integers big-endian.
    pub open spec fn wire(self) -> Seq<u8> {
        be16_bytes(self.id) + seq![self.flags_hi(), self.flags_lo()] + be16_bytes(self.qd_count)
            + be16_bytes(self.an_count) + be16_bytes(self.ns_count) + be16_bytes(self.ar_count)
    }

    /// Puts a header together from its identifier, the flag fields and the
    /// four counts.
    pub fn new(
        id: u16,
        r2: HeaderRow2,
        qd_count: u16,
        an_count: u16,
        ns_count: u16,
        ar_count: u16,
    ) -> (h: Self)
        ensures
            h == (Header {
                id,
                qr: r2.0.0,
                op: r2.0.1,
                auth_answ: r2.0.2,
                trunc_resp: r2.0.3,
                rec_desired: r2.0.4,
                rec_avail: r2.1.0,
                rcode: r2.1.1,
                qd_count,
                an_count,
                ns_count,
                ar_count,
            }),
    {
        let ((qr, op, auth_answ, trunc_resp, rec_desired), (rec_avail, rcode)) = r2;

        Header {
            id,
            qr,
            op,
            auth_answ,
            trunc_resp,
            rec_desired,
            rec_avail,
            rcode,
            qd_count,
            an_count,
            ns_count,
            ar_count,
        }
    }

    /// Encodes this header.
    pub fn to_bytes(&self) -> (bytes: Vec<u8>)
        ensures
            bytes@ == self.wire(),
    {
        let mut bytes: Vec<u8> = Vec::new();

        push_u16(&mut bytes, self.id);

        let mut r2 = self.make_r2_bytes();
        bytes.append(&mut r2);

        push_u16(&mut bytes, self.qd_count);
        push_u16(&mut bytes, self.an_count);
        push_u16(&mut bytes, self.ns_count);
        push_u16(&mut bytes, self.ar_count);

        bytes
    }

    /// The two flag octets of this header.
    pub fn make_r2_bytes(&self) -> (r2: Vec<u8>)
        ensures
            r2@ == seq![self.flags_hi(), self.flags_lo()],
    {
        let qr: u8 = self.qr.to_u8();
        let op: u8 = self.op.to_u8();
        let aa: u8 = if self.auth_answ { 1 } else { 0 };
        let tc: u8 = if self.trunc_resp { 1 } else { 0 };
        let rd: u8 = if self.rec_desired { 1 } else { 0 };
        let ra: u8 = if self.rec_avail { 1 } else { 0 };
        let rc: u8 = self.rcode.to_u8();

        let mut b0: u8 = 0;

        b0 |= qr << QR_SHIFT;
        b0 |= op << OP_SHIFT;
        b0 |= aa << AA_SHIFT;
        b0 |= tc << TC_SHIFT;
        b0 |= rd << RD_SHIFT;

        let mut b1: u8 = 0;

        b1 |= ra << RA_SHIFT;
        b1 |= rc << RC_SHIFT;

        assert(b0 == qr * 128 + op * 8 + aa * 4 + tc * 2 + rd) by (bit_vector)
            requires
                qr <= 1,
                op <= 2,
                aa <= 1,
                tc <= 1,
                rd <= 1,
                b0 == ((((0u8 | (qr << 7u8)) | (op << 3u8)) | (aa << 2u8)) | (tc << 1u8)) | (rd
                    << 0u8),
        ;
        assert(b1 == ra * 128 + rc) by (bit_vector)
            requires
                ra <= 1,
                rc <= 5,
                b1 == (0u8 | (ra << 7u8)) | (rc << 0u8),
        ;

        let mut r2: Vec<u8> = Vec::new();
        r2.push(b0);
        r2.push(b1);
        r2
    }
}

/// The two flag octets of a header give its flag fields back.
pub proof fn lemma_flags_roundtrip(h: Header)
    ensures
        r2_first(h.flags_hi()) == Ok::<_, CodecError>(
            (h.qr, h.op, h.auth_answ, h.trunc_resp, h.rec_desired),
        ),
        r2_second(h.flags_lo()) == Ok::<_, CodecError>((h.rec_avail, h.rcode)),
{
}

/// Decoding the encoding of a header gives the header back, whatever
/// follows the twelve octets: every header survives the wire.
pub proof fn lemma_header_roundtrip(h: Header, rest: Seq<u8>)
    ensures
        h.wire().len() == 12,
        Header::read(h.wire() + rest) == Ok::<(Header, int), CodecError>((h, 12)),
{
    lemma_flags_roundtrip(h);
    lemma_be16_roundtrip(h.id);
    lemma_be16_roundtrip(h.qd_count);
    lemma_be16_roundtrip(h.an_count);
    lemma_be16_roundtrip(h.ns_count);
    lemma_be16_roundtrip(h.ar_count);
}

/// A header of twelve octets or more is refused for the first code in it
/// that is not in its table: an operation code above 2 fails as
/// `UnsupportedOpcode`, and behind a known operation a response code above 5
/// fails as `UnsupportedResponseCode`. With both codes known it reads,
/// whatever the three reserved bits hold.
pub proof fn lemma_header_refuses_unknown_codes(bytes: Seq<u8>)
    requires
        bytes.len() >= 12,
    ensures
        ({
            let op = (bytes[2] / 8) % 16;
            let rc = bytes[3] % 16;
            &&& op > 2 ==> Header::read(bytes) == Err::<(Header, int), CodecError>(
                CodecError::UnsupportedOpcode,
            )
            &&& op <= 2 && rc > 5 ==> Header::read(bytes) == Err::<(Header, int), CodecError>(
                CodecError::UnsupportedResponseCode,
            )
            &&& op <= 2 && rc <= 5 ==> Header::read(bytes) is Ok
        }),
{
}

/// Every code of the header's tables stands for the value it is the code
/// of, and no value above the table for any.
pub proof fn lemma_header_codes(qr: QR, op: OpCode, rcode: RespCode, c: u8)
    ensures
        QR::from_code(qr.code()) == Ok::<QR, CodecError>(qr),
        OpCode::from_code(op.code()) == Ok::<OpCode, CodecError>(op),
        RespCode::from_code(rcode.code()) == Ok::<RespCode, CodecError>(rcode),
        c > 1 ==> QR::from_code(c) == Err::<QR, CodecError>(CodecError::UnsupportedQr),
        c > 2 ==> OpCode::from_code(c) == Err::<OpCode, CodecError>(CodecError::UnsupportedOpcode),
        c > 5 ==> RespCode::from_code(c) == Err::<RespCode, CodecError>(
            CodecError::UnsupportedResponseCode,
        ),
{
}

} // verus!
