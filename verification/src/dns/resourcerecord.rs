//! Resource records and their type-tagged data.

use crate::dns::append_rname;
use crate::dns::name::{
    lemma_name_cut, lemma_name_read_bounds, lemma_name_roundtrip, name_canonical, name_fits,
    name_read, name_wire,
};
use crate::dns::{Class, Type};
use crate::error::CodecError;
use crate::wire::{
    be16, be16_bytes, be32, be32_bytes, lemma_be16_roundtrip, lemma_be32_roundtrip, push_u16,
    push_u32,
};
use vstd::prelude::*;

verus! {

/// The data of a resource record: an IPv4 address as four octets, an IPv6
/// address as eight 16-bit groups, or a domain name.
#[derive(Debug, PartialEq)]
pub enum RData {
    A(u8, u8, u8, u8),
    AAAA(u16, u16, u16, u16, u16, u16, u16, u16),
    NS(String),
    CNAME(String),
    PTR(String),
}

/// Record data as a mathematical value: a name is a sequence of characters.
pub enum RDataView {
    A(u8, u8, u8, u8),
    AAAA(u16, u16, u16, u16, u16, u16, u16, u16),
    NS(Seq<char>),
    CNAME(Seq<char>),
    PTR(Seq<char>),
}

impl View for RData {
    type V = RDataView;

    open spec fn view(&self) -> RDataView {
        match *self {
            RData::A(b1, b2, b3, b4) => RDataView::A(b1, b2, b3, b4),
            RData::AAAA(g1, g2, g3, g4, g5, g6, g7, g8) => RDataView::AAAA(
                g1,
                g2,
                g3,
                g4,
                g5,
                g6,
                g7,
                g8,
            ),
            RData::NS(name) => RDataView::NS(name@),
            RData::CNAME(name) => RDataView::CNAME(name@),
            RData::PTR(name) => RDataView::PTR(name@),
        }
    }
}

impl RDataView {
    /// The record type that selects this shape of data.
    pub open spec fn kind(self) -> Type {
        match self {
            RDataView::A(..) => Type::A,
            RDataView::AAAA(..) => Type::AAAA,
            RDataView::NS(_) => Type::NS,
            RDataView::CNAME(_) => Type::CNAME,
            RDataView::PTR(_) => Type::PTR,
        }
    }

    /// Whether this data is written the way it is read: the name in it, if
    /// any, is canonical.
    pub open spec fn canonical(self) -> bool {
        match self {
            RDataView::A(..) => true,
            RDataView::AAAA(..) => true,
            RDataView::NS(name) => name_canonical(name),
            RDataView::CNAME(name) => name_canonical(name),
            RDataView::PTR(name) => name_canonical(name),
        }
    }

    /// Whether this data can be encoded: the name in it, if any, can.
    pub open spec fn fits(self) -> bool {
        match self {
            RDataView::A(..) => true,
            RDataView::AAAA(..) => true,
            RDataView::NS(name) => name_fits(name),
            RDataView::CNAME(name) => name_fits(name),
            RDataView::PTR(name) => name_fits(name),
        }
    }

    /// This data on the wire: the four octets as they are, the eight groups
    /// big-endian one after another, or the name.
    pub open spec fn wire(self) -> Seq<u8> {
        match self {
            RDataView::A(b1, b2, b3, b4) => seq![b1, b2, b3, b4],
            RDataView::AAAA(g1, g2, g3, g4, g5, g6, g7, g8) => be16_bytes(g1) + be16_bytes(g2)
                + be16_bytes(g3) + be16_bytes(g4) + be16_bytes(g5) + be16_bytes(g6) + be16_bytes(
                g7,
            ) + be16_bytes(g8),
            RDataView::NS(name) => name_wire(name),
            RDataView::CNAME(name) => name_wire(name),
            RDataView::PTR(name) => name_wire(name),
        }
    }

    /// What reading the data of a record of type `t` gives: the data in the
    /// shape that `t` selects and how many octets it took (4, 16, or those of
    /// the name), or the failure.
    pub open spec fn read(t: Type, bytes: Seq<u8>) -> Result<(RDataView, int), CodecError> {
        match t {
            Type::A => if bytes.len() < 4 {
                Err(CodecError::Truncated)
            } else {
                Ok((RDataView::A(bytes[0], bytes[1], bytes[2], bytes[3]), 4))
            },
            Type::AAAA => if bytes.len() < 16 {
                Err(CodecError::Truncated)
            } else {
                Ok(
                    (
                        RDataView::AAAA(
                            be16(bytes[0], bytes[1]),
                            be16(bytes[2], bytes[3]),
                            be16(bytes[4], bytes[5]),
                            be16(bytes[6], bytes[7]),
                            be16(bytes[8], bytes[9]),
                            be16(bytes[10], bytes[11]),
                            be16(bytes[12], bytes[13]),
                            be16(bytes[14], bytes[15]),
                        ),
                        16,
                    ),
                )
            },
            Type::NS => match name_read(bytes) {
                Err(e) => Err(e),
                Ok((name, n)) => Ok((RDataView::NS(name), n)),
            },
            Type::CNAME => match name_read(bytes) {
                Err(e) => Err(e),
                Ok((name, n)) => Ok((RDataView::CNAME(name), n)),
            },
            Type::PTR => match name_read(bytes) {
                Err(e) => Err(e),
                Ok((name, n)) => Ok((RDataView::PTR(name), n)),
            },
        }
    }
}

impl RData {
    /// Encodes this data. Fails with `LabelTooLong` exactly where it holds a
    /// name with a label longer than 255 octets.
    pub fn to_bytes(&self) -> (r: Result<Vec<u8>, CodecError>)
        ensures
            match r {
                Ok(bytes) => self@.fits() && bytes@ == self@.wire(),
                Err(e) => !self@.fits() && e == CodecError::LabelTooLong,
            },
    {
        match self {
            RData::A(b1, b2, b3, b4) => {
                let mut v: Vec<u8> = Vec::new();
                v.push(*b1);
                v.push(*b2);
                v.push(*b3);
                v.push(*b4);
                assert(v@ =~= self@.wire());

                Ok(v)
            },
            RData::AAAA(tb1, tb2, tb3, tb4, tb5, tb6, tb7, tb8) => {
                let mut v: Vec<u8> = Vec::new();

                push_u16(&mut v, *tb1);
                push_u16(&mut v, *tb2);
                push_u16(&mut v, *tb3);
                push_u16(&mut v, *tb4);
                push_u16(&mut v, *tb5);
                push_u16(&mut v, *tb6);
                push_u16(&mut v, *tb7);
                push_u16(&mut v, *tb8);
                assert(v@ =~= self@.wire());

                Ok(v)
            },
            RData::NS(rname) => {
                let mut v: Vec<u8> = Vec::new();

                append_rname(&mut v, rname)?;

                Ok(v)
            },
            RData::CNAME(rname) => {
                let mut v: Vec<u8> = Vec::new();

                append_rname(&mut v, rname)?;

                Ok(v)
            },
            RData::PTR(rname) => {
                let mut v: Vec<u8> = Vec::new();

                append_rname(&mut v, rname)?;

                Ok(v)
            },
        }
    }
}

/// A resource record. `rd_len` is the length that the record declares for
/// its data: it is written as it stands and never computed from the data.
#[derive(Debug, PartialEq)]
pub struct ResourceRecord {
    pub name: String,
    pub rr_type: Type,
    pub rr_class: Class,
    pub ttl: u32,
    pub rd_len: u16,
    pub rdata: RData,
}

/// A resource record as a mathematical value.
pub struct ResourceRecordView {
    pub name: Seq<char>,
    pub rr_type: Type,
    pub rr_class: Class,
    pub ttl: u32,
    pub rd_len: u16,
    pub rdata: RDataView,
}

impl View for ResourceRecord {
    type V = ResourceRecordView;

    open spec fn view(&self) -> ResourceRecordView {
        ResourceRecordView {
            name: self.name@,
            rr_type: self.rr_type,
            rr_class: self.rr_class,
            ttl: self.ttl,
            rd_len: self.rd_len,
            rdata: self.rdata@,
        }
    }
}

impl ResourceRecordView {
    /// Whether this record is written the way it is read: its type is the
    /// one that selects the shape of its data, and its name and its data are
    /// canonical.
    pub open spec fn canonical(self) -> bool {
        self.rr_type == self.rdata.kind() && name_canonical(self.name) && self.rdata.canonical()
    }

    /// Whether this record can be encoded: its name and its data can.
    pub open spec fn fits(self) -> bool {
        name_fits(self.name) && self.rdata.fits()
    }

    /// This record on the wire: name, type, class, time to live, declared
    /// data length, data; integers big-endian.
    pub open spec fn wire(self) -> Seq<u8> {
        name_wire(self.name) + fixed_wire(self) + self.rdata.wire()
    }

    /// What reading a record gives: the record and how many octets it took,
    /// or the first failure on the way through name, type, class, time to
    /// live, declared length and data. The declared length is kept and bounds
    /// nothing: the type alone says how the data is read.
    pub open spec fn read(bytes: Seq<u8>) -> Result<(ResourceRecordView, int), CodecError> {
        match name_read(bytes) {
            Err(e) => Err(e),
            Ok((name, n)) => if bytes.len() < n + 2 {
                Err(CodecError::Truncated)
            } else {
                match Type::from_code(be16(bytes[n], bytes[n + 1])) {
                    Err(e) => Err(e),
                    Ok(rr_type) => if bytes.len() < n + 4 {
                        Err(CodecError::Truncated)
                    } else {
                        match Class::from_code(be16(bytes[n + 2], bytes[n + 3])) {
                            Err(e) => Err(e),
                            Ok(rr_class) => if bytes.len() < n + 10 {
                                Err(CodecError::Truncated)
                            } else {
                                match RDataView::read(rr_type, bytes.skip(n + 10)) {
                                    Err(e) => Err(e),
                                    Ok((rdata, m)) => Ok(
                                        (
                                            ResourceRecordView {
                                                name,
                                                rr_type,
                                                rr_class,
                                                ttl: be32(
                                                    bytes[n + 4],
                                                    bytes[n + 5],
                                                    bytes[n + 6],
                                                    bytes[n + 7],
                                                ),
                                                rd_len: be16(bytes[n + 8], bytes[n + 9]),
                                                rdata,
                                            },
                                            n + 10 + m,
                                        ),
                                    ),
                                }
                            },
                        }
                    },
                }
            },
        }
    }
}

impl ResourceRecord {
    /// Encodes this record. Fails with `LabelTooLong` exactly where a label
    /// of its name, or of the name in its data, is longer than 255 octets.
    pub fn to_bytes(&self) -> (r: Result<Vec<u8>, CodecError>)
        ensures
            match r {
                Ok(bytes) => self@.fits() && bytes@ == self@.wire(),
                Err(e) => !self@.fits() && e == CodecError::LabelTooLong,
            },
    {
        let mut bytes: Vec<u8> = Vec::new();

        append_rname(&mut bytes, &self.name)?;
        push_u16(&mut bytes, self.rr_type.to_u16());
        push_u16(&mut bytes, self.rr_class.to_u16());
        push_u32(&mut bytes, self.ttl);
        push_u16(&mut bytes, self.rd_len);
        let mut data = self.rdata.to_bytes()?;
        bytes.append(&mut data);

        Ok(bytes)
    }
}

/// Canonical data reads back from its wire form as it was, under the type
/// that selects its shape and whatever follows that form.
pub proof fn lemma_rdata_roundtrip(d: RDataView, rest: Seq<u8>)
    requires
        d.canonical(),
    ensures
        d.fits(),
        RDataView::read(d.kind(), d.wire() + rest) == Ok::<(RDataView, int), CodecError>(
            (d, d.wire().len() as int),
        ),
{
    let bytes = d.wire() + rest;
    match d {
        RDataView::A(b1, b2, b3, b4) => {
            assert(bytes[0] == b1 && bytes[1] == b2 && bytes[2] == b3 && bytes[3] == b4);
        },
        RDataView::AAAA(g1, g2, g3, g4, g5, g6, g7, g8) => {
            lemma_be16_roundtrip(g1);
            lemma_be16_roundtrip(g2);
            lemma_be16_roundtrip(g3);
            lemma_be16_roundtrip(g4);
            lemma_be16_roundtrip(g5);
            lemma_be16_roundtrip(g6);
            lemma_be16_roundtrip(g7);
            lemma_be16_roundtrip(g8);
            assert(d.wire().len() == 16);
            assert(bytes[0] == be16_bytes(g1)[0] && bytes[1] == be16_bytes(g1)[1]);
            assert(bytes[2] == be16_bytes(g2)[0] && bytes[3] == be16_bytes(g2)[1]);
            assert(bytes[4] == be16_bytes(g3)[0] && bytes[5] == be16_bytes(g3)[1]);
            assert(bytes[6] == be16_bytes(g4)[0] && bytes[7] == be16_bytes(g4)[1]);
            assert(bytes[8] == be16_bytes(g5)[0] && bytes[9] == be16_bytes(g5)[1]);
            assert(bytes[10] == be16_bytes(g6)[0] && bytes[11] == be16_bytes(g6)[1]);
            assert(bytes[12] == be16_bytes(g7)[0] && bytes[13] == be16_bytes(g7)[1]);
            assert(bytes[14] == be16_bytes(g8)[0] && bytes[15] == be16_bytes(g8)[1]);
        },
        RDataView::NS(name) => {
            lemma_name_roundtrip(name, rest);
        },
        RDataView::CNAME(name) => {
            lemma_name_roundtrip(name, rest);
        },
        RDataView::PTR(name) => {
            lemma_name_roundtrip(name, rest);
        },
    }
}

/// The wire form of canonical data, cut short anywhere, fails to read as
/// `Truncated`.
pub proof fn lemma_rdata_cut(d: RDataView, j: int)
    requires
        d.canonical(),
        0 <= j < d.wire().len(),
    ensures
        RDataView::read(d.kind(), d.wire().take(j)) == Err::<(RDataView, int), CodecError>(
            CodecError::Truncated,
        ),
{
    match d {
        RDataView::A(..) => {},
        RDataView::AAAA(..) => {},
        RDataView::NS(name) => {
            lemma_name_cut(name, j);
        },
        RDataView::CNAME(name) => {
            lemma_name_cut(name, j);
        },
        RDataView::PTR(name) => {
            lemma_name_cut(name, j);
        },
    }
}

/// The octets of a record between its name and its data: type, class, time
/// to live and declared length.
pub open spec fn fixed_wire(r: ResourceRecordView) -> Seq<u8> {
    be16_bytes(r.rr_type.code()) + be16_bytes(r.rr_class.code()) + be32_bytes(r.ttl) + be16_bytes(
        r.rd_len,
    )
}

/// The ten octets between name and data give type, class, time to live and
/// declared length back.
proof fn lemma_fixed_roundtrip(r: ResourceRecordView)
    ensures
        fixed_wire(r).len() == 10,
        Type::from_code(be16(fixed_wire(r)[0], fixed_wire(r)[1])) == Ok::<Type, CodecError>(
            r.rr_type,
        ),
        Class::from_code(be16(fixed_wire(r)[2], fixed_wire(r)[3])) == Ok::<Class, CodecError>(
            r.rr_class,
        ),
        be32(fixed_wire(r)[4], fixed_wire(r)[5], fixed_wire(r)[6], fixed_wire(r)[7]) == r.ttl,
        be16(fixed_wire(r)[8], fixed_wire(r)[9]) == r.rd_len,
{
    lemma_be16_roundtrip(r.rr_type.code());
    lemma_be16_roundtrip(r.rr_class.code());
    lemma_be32_roundtrip(r.ttl);
    lemma_be16_roundtrip(r.rd_len);
    let f = fixed_wire(r);
    assert(f[0] == be16_bytes(r.rr_type.code())[0] && f[1] == be16_bytes(r.rr_type.code())[1]);
    assert(f[2] == be16_bytes(r.rr_class.code())[0] && f[3] == be16_bytes(r.rr_class.code())[1]);
    assert(f[4] == be32_bytes(r.ttl)[0] && f[5] == be32_bytes(r.ttl)[1]);
    assert(f[6] == be32_bytes(r.ttl)[2] && f[7] == be32_bytes(r.ttl)[3]);
    assert(f[8] == be16_bytes(r.rd_len)[0] && f[9] == be16_bytes(r.rd_len)[1]);
}

/// Where the parts of four joined sequences lie, the second being ten long.
proof fn lemma_joined_parts(a: Seq<u8>, b: Seq<u8>, c: Seq<u8>, d: Seq<u8>)
    requires
        b.len() == 10,
    ensures
        a + b + c + d == a + (b + c + d),
        forall|i: int| 0 <= i < 10 ==> (a + b + c + d)[a.len() + i] == #[trigger] b[i],
        (a + b + c + d).skip(a.len() as int + 10) == c + d,
{
    assert(a + b + c + d =~= a + (b + c + d));
    assert((a + b + c + d).skip(a.len() as int + 10) =~= c + d);
}

/// What reading a record gives, said from what reading its parts gives.
proof fn lemma_record_read_parts(bytes: Seq<u8>, r: ResourceRecordView, n: int, m: int)
    requires
        name_read(bytes) == Ok::<(Seq<char>, int), CodecError>((r.name, n)),
        0 <= n,
        bytes.len() >= n + 10,
        forall|i: int| 0 <= i < 10 ==> bytes[n + i] == #[trigger] fixed_wire(r)[i],
        RDataView::read(r.rr_type, bytes.skip(n + 10)) == Ok::<(RDataView, int), CodecError>(
            (r.rdata, m),
        ),
    ensures
        ResourceRecordView::read(bytes) == Ok::<(ResourceRecordView, int), CodecError>(
            (r, n + 10 + m),
        ),
{
    lemma_fixed_roundtrip(r);
    let f = fixed_wire(r);
    assert(bytes[n] == f[0] && bytes[n + 1] == f[1] && bytes[n + 2] == f[2] && bytes[n + 3]
        == f[3]);
    assert(bytes[n + 4] == f[4] && bytes[n + 5] == f[5] && bytes[n + 6] == f[6] && bytes[n + 7]
        == f[7]);
    assert(bytes[n + 8] == f[8] && bytes[n + 9] == f[9]);
}

/// A canonical record of any of the five types reads back from its wire
/// form as it was, data included, whatever follows that form.
pub proof fn lemma_record_roundtrip(r: ResourceRecordView, rest: Seq<u8>)
    requires
        r.canonical(),
    ensures
        r.fits(),
        ResourceRecordView::read(r.wire() + rest) == Ok::<(ResourceRecordView, int), CodecError>(
            (r, r.wire().len() as int),
        ),
{
    let name = name_wire(r.name);
    let fixed = fixed_wire(r);
    let data = r.rdata.wire();
    lemma_fixed_roundtrip(r);
    lemma_joined_parts(name, fixed, data, rest);
    lemma_name_roundtrip(r.name, fixed + data + rest);
    lemma_rdata_roundtrip(r.rdata, rest);
    lemma_record_read_parts(r.wire() + rest, r, name.len() as int, data.len() as int);
}

/// What reading a record gives where its data is cut short.
proof fn lemma_record_read_cut_data(bytes: Seq<u8>, r: ResourceRecordView, n: int)
    requires
        name_read(bytes) == Ok::<(Seq<char>, int), CodecError>((r.name, n)),
        0 <= n,
        bytes.len() >= n + 10,
        forall|i: int| 0 <= i < 10 ==> bytes[n + i] == #[trigger] fixed_wire(r)[i],
        RDataView::read(r.rr_type, bytes.skip(n + 10)) == Err::<(RDataView, int), CodecError>(
            CodecError::Truncated,
        ),
    ensures
        ResourceRecordView::read(bytes) == Err::<(ResourceRecordView, int), CodecError>(
            CodecError::Truncated,
        ),
{
    lemma_fixed_roundtrip(r);
    let f = fixed_wire(r);
    assert(bytes[n] == f[0] && bytes[n + 1] == f[1] && bytes[n + 2] == f[2] && bytes[n + 3]
        == f[3]);
}

/// What reading a record gives where the octets between name and data are
/// cut short.
proof fn lemma_record_read_cut_fixed(bytes: Seq<u8>, r: ResourceRecordView, n: int)
    requires
        name_read(bytes) == Ok::<(Seq<char>, int), CodecError>((r.name, n)),
        0 <= n <= bytes.len() < n + 10,
        forall|i: int| 0 <= i < 10 && n + i < bytes.len() ==> bytes[n + i] == #[trigger] fixed_wire(
            r,
        )[i],
    ensures
        ResourceRecordView::read(bytes) == Err::<(ResourceRecordView, int), CodecError>(
            CodecError::Truncated,
        ),
{
    lemma_fixed_roundtrip(r);
    let f = fixed_wire(r);
    if bytes.len() >= n + 2 {
        assert(bytes[n] == f[0] && bytes[n + 1] == f[1]);
    }
    if bytes.len() >= n + 4 {
        assert(bytes[n + 2] == f[2] && bytes[n + 3] == f[3]);
    }
}

/// The wire form of a canonical record, cut short anywhere, fails to read as
/// `Truncated`.
pub proof fn lemma_record_cut(r: ResourceRecordView, j: int)
    requires
        r.canonical(),
        0 <= j < r.wire().len(),
    ensures
        ResourceRecordView::read(r.wire().take(j)) == Err::<(ResourceRecordView, int), CodecError>(
            CodecError::Truncated,
        ),
{
    let name = name_wire(r.name);
    let n = name.len() as int;
    let fixed = fixed_wire(r);
    let data = r.rdata.wire();
    let bytes = r.wire().take(j);
    lemma_fixed_roundtrip(r);
    assert(r.wire() =~= name + fixed + data);
    if j < n {
        lemma_name_cut(r.name, j);
        assert(bytes =~= name.take(j));
    } else {
        let after = (fixed + data).take(j - n);
        lemma_name_roundtrip(r.name, after);
        assert(bytes =~= name + after);
        assert forall|i: int| 0 <= i < 10 && n + i < j implies bytes[n + i] == #[trigger] fixed[i] by {}
        if j >= n + 10 {
            lemma_rdata_cut(r.rdata, j - n - 10);
            assert(bytes.skip(n + 10) =~= data.take(j - n - 10));
            lemma_record_read_cut_data(bytes, r, n);
        } else {
            lemma_record_read_cut_fixed(bytes, r, n);
        }
    }
}

/// A record is refused for the first code in it that is not in its table:
/// behind a name that reads, an unknown type fails as `UnsupportedType`, and
/// behind a known type an unknown class fails as `UnsupportedClass`.
pub proof fn lemma_record_refuses_unknown_codes(bytes: Seq<u8>)
    requires
        name_read(bytes) is Ok,
        bytes.len() >= name_read(bytes)->Ok_0.1 + 2,
    ensures
        ({
            let n = name_read(bytes)->Ok_0.1;
            let t = be16(bytes[n], bytes[n + 1]);
            &&& !(t == 1 || t == 2 || t == 5 || t == 12 || t == 28) ==> ResourceRecordView::read(
                bytes,
            ) == Err::<(ResourceRecordView, int), CodecError>(CodecError::UnsupportedType)
            &&& (t == 1 || t == 2 || t == 5 || t == 12 || t == 28) && bytes.len() >= n + 4 && be16(
                bytes[n + 2],
                bytes[n + 3],
            ) != 1 ==> ResourceRecordView::read(bytes) == Err::<
                (ResourceRecordView, int),
                CodecError,
            >(CodecError::UnsupportedClass)
        }),
{
}

/// What a record read took lies within the octets it was given.
pub proof fn lemma_record_read_bounds(bytes: Seq<u8>)
    ensures
        ResourceRecordView::read(bytes) matches Ok((_, n)) ==> 12 <= n <= bytes.len(),
{
    lemma_name_read_bounds(bytes);
    match name_read(bytes) {
        Err(_) => {},
        Ok((_, n)) => {
            if bytes.len() >= n + 10 {
                lemma_name_read_bounds(bytes.skip(n + 10));
            }
        },
    }
}

} // verus!
