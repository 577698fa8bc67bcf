//! The decoders. Each takes the octets that are left and gives back the
//! value it read with the octets after it, or the failure; each says so over
//! the model that stands beside the type it reads.

use crate::dns::header::{
    r2_first, r2_read, r2_second, Header, HeaderRow2, OpCode, RespCode, AA_SHIFT, OP_SHIFT, QR,
    QR_SHIFT, RA_SHIFT, RC_SHIFT, RD_SHIFT, TC_SHIFT,
};
use crate::dns::message::{
    entries_after, present, questions_read, questions_view, records_read, records_view, Message,
    MessageView,
};
use crate::dns::name::{
    label_read, lemma_label_read_empty, lemma_name_read_step, name_after, name_read, text_of,
    trimmed,
};
use crate::dns::question::{Question, QuestionView};
use crate::dns::resourcerecord::{RData, RDataView, ResourceRecord, ResourceRecordView};
use crate::dns::{Class, QClass, QType, Type};
use crate::error::CodecError;
use crate::text::{str_from_utf8, string_pop};
use crate::wire::{fails, gives, lemma_skip_again, read_u16, read_u32, read_u8};
use vstd::prelude::*;
use vstd::slice::slice_subrange;
use vstd::string::StringExecFns;
use vstd::utf8::encode_utf8_decode_utf8;

verus! {

/// Whether a bit field is set.
pub fn boolify(n: u8) -> (b: bool)
    ensures
        b == (n != 0),
{
    n != 0
}

/// Puts a label behind those already joined: the label and a dot, or
/// nothing where the label is empty.
pub fn merge_str(acc: String, s: &str) -> (r: String)
    ensures
        r@ == if s@.len() == 0 {
            acc@
        } else {
            acc@ + s@ + seq!['.']
        },
{
    let mut acc = acc;
    if !s.is_empty() {
        proof {
            reveal_strlit(".");
        }
        acc.append(s);
        acc.append(".");
        assert("."@ =~= seq!['.']);
        acc
    } else {
        acc
    }
}

/// Reads one label: a length octet and that many octets of text. A zero
/// length octet gives the empty label.
pub fn parse_rname_section<'a>(input: &'a [u8]) -> (r: Result<(&'a [u8], &'a str), CodecError>)
    ensures
        match r {
            Ok((rest, label)) => gives(label_read(input@), label@, input@, rest@),
            Err(e) => fails(label_read(input@), e),
        },
{
    let (rest, len) = read_u8(input)?;
    let n: usize = len as usize;
    if rest.len() < n {
        return Err(CodecError::Truncated);
    }
    let raw = slice_subrange(rest, 0, n);
    let after = slice_subrange(rest, n, rest.len());
    assert(raw@ =~= input@.subrange(1, 1 + n));
    assert(after@ =~= input@.skip(1 + n));
    match str_from_utf8(raw) {
        None => {
            proof {
                reveal(text_of);
            }
            Err(CodecError::InvalidLabel)
        },
        Some(label) => {
            proof {
                reveal(text_of);
                encode_utf8_decode_utf8(label@);
            }
            Ok((after, label))
        },
    }
}

/// Reads a name: labels up to the first zero length octet, joined by dots.
/// The empty name is what a lone zero octet gives.
pub fn parse_rname<'a>(input: &'a [u8]) -> (r: Result<(&'a [u8], String), CodecError>)
    ensures
        match r {
            Ok((rest, name)) => gives(name_read(input@), name@, input@, rest@),
            Err(e) => fails(name_read(input@), e),
        },
{
    let mut s = String::new();
    let mut rest = input;
    let mut more: bool = true;
    let ghost mut used: int = 0;
    assert(input@.skip(0) =~= input@);
    while more
        invariant
            0 <= used <= input@.len(),
            rest@ == input@.skip(used),
            more ==> name_read(input@) == name_after(s@, used, name_read(rest@)),
            !more ==> gives(name_read(input@), trimmed(s@), input@, rest@),
        decreases
                (if more {
                    rest@.len() + 1
                } else {
                    0
                }),
    {
        let (after, label) = parse_rname_section(rest)?;
        proof {
            let n = label_read(rest@)->Ok_0.1;
            lemma_label_read_empty(rest@);
            assert(after@ =~= input@.skip(used + n));
            if n > 1 {
                lemma_name_read_step(s@, used, rest@);
            }
            used = used + n;
        }
        if label.is_empty() {
            more = false;
        } else {
            s = merge_str(s, label);
        }
        rest = after;
    }

    if !s.as_str().is_empty() {
        string_pop(&mut s);
        Ok((rest, s))
    } else {
        Ok((rest, s))
    }
}

/// Reads the first flag octet.
pub fn parse_r2_first<'a>(input: &'a [u8]) -> (r: Result<
    (&'a [u8], (QR, OpCode, bool, bool, bool)),
    CodecError,
>)
    ensures
        match r {
            Ok((rest, first)) => input@.len() >= 1 && rest@ == input@.skip(1) && r2_first(
                input@[0],
            ) == Ok::<_, CodecError>(first),
            Err(e) => if input@.len() < 1 {
                e == CodecError::Truncated
            } else {
                r2_first(input@[0]) == Err::<(QR, OpCode, bool, bool, bool), _>(e)
            },
        },
{
    let (rest, b) = read_u8(input)?;
    assert(b >> 7 == b / 128 && (b >> 3) & 0x0f == (b / 8) % 16 && (b >> 2) & 1 == (b / 4) % 2 && (b
        >> 1) & 1 == (b / 2) % 2 && (b >> 0) & 1 == b % 2) by (bit_vector);
    let qr = QR::try_from(b >> QR_SHIFT)?;
    let op = OpCode::try_from((b >> OP_SHIFT) & 0x0f)?;
    let auth_answ = boolify((b >> AA_SHIFT) & 1);
    let trunc_resp = boolify((b >> TC_SHIFT) & 1);
    let rec_desired = boolify((b >> RD_SHIFT) & 1);
    Ok((rest, (qr, op, auth_answ, trunc_resp, rec_desired)))
}

/// Reads the second flag octet.
pub fn parse_r2_second<'a>(input: &'a [u8]) -> (r: Result<(&'a [u8], (bool, RespCode)), CodecError>)
    ensures
        match r {
            Ok((rest, second)) => input@.len() >= 1 && rest@ == input@.skip(1) && r2_second(
                input@[0],
            ) == Ok::<_, CodecError>(second),
            Err(e) => if input@.len() < 1 {
                e == CodecError::Truncated
            } else {
                r2_second(input@[0]) == Err::<(bool, RespCode), _>(e)
            },
        },
{
    let (rest, b) = read_u8(input)?;
    assert(b >> 7 == b / 128 && (b >> 0) & 0x0f == b % 16) by (bit_vector);
    let rec_avail = boolify(b >> RA_SHIFT);
    let rcode = RespCode::try_from((b >> RC_SHIFT) & 0x0f)?;
    Ok((rest, (rec_avail, rcode)))
}

/// Reads the two flag octets.
pub fn parse_r2<'a>(input: &'a [u8]) -> (r: Result<(&'a [u8], HeaderRow2), CodecError>)
    ensures
        match r {
            Ok((rest, r2)) => gives(r2_read(input@), r2, input@, rest@),
            Err(e) => fails(r2_read(input@), e),
        },
{
    let (rest, first) = parse_r2_first(input)?;
    let (rest, second) = parse_r2_second(rest)?;
    assert(rest@ =~= input@.skip(2));
    Ok((rest, (first, second)))
}

/// Reads a header.
pub fn parse_header<'a>(input: &'a [u8]) -> (r: Result<(&'a [u8], Header), CodecError>)
    ensures
        match r {
            Ok((rest, h)) => gives(Header::read(input@), h, input@, rest@),
            Err(e) => fails(Header::read(input@), e),
        },
{
    if input.len() < 12 {
        return Err(CodecError::Truncated);
    }
    let (rest, id) = read_u16(input)?;
    let (rest, r2) = parse_r2(rest)?;
    let (rest, qd_count) = read_u16(rest)?;
    let (rest, an_count) = read_u16(rest)?;
    let (rest, ns_count) = read_u16(rest)?;
    let (rest, ar_count) = read_u16(rest)?;
    assert(rest@ =~= input@.skip(12));
    Ok((rest, Header::new(id, r2, qd_count, an_count, ns_count, ar_count)))
}

/// Reads a question.
pub fn parse_question<'a>(input: &'a [u8]) -> (r: Result<(&'a [u8], Question), CodecError>)
    ensures
        match r {
            Ok((rest, q)) => gives(QuestionView::read(input@), q@, input@, rest@),
            Err(e) => fails(QuestionView::read(input@), e),
        },
{
    let (rest, qname) = parse_rname(input)?;
    let (rest, qtype) = read_u16(rest)?;
    let qtype = QType::try_from(qtype)?;
    let (rest, qclass) = read_u16(rest)?;
    let qclass = QClass::try_from(qclass)?;
    assert(rest@ =~= input@.skip(name_read(input@)->Ok_0.1 + 4));
    Ok((rest, Question { qname, qclass, qtype }))
}

/// Reads the four octets of an IPv4 address.
pub fn parse_rdata_a<'a>(input: &'a [u8]) -> (r: Result<(&'a [u8], RData), CodecError>)
    ensures
        match r {
            Ok((rest, d)) => gives(RDataView::read(Type::A, input@), d@, input@, rest@),
            Err(e) => fails(RDataView::read(Type::A, input@), e),
        },
{
    let (rest, b1) = read_u8(input)?;
    let (rest, b2) = read_u8(rest)?;
    let (rest, b3) = read_u8(rest)?;
    let (rest, b4) = read_u8(rest)?;
    assert(rest@ =~= input@.skip(4));
    Ok((rest, RData::A(b1, b2, b3, b4)))
}

/// Reads the eight big-endian groups of an IPv6 address.
pub fn parse_rdata_aaaa<'a>(input: &'a [u8]) -> (r: Result<(&'a [u8], RData), CodecError>)
    ensures
        match r {
            Ok((rest, d)) => gives(RDataView::read(Type::AAAA, input@), d@, input@, rest@),
            Err(e) => fails(RDataView::read(Type::AAAA, input@), e),
        },
{
    let (rest, tb1) = read_u16(input)?;
    let (rest, tb2) = read_u16(rest)?;
    let (rest, tb3) = read_u16(rest)?;
    let (rest, tb4) = read_u16(rest)?;
    let (rest, tb5) = read_u16(rest)?;
    let (rest, tb6) = read_u16(rest)?;
    let (rest, tb7) = read_u16(rest)?;
    let (rest, tb8) = read_u16(rest)?;
    assert(rest@ =~= input@.skip(16));
    Ok((rest, RData::AAAA(tb1, tb2, tb3, tb4, tb5, tb6, tb7, tb8)))
}

/// Reads the name of a name server.
pub fn parse_rdata_ns<'a>(input: &'a [u8]) -> (r: Result<(&'a [u8], RData), CodecError>)
    ensures
        match r {
            Ok((rest, d)) => gives(RDataView::read(Type::NS, input@), d@, input@, rest@),
            Err(e) => fails(RDataView::read(Type::NS, input@), e),
        },
{
    match parse_rname(input) {
        Err(e) => Err(e),
        Ok((rest, rname)) => Ok((rest, RData::NS(rname))),
    }
}

/// Reads a canonical name.
pub fn parse_rdata_cname<'a>(input: &'a [u8]) -> (r: Result<(&'a [u8], RData), CodecError>)
    ensures
        match r {
            Ok((rest, d)) => gives(RDataView::read(Type::CNAME, input@), d@, input@, rest@),
            Err(e) => fails(RDataView::read(Type::CNAME, input@), e),
        },
{
    match parse_rname(input) {
        Err(e) => Err(e),
        Ok((rest, rname)) => Ok((rest, RData::CNAME(rname))),
    }
}

/// Reads the name a pointer record points to.
pub fn parse_rdata_ptr<'a>(input: &'a [u8]) -> (r: Result<(&'a [u8], RData), CodecError>)
    ensures
        match r {
            Ok((rest, d)) => gives(RDataView::read(Type::PTR, input@), d@, input@, rest@),
            Err(e) => fails(RDataView::read(Type::PTR, input@), e),
        },
{
    match parse_rname(input) {
        Err(e) => Err(e),
        Ok((rest, rname)) => Ok((rest, RData::PTR(rname))),
    }
}

/// Reads the data of a record of type `t`, in the shape that `t` selects.
pub fn parse_rdata<'a>(t: Type, input: &'a [u8]) -> (r: Result<(&'a [u8], RData), CodecError>)
    ensures
        match r {
            Ok((rest, d)) => gives(RDataView::read(t, input@), d@, input@, rest@),
            Err(e) => fails(RDataView::read(t, input@), e),
        },
{
    match t {
        Type::A => parse_rdata_a(input),
        Type::AAAA => parse_rdata_aaaa(input),
        Type::NS => parse_rdata_ns(input),
        Type::CNAME => parse_rdata_cname(input),
        Type::PTR => parse_rdata_ptr(input),
    }
}

/// Reads a resource record.
pub fn parse_rr<'a>(input: &'a [u8]) -> (r: Result<(&'a [u8], ResourceRecord), CodecError>)
    ensures
        match r {
            Ok((rest, rr)) => gives(ResourceRecordView::read(input@), rr@, input@, rest@),
            Err(e) => fails(ResourceRecordView::read(input@), e),
        },
{
    let (rest, name) = parse_rname(input)?;
    let (rest, rr_type) = read_u16(rest)?;
    let rr_type = Type::try_from(rr_type)?;
    let (rest, rr_class) = read_u16(rest)?;
    let rr_class = Class::try_from(rr_class)?;
    let (rest, ttl) = read_u32(rest)?;
    let (rest, rd_len) = read_u16(rest)?;
    let ghost n = name_read(input@)->Ok_0.1;
    assert(rest@ =~= input@.skip(n + 10));
    let (rest, rdata) = parse_rdata(rr_type, rest)?;
    assert(rest@ =~= input@.skip(n + 10 + RDataView::read(rr_type, input@.skip(n + 10))->Ok_0.1));

    Ok((rest, ResourceRecord { name, rr_type, rr_class, ttl, rd_len, rdata }))
}

/// Reads exactly `count` questions.
pub fn parse_questions<'a>(input: &'a [u8], count: u16) -> (r: Result<
    (&'a [u8], Vec<Question>),
    CodecError,
>)
    ensures
        match r {
            Ok((rest, qs)) => gives(
                questions_read(input@, count as nat),
                questions_view(qs@),
                input@,
                rest@,
            ),
            Err(e) => fails(questions_read(input@, count as nat), e),
        },
{
    let mut quests: Vec<Question> = Vec::new();
    let mut rest = input;
    let mut i: u16 = 0;
    let ghost mut used: int = 0;
    assert(input@.skip(0) =~= input@);
    assert(Seq::<QuestionView>::empty() + questions_view(quests@) =~= questions_view(quests@));
    while i < count
        invariant
            i <= count,
            0 <= used <= input@.len(),
            rest@ == input@.skip(used),
            questions_read(input@, count as nat) == entries_after(
                questions_view(quests@),
                used,
                questions_read(rest@, (count - i) as nat),
            ),
        decreases count - i,
    {
        let ghost before = questions_view(quests@);
        let (after, q) = parse_question(rest)?;
        proof {
            let n = QuestionView::read(rest@)->Ok_0.1;
            assert(after@ =~= input@.skip(used + n));
            match questions_read(after@, (count - i - 1) as nat) {
                Err(e) => {},
                Ok((t, m)) => {
                    assert(before + (seq![q@] + t) =~= before.push(q@) + t);
                },
            }
            used = used + n;
        }
        quests.push(q);
        assert(questions_view(quests@) =~= before.push(q@));
        rest = after;
        i += 1;
    }
    assert(questions_view(quests@) + Seq::<QuestionView>::empty() =~= questions_view(quests@));
    Ok((rest, quests))
}

/// Reads exactly `count` resource records.
pub fn parse_rrs<'a>(input: &'a [u8], count: u16) -> (r: Result<
    (&'a [u8], Vec<ResourceRecord>),
    CodecError,
>)
    ensures
        match r {
            Ok((rest, rs)) => gives(
                records_read(input@, count as nat),
                records_view(rs@),
                input@,
                rest@,
            ),
            Err(e) => fails(records_read(input@, count as nat), e),
        },
{
    let mut records: Vec<ResourceRecord> = Vec::new();
    let mut rest = input;
    let mut i: u16 = 0;
    let ghost mut used: int = 0;
    assert(input@.skip(0) =~= input@);
    assert(Seq::<ResourceRecordView>::empty() + records_view(records@) =~= records_view(records@));
    while i < count
        invariant
            i <= count,
            0 <= used <= input@.len(),
            rest@ == input@.skip(used),
            records_read(input@, count as nat) == entries_after(
                records_view(records@),
                used,
                records_read(rest@, (count - i) as nat),
            ),
        decreases count - i,
    {
        let ghost before = records_view(records@);
        let (after, rr) = parse_rr(rest)?;
        proof {
            let n = ResourceRecordView::read(rest@)->Ok_0.1;
            assert(after@ =~= input@.skip(used + n));
            match records_read(after@, (count - i - 1) as nat) {
                Err(e) => {},
                Ok((t, m)) => {
                    assert(before + (seq![rr@] + t) =~= before.push(rr@) + t);
                },
            }
            used = used + n;
        }
        records.push(rr);
        assert(records_view(records@) =~= before.push(rr@));
        rest = after;
        i += 1;
    }
    assert(records_view(records@) + Seq::<ResourceRecordView>::empty() =~= records_view(records@));
    Ok((rest, records))
}

/// Reads a whole message: the header, then the four sections with the
/// numbers of entries that the header's counts say. Either all of it is read
/// or the first failure is handed back.
pub fn parse_msg<'a>(input: &'a [u8]) -> (r: Result<(&'a [u8], Message), CodecError>)
    ensures
        match r {
            Ok((rest, m)) => gives(MessageView::read(input@), m@, input@, rest@),
            Err(e) => fails(MessageView::read(input@), e),
        },
{
    let (rest, header) = parse_header(input)?;
    let (rest1, quests) = parse_questions(rest, header.qd_count)?;
    let ghost n1 = questions_read(rest@, header.qd_count as nat)->Ok_0.1;
    proof {
        lemma_skip_again(input@, 12, n1);
    }
    let (rest2, answs) = parse_rrs(rest1, header.an_count)?;
    let ghost n2 = records_read(rest1@, header.an_count as nat)->Ok_0.1;
    proof {
        lemma_skip_again(input@, 12 + n1, n2);
    }
    let (rest3, auths) = parse_rrs(rest2, header.ns_count)?;
    let ghost n3 = records_read(rest2@, header.ns_count as nat)->Ok_0.1;
    proof {
        lemma_skip_again(input@, 12 + n1 + n2, n3);
    }
    let (rest4, adds) = parse_rrs(rest3, header.ar_count)?;
    let ghost n4 = records_read(rest3@, header.ar_count as nat)->Ok_0.1;
    proof {
        lemma_skip_again(input@, 12 + n1 + n2 + n3, n4);
    }
    Ok(
        (
            rest4,
            Message {
                header,
                quests: present(quests),
                answs: present(answs),
                auths: present(auths),
                adds: present(adds),
            },
        ),
    )
}

} // verus!
