//! A whole message: the header and the four sections.

use crate::dns::header::{Header, OpCode, RespCode, QR};
use crate::dns::question::{Question, QuestionView};
use crate::dns::resourcerecord::{ResourceRecord, ResourceRecordView};
use crate::error::CodecError;
use vstd::prelude::*;

verus! {

/// A message. A section without entries is absent (`None`); the header's
/// counts say how many entries a decoder is to expect in each.
#[derive(Debug, PartialEq)]
pub struct Message {
    pub header: Header,
    pub quests: Option<Vec<Question>>,
    pub answs: Option<Vec<ResourceRecord>>,
    pub auths: Option<Vec<ResourceRecord>>,
    pub adds: Option<Vec<ResourceRecord>>,
}

/// A message as a mathematical value.
pub struct MessageView {
    pub header: Header,
    pub quests: Option<Seq<QuestionView>>,
    pub answs: Option<Seq<ResourceRecordView>>,
    pub auths: Option<Seq<ResourceRecordView>>,
    pub adds: Option<Seq<ResourceRecordView>>,
}

/// The questions of a vector as mathematical values.
pub open spec fn questions_view(qs: Seq<Question>) -> Seq<QuestionView> {
    Seq::new(qs.len(), |i: int| qs[i]@)
}

/// The records of a vector as mathematical values.
pub open spec fn records_view(rs: Seq<ResourceRecord>) -> Seq<ResourceRecordView> {
    Seq::new(rs.len(), |i: int| rs[i]@)
}

/// A section of questions as mathematical values.
pub open spec fn question_section_view(section: Option<Vec<Question>>) -> Option<
    Seq<QuestionView>,
> {
    match section {
        None => None,
        Some(qs) => Some(questions_view(qs@)),
    }
}

/// A section of records as mathematical values.
pub open spec fn record_section_view(section: Option<Vec<ResourceRecord>>) -> Option<
    Seq<ResourceRecordView>,
> {
    match section {
        None => None,
        Some(rs) => Some(records_view(rs@)),
    }
}

impl View for Message {
    type V = MessageView;

    open spec fn view(&self) -> MessageView {
        MessageView {
            header: self.header,
            quests: question_section_view(self.quests),
            answs: record_section_view(self.answs),
            auths: record_section_view(self.auths),
            adds: record_section_view(self.adds),
        }
    }
}

/// The entries of a section: none where it is absent.
pub open spec fn entries<T>(section: Option<Seq<T>>) -> Seq<T> {
    match section {
        None => Seq::empty(),
        Some(items) => items,
    }
}

/// The section that holds `items`: absent where there are none.
pub open spec fn section<T>(items: Seq<T>) -> Option<Seq<T>> {
    if items.len() == 0 {
        None
    } else {
        Some(items)
    }
}

/// What reading entries gives once some have been read: `acc` holds them,
/// `used` octets went into them, and `tail` is what reading the entries that
/// are still owed gives.
pub open spec fn entries_after<T>(
    acc: Seq<T>,
    used: int,
    tail: Result<(Seq<T>, int), CodecError>,
) -> Result<(Seq<T>, int), CodecError> {
    match tail {
        Err(e) => Err(e),
        Ok((t, m)) => Ok((acc + t, used + m)),
    }
}

/// Whether every question of `qs` is canonical.
pub open spec fn questions_canonical(qs: Seq<QuestionView>) -> bool {
    forall|i: int| 0 <= i < qs.len() ==> (#[trigger] qs[i]).canonical()
}

/// Whether every record of `rs` is canonical.
pub open spec fn records_canonical(rs: Seq<ResourceRecordView>) -> bool {
    forall|i: int| 0 <= i < rs.len() ==> (#[trigger] rs[i]).canonical()
}

/// Whether every question of `qs` can be encoded.
pub open spec fn questions_fit(qs: Seq<QuestionView>) -> bool {
    forall|i: int| 0 <= i < qs.len() ==> (#[trigger] qs[i]).fits()
}

/// The questions of `qs` on the wire, in order.
pub open spec fn questions_wire(qs: Seq<QuestionView>) -> Seq<u8>
    decreases qs.len(),
{
    if qs.len() == 0 {
        Seq::empty()
    } else {
        qs[0].wire() + questions_wire(qs.skip(1))
    }
}

/// What reading `count` questions gives: the questions and how many octets
/// they took together, or the first failure.
pub open spec fn questions_read(bytes: Seq<u8>, count: nat) -> Result<
    (Seq<QuestionView>, int),
    CodecError,
>
    decreases count,
{
    if count == 0 {
        Ok((Seq::empty(), 0))
    } else {
        match QuestionView::read(bytes) {
            Err(e) => Err(e),
            Ok((q, n)) => match questions_read(bytes.skip(n), (count - 1) as nat) {
                Err(e) => Err(e),
                Ok((qs, m)) => Ok((seq![q] + qs, n + m)),
            },
        }
    }
}

/// Whether every record of `rs` can be encoded.
pub open spec fn records_fit(rs: Seq<ResourceRecordView>) -> bool {
    forall|i: int| 0 <= i < rs.len() ==> (#[trigger] rs[i]).fits()
}

/// The records of `rs` on the wire, in order.
pub open spec fn records_wire(rs: Seq<ResourceRecordView>) -> Seq<u8>
    decreases rs.len(),
{
    if rs.len() == 0 {
        Seq::empty()
    } else {
        rs[0].wire() + records_wire(rs.skip(1))
    }
}

/// What reading `count` records gives: the records and how many octets they
/// took together, or the first failure.
pub open spec fn records_read(bytes: Seq<u8>, count: nat) -> Result<
    (Seq<ResourceRecordView>, int),
    CodecError,
>
    decreases count,
{
    if count == 0 {
        Ok((Seq::empty(), 0))
    } else {
        match ResourceRecordView::read(bytes) {
            Err(e) => Err(e),
            Ok((r, n)) => match records_read(bytes.skip(n), (count - 1) as nat) {
                Err(e) => Err(e),
                Ok((rs, m)) => Ok((seq![r] + rs, n + m)),
            },
        }
    }
}

impl MessageView {
    /// What reading a message gives: the header, then as many questions,
    /// answers, authority records and additional records as the header's
    /// four counts say, each section read where the one before it ended. A
    /// section of no entries is absent. The first failure is that of the
    /// whole message.
    pub open spec fn read(bytes: Seq<u8>) -> Result<(MessageView, int), CodecError> {
        match Header::read(bytes) {
            Err(e) => Err(e),
            Ok((header, n0)) => match questions_read(bytes.skip(n0), header.qd_count as nat) {
                Err(e) => Err(e),
                Ok((quests, n1)) => match records_read(
                    bytes.skip(n0 + n1),
                    header.an_count as nat,
                ) {
                    Err(e) => Err(e),
                    Ok((answs, n2)) => match records_read(
                        bytes.skip(n0 + n1 + n2),
                        header.ns_count as nat,
                    ) {
                        Err(e) => Err(e),
                        Ok((auths, n3)) => match records_read(
                            bytes.skip(n0 + n1 + n2 + n3),
                            header.ar_count as nat,
                        ) {
                            Err(e) => Err(e),
                            Ok((adds, n4)) => Ok(
                                (
                                    MessageView {
                                        header,
                                        quests: section(quests),
                                        answs: section(answs),
                                        auths: section(auths),
                                        adds: section(adds),
                                    },
                                    n0 + n1 + n2 + n3 + n4,
                                ),
                            ),
                        },
                    },
                },
            },
        }
    }

    /// Whether this message is written the way it is read: each count of the
    /// header is the number of entries of its section, no section is present
    /// without entries, and every entry is canonical.
    pub open spec fn canonical(self) -> bool {
        &&& self.quests == section(entries(self.quests))
        &&& self.answs == section(entries(self.answs))
        &&& self.auths == section(entries(self.auths))
        &&& self.adds == section(entries(self.adds))
        &&& self.header.qd_count == entries(self.quests).len()
        &&& self.header.an_count == entries(self.answs).len()
        &&& self.header.ns_count == entries(self.auths).len()
        &&& self.header.ar_count == entries(self.adds).len()
        &&& questions_canonical(entries(self.quests))
        &&& records_canonical(entries(self.answs))
        &&& records_canonical(entries(self.auths))
        &&& records_canonical(entries(self.adds))
    }

    /// Whether some section holds more entries than a 16-bit count can say.
    pub open spec fn overfull(self) -> bool {
        entries(self.quests).len() > 65535 || entries(self.answs).len() > 65535 || entries(
            self.auths,
        ).len() > 65535 || entries(self.adds).len() > 65535
    }

    /// Whether this message can be encoded: no section is overfull, and every
    /// entry of every section can be encoded.
    pub open spec fn fits(self) -> bool {
        !self.overfull() && questions_fit(entries(self.quests)) && records_fit(
            entries(self.answs),
        ) && records_fit(entries(self.auths)) && records_fit(entries(self.adds))
    }

    /// This message on the wire: the header, then the entries of the
    /// question, answer, authority and additional sections, in that order.
    pub open spec fn wire(self) -> Seq<u8> {
        self.header.wire() + questions_wire(entries(self.quests)) + records_wire(
            entries(self.answs),
        ) + records_wire(entries(self.auths)) + records_wire(entries(self.adds))
    }
}

/// The query that asks the questions `qs` under the identifier `id`: a
/// standard query with every flag clear, whose question count is the number
/// of questions and whose other counts are zero.
pub open spec fn query_message(id: u16, qs: Seq<QuestionView>) -> MessageView {
    MessageView {
        header: Header {
            id,
            qr: QR::Query,
            op: OpCode::StdQuery,
            auth_answ: false,
            trunc_resp: false,
            rec_desired: false,
            rec_avail: false,
            rcode: RespCode::NoError,
            qd_count: qs.len() as u16,
            an_count: 0,
            ns_count: 0,
            ar_count: 0,
        },
        quests: section(qs),
        answs: None,
        auths: None,
        adds: None,
    }
}

/// Appends every question of `qs`, in order.
fn append_questions(bytes: &mut Vec<u8>, qs: &Vec<Question>) -> (r: Result<(), CodecError>)
    ensures
        match r {
            Ok(()) => questions_fit(questions_view(qs@)) && final(bytes)@ == old(bytes)@
                + questions_wire(questions_view(qs@)),
            Err(e) => !questions_fit(questions_view(qs@)) && e == CodecError::LabelTooLong,
        },
{
    let ghost all = questions_view(qs@);
    let ghost mut out: Seq<u8> = Seq::empty();
    let mut i: usize = 0;
    assert(all.skip(0) =~= all);
    while i < qs.len()
        invariant
            all == questions_view(qs@),
            i <= qs.len(),
            bytes@ == old(bytes)@ + out,
            questions_wire(all) == out + questions_wire(all.skip(i as int)),
            forall|j: int| 0 <= j < i ==> (#[trigger] all[j]).fits(),
        decreases qs.len() - i,
    {
        let ghost tail = all.skip(i as int);
        assert(tail[0] == all[i as int]);
        assert(tail.skip(1) =~= all.skip(i + 1));
        match qs[i].to_bytes() {
            Err(e) => {
                assert(!all[i as int].fits());
                return Err(e);
            },
            Ok(mut q) => {
                proof {
                    assert(out + questions_wire(tail) =~= (out + q@) + questions_wire(
                        all.skip(i + 1),
                    ));
                    assert(bytes@ + q@ =~= old(bytes)@ + (out + q@));
                    out = out + q@;
                }
                bytes.append(&mut q);
            },
        }
        i += 1;
    }
    assert(out + questions_wire(all.skip(i as int)) =~= out);
    Ok(())
}

/// Appends every record of `rs`, in order.
fn append_records(bytes: &mut Vec<u8>, rs: &Vec<ResourceRecord>) -> (r: Result<(), CodecError>)
    ensures
        match r {
            Ok(()) => records_fit(records_view(rs@)) && final(bytes)@ == old(bytes)@
                + records_wire(records_view(rs@)),
            Err(e) => !records_fit(records_view(rs@)) && e == CodecError::LabelTooLong,
        },
{
    let ghost all = records_view(rs@);
    let ghost mut out: Seq<u8> = Seq::empty();
    let mut i: usize = 0;
    assert(all.skip(0) =~= all);
    while i < rs.len()
        invariant
            all == records_view(rs@),
            i <= rs.len(),
            bytes@ == old(bytes)@ + out,
            records_wire(all) == out + records_wire(all.skip(i as int)),
            forall|j: int| 0 <= j < i ==> (#[trigger] all[j]).fits(),
        decreases rs.len() - i,
    {
        let ghost tail = all.skip(i as int);
        assert(tail[0] == all[i as int]);
        assert(tail.skip(1) =~= all.skip(i + 1));
        match rs[i].to_bytes() {
            Err(e) => {
                assert(!all[i as int].fits());
                return Err(e);
            },
            Ok(mut a) => {
                proof {
                    assert(out + records_wire(tail) =~= (out + a@) + records_wire(
                        all.skip(i + 1),
                    ));
                    assert(bytes@ + a@ =~= old(bytes)@ + (out + a@));
                    out = out + a@;
                }
                bytes.append(&mut a);
            },
        }
        i += 1;
    }
    assert(out + records_wire(all.skip(i as int)) =~= out);
    Ok(())
}

/// Appends the records of a section, where it is present.
fn append_section(bytes: &mut Vec<u8>, aces: &Option<Vec<ResourceRecord>>) -> (r: Result<
    (),
    CodecError,
>)
    ensures
        match r {
            Ok(()) => records_fit(entries(record_section_view(*aces))) && final(bytes)@ == old(
                bytes,
            )@ + records_wire(entries(record_section_view(*aces))),
            Err(e) => !records_fit(entries(record_section_view(*aces))) && e
                == CodecError::LabelTooLong,
        },
{
    match aces {
        None => {
            assert(bytes@ =~= old(bytes)@ + records_wire(Seq::empty()));
            Ok(())
        },
        Some(ace) => append_records(bytes, ace),
    }
}

/// The section that holds `items`: absent where there are none.
pub(crate) fn present<T>(items: Vec<T>) -> (section: Option<Vec<T>>)
    ensures
        section == (if items@.len() == 0 {
            None::<Vec<T>>
        } else {
            Some(items)
        }),
{
    if items.is_empty() {
        None
    } else {
        Some(items)
    }
}

/// Whether a section is present with more entries than a 16-bit count can
/// say.
fn too_many<T>(section: &Option<Vec<T>>) -> (b: bool)
    ensures
        b == (match *section {
            None => false,
            Some(items) => items@.len() > 65535,
        }),
{
    match section {
        None => false,
        Some(items) => items.len() > 65535,
    }
}

impl Message {
    /// Encodes this message: the header as it stands, then every entry that
    /// the sections hold, whatever the header's counts say. Fails with
    /// `TooManyEntries` exactly where a section holds more than 65535
    /// entries, and else with `LabelTooLong` exactly where some name in the
    /// message has a label longer than 255 octets.
    pub fn to_bytes(&self) -> (r: Result<Vec<u8>, CodecError>)
        ensures
            match r {
                Ok(bytes) => self@.fits() && bytes@ == self@.wire(),
                Err(e) => !self@.fits() && e == if self@.overfull() {
                    CodecError::TooManyEntries
                } else {
                    CodecError::LabelTooLong
                },
            },
    {
        if too_many(&self.quests) || too_many(&self.answs) || too_many(&self.auths) || too_many(
            &self.adds,
        ) {
            return Err(CodecError::TooManyEntries);
        }
        let mut bytes: Vec<u8> = Vec::new();

        let mut header = self.header.to_bytes();
        bytes.append(&mut header);

        if let Some(quests) = &self.quests {
            append_questions(&mut bytes, quests)?;
        } else {
            assert(bytes@ =~= bytes@ + questions_wire(Seq::empty()));
        }

        append_section(&mut bytes, &self.answs)?;
        append_section(&mut bytes, &self.auths)?;
        append_section(&mut bytes, &self.adds)?;

        Ok(bytes)
    }

    /// Builds the query that asks `quests` under the identifier `id`: a
    /// standard query with every flag clear, whose question count is the
    /// number of questions and whose other counts are zero. Without
    /// questions the question section is absent. Fails with `TooManyEntries`
    /// exactly where there are more than 65535 questions.
    pub fn build_query(id: u16, quests: Vec<Question>) -> (r: Result<Message, CodecError>)
        ensures
            match r {
                Ok(m) => quests@.len() <= 65535 && m@ == query_message(
                    id,
                    questions_view(quests@),
                ) && m.quests == (if quests@.len() == 0 {
                    None::<Vec<Question>>
                } else {
                    Some(quests)
                }),
                Err(e) => quests@.len() > 65535 && e == CodecError::TooManyEntries,
            },
    {
        if quests.len() > 65535 {
            return Err(CodecError::TooManyEntries);
        }
        let qd_count: u16 = quests.len() as u16;
        let header = Header {
            id,
            qr: QR::Query,
            op: OpCode::StdQuery,
            auth_answ: false,
            trunc_resp: false,
            rec_desired: false,
            rec_avail: false,
            rcode: RespCode::NoError,
            qd_count,
            an_count: 0,
            ns_count: 0,
            ar_count: 0,
        };

        Ok(Message { header, quests: present(quests), answs: None, auths: None, adds: None })
    }
}

} // verus!
