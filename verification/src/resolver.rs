//! The query that a lookup of a host name sends: one question for its IPv4
//! address and one for its IPv6 address, under a fresh identifier.

use crate::dns::message::{query_message, questions_view, Message, MessageView};
use crate::dns::name::name_fits;
use crate::dns::question::{Question, QuestionView};
use crate::dns::{QClass, QType};
use crate::error::CodecError;
use vstd::prelude::*;

verus! {

/// Draws an identifier with `rand::random`. Nothing is said of the value:
/// every call may give another one.
#[verifier::external_body]
fn fresh_id() -> (id: u16) {
    rand::random::<u16>()
}

/// The two questions of a lookup of `hostname`: its A record and its AAAA
/// record, both of class IN.
pub open spec fn lookup_questions(hostname: Seq<char>) -> Seq<QuestionView> {
    seq![
        QuestionView { qname: hostname, qtype: QType::A, qclass: QClass::IN },
        QuestionView { qname: hostname, qtype: QType::AAAA, qclass: QClass::IN },
    ]
}

/// The message that looks `hostname` up under the identifier `id`: a
/// standard query with every flag clear and the two questions of the lookup.
pub open spec fn lookup_message(id: u16, hostname: Seq<char>) -> MessageView {
    query_message(id, lookup_questions(hostname))
}

/// The octets of the query that looks `hostname` up under the identifier
/// `id`. Fails with `LabelTooLong` exactly where a label of `hostname` is
/// longer than 255 octets.
pub fn lookup_query(id: u16, hostname: &str) -> (r: Result<Vec<u8>, CodecError>)
    ensures
        match r {
            Ok(bytes) => name_fits(hostname@) && bytes@ == lookup_message(id, hostname@).wire(),
            Err(e) => !name_fits(hostname@) && e == CodecError::LabelTooLong,
        },
{
    let mut qs: Vec<Question> = Vec::new();
    qs.push(Question { qname: hostname.to_owned(), qtype: QType::A, qclass: QClass::IN });
    qs.push(Question { qname: hostname.to_owned(), qtype: QType::AAAA, qclass: QClass::IN });
    assert(questions_view(qs@) =~= lookup_questions(hostname@));

    let m = Message::build_query(id, qs)?;
    assert(m@ == lookup_message(id, hostname@));
    assert(lookup_questions(hostname@)[0].fits() == name_fits(hostname@));
    m.to_bytes()
}

/// The identifier drawn for a lookup of `hostname`, and the octets of the
/// query that looks it up under that identifier. Fails with `LabelTooLong`
/// exactly where a label of `hostname` is longer than 255 octets.
pub fn fresh_lookup_query(hostname: &str) -> (r: Result<(u16, Vec<u8>), CodecError>)
    ensures
        match r {
            Ok((id, bytes)) => name_fits(hostname@) && bytes@ == lookup_message(
                id,
                hostname@,
            ).wire(),
            Err(e) => !name_fits(hostname@) && e == CodecError::LabelTooLong,
        },
{
    let id: u16 = fresh_id();
    let bytes = lookup_query(id, hostname)?;
    Ok((id, bytes))
}

} // verus!
