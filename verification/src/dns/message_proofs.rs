//! What holds of whole messages on the wire: a canonical message reads back
//! as it was, a message cut short fails as truncated, and a message that
//! was read is whole.

use crate::dns::header::{lemma_header_roundtrip, Header};
use crate::dns::message::{
    entries, questions_canonical, questions_fit, questions_read, questions_wire,
    query_message, records_canonical, records_fit, records_read, records_wire, section,
    MessageView,
};
use crate::dns::question::{
    lemma_question_cut, lemma_question_read_bounds, lemma_question_roundtrip, QuestionView,
};
use crate::dns::resourcerecord::{
    lemma_record_cut, lemma_record_read_bounds, lemma_record_roundtrip, ResourceRecordView,
};
use crate::error::CodecError;
use vstd::prelude::*;

verus! {

/// A sequence that is not empty is its first entry and then the others.
proof fn lemma_first_and_others<T>(items: Seq<T>)
    requires
        items.len() > 0,
    ensures
        seq![items[0]] + items.skip(1) == items,
{
    assert(seq![items[0]] + items.skip(1) =~= items);
}

/// Joining three sequences gives the same whichever two are joined first,
/// and what stands behind the first is the other two.
proof fn lemma_joined_three(a: Seq<u8>, b: Seq<u8>, c: Seq<u8>)
    ensures
        (a + b) + c == a + (b + c),
        (a + (b + c)).skip(a.len() as int) == b + c,
{
    assert((a + b) + c =~= a + (b + c));
    assert((a + (b + c)).skip(a.len() as int) =~= b + c);
}

/// The first octets of two joined sequences: those of the first, or all of
/// the first and then the first of the second.
proof fn lemma_take_joined(x: Seq<u8>, y: Seq<u8>, j: int)
    requires
        0 <= j <= x.len() + y.len(),
    ensures
        j <= x.len() ==> (x + y).take(j) == x.take(j),
        j >= x.len() ==> (x + y).take(j) == x + y.take(j - x.len()),
        (x + y).skip(x.len() as int) == y,
{
    if j <= x.len() {
        assert((x + y).take(j) =~= x.take(j));
    }
    if j >= x.len() {
        assert((x + y).take(j) =~= x + y.take(j - x.len()));
    }
    assert((x + y).skip(x.len() as int) =~= y);
}

/// Canonical questions stay canonical without the first of them.
proof fn lemma_questions_canonical_tail(qs: Seq<QuestionView>)
    requires
        questions_canonical(qs),
        qs.len() > 0,
    ensures
        questions_canonical(qs.skip(1)),
        qs[0].canonical(),
{
    let tail = qs.skip(1);
    assert forall|i: int| 0 <= i < tail.len() implies (#[trigger] tail[i]).canonical() by {
        assert(tail[i] == qs[i + 1]);
    }
}

/// Canonical questions can be encoded.
proof fn lemma_questions_canonical_fit(qs: Seq<QuestionView>)
    requires
        questions_canonical(qs),
    ensures
        questions_fit(qs),
{
    assert forall|i: int| 0 <= i < qs.len() implies (#[trigger] qs[i]).fits() by {
        lemma_question_roundtrip(qs[i], Seq::empty());
    }
}

/// Reading questions reads the first, then the others behind it.
proof fn lemma_questions_read_first(
    bytes: Seq<u8>,
    count: nat,
    first: QuestionView,
    n: int,
    tail: Seq<QuestionView>,
    m: int,
)
    requires
        count > 0,
        QuestionView::read(bytes) == Ok::<(QuestionView, int), CodecError>((first, n)),
        questions_read(bytes.skip(n), (count - 1) as nat) == Ok::<(Seq<QuestionView>, int), CodecError>(
            (tail, m),
        ),
    ensures
        questions_read(bytes, count) == Ok::<(Seq<QuestionView>, int), CodecError>((seq![first] + tail, n + m)),
{
}

/// Reading questions fails where the first of them is cut short, and where the
/// first reads and the others are cut short.
proof fn lemma_questions_read_cut(bytes: Seq<u8>, count: nat)
    requires
        count > 0,
        match QuestionView::read(bytes) {
            Err(e) => e == CodecError::Truncated,
            Ok((_, n)) => questions_read(bytes.skip(n), (count - 1) as nat) == Err::<
                (Seq<QuestionView>, int),
                CodecError,
            >(CodecError::Truncated),
        },
    ensures
        questions_read(bytes, count) == Err::<(Seq<QuestionView>, int), CodecError>(CodecError::Truncated),
{
}

/// Canonical questions, once written, are what reading as many gives.
proof fn lemma_questions_read_back(qs: Seq<QuestionView>, rest: Seq<u8>)
    requires
        questions_canonical(qs),
    ensures
        questions_read(questions_wire(qs) + rest, qs.len()) == Ok::<(Seq<QuestionView>, int), CodecError>(
            (qs, questions_wire(qs).len() as int),
        ),
    decreases qs.len(),
{
    if qs.len() == 0 {
        assert(qs =~= Seq::<QuestionView>::empty());
    } else {
        let first = qs[0];
        let tail = qs.skip(1);
        let after = questions_wire(tail) + rest;
        lemma_questions_canonical_tail(qs);
        lemma_question_roundtrip(first, after);
        lemma_questions_read_back(tail, rest);
        lemma_joined_three(first.wire(), questions_wire(tail), rest);
        lemma_first_and_others(qs);
        lemma_questions_read_first(
            first.wire() + after,
            qs.len(),
            first,
            first.wire().len() as int,
            tail,
            questions_wire(tail).len() as int,
        );
    }
}

/// Canonical questions read back from their wire form as they were, whatever
/// follows that form.
pub proof fn lemma_questions_roundtrip(qs: Seq<QuestionView>, rest: Seq<u8>)
    requires
        questions_canonical(qs),
    ensures
        questions_fit(qs),
        questions_read(questions_wire(qs) + rest, qs.len()) == Ok::<(Seq<QuestionView>, int), CodecError>(
            (qs, questions_wire(qs).len() as int),
        ),
{
    lemma_questions_canonical_fit(qs);
    lemma_questions_read_back(qs, rest);
}

/// The wire form of canonical questions, cut short anywhere, fails to read as
/// `Truncated`.
pub proof fn lemma_questions_cut(qs: Seq<QuestionView>, j: int)
    requires
        questions_canonical(qs),
        0 <= j < questions_wire(qs).len(),
    ensures
        questions_read(questions_wire(qs).take(j), qs.len()) == Err::<(Seq<QuestionView>, int), CodecError>(
            CodecError::Truncated,
        ),
    decreases qs.len(),
{
    if qs.len() > 0 {
        let first = qs[0];
        let tail = qs.skip(1);
        let n = first.wire().len() as int;
        let bytes = questions_wire(qs).take(j);
        lemma_questions_canonical_tail(qs);
        lemma_take_joined(first.wire(), questions_wire(tail), j);
        if j < n {
            lemma_question_cut(first, j);
        } else {
            let after = questions_wire(tail).take(j - n);
            lemma_question_roundtrip(first, after);
            lemma_questions_cut(tail, j - n);
            lemma_take_joined(first.wire(), after, 0);
        }
        lemma_questions_read_cut(bytes, qs.len());
    }
}

/// Canonical records stay canonical without the first of them.
proof fn lemma_records_canonical_tail(rs: Seq<ResourceRecordView>)
    requires
        records_canonical(rs),
        rs.len() > 0,
    ensures
        records_canonical(rs.skip(1)),
        rs[0].canonical(),
{
    let tail = rs.skip(1);
    assert forall|i: int| 0 <= i < tail.len() implies (#[trigger] tail[i]).canonical() by {
        assert(tail[i] == rs[i + 1]);
    }
}

/// Canonical records can be encoded.
proof fn lemma_records_canonical_fit(rs: Seq<ResourceRecordView>)
    requires
        records_canonical(rs),
    ensures
        records_fit(rs),
{
    assert forall|i: int| 0 <= i < rs.len() implies (#[trigger] rs[i]).fits() by {
        lemma_record_roundtrip(rs[i], Seq::empty());
    }
}

/// Reading records reads the first, then the others behind it.
proof fn lemma_records_read_first(
    bytes: Seq<u8>,
    count: nat,
    first: ResourceRecordView,
    n: int,
    tail: Seq<ResourceRecordView>,
    m: int,
)
    requires
        count > 0,
        ResourceRecordView::read(bytes) == Ok::<(ResourceRecordView, int), CodecError>((first, n)),
        records_read(bytes.skip(n), (count - 1) as nat) == Ok::<(Seq<ResourceRecordView>, int), CodecError>(
            (tail, m),
        ),
    ensures
        records_read(bytes, count) == Ok::<(Seq<ResourceRecordView>, int), CodecError>((seq![first] + tail, n + m)),
{
}

/// Reading records fails where the first of them is cut short, and where the
/// first reads and the others are cut short.
proof fn lemma_records_read_cut(bytes: Seq<u8>, count: nat)
    requires
        count > 0,
        match ResourceRecordView::read(bytes) {
            Err(e) => e == CodecError::Truncated,
            Ok((_, n)) => records_read(bytes.skip(n), (count - 1) as nat) == Err::<
                (Seq<ResourceRecordView>, int),
                CodecError,
            >(CodecError::Truncated),
        },
    ensures
        records_read(bytes, count) == Err::<(Seq<ResourceRecordView>, int), CodecError>(CodecError::Truncated),
{
}

/// Canonical records, once written, are what reading as many gives.
proof fn lemma_records_read_back(rs: Seq<ResourceRecordView>, rest: Seq<u8>)
    requires
        records_canonical(rs),
    ensures
        records_read(records_wire(rs) + rest, rs.len()) == Ok::<(Seq<ResourceRecordView>, int), CodecError>(
            (rs, records_wire(rs).len() as int),
        ),
    decreases rs.len(),
{
    if rs.len() == 0 {
        assert(rs =~= Seq::<ResourceRecordView>::empty());
    } else {
        let first = rs[0];
        let tail = rs.skip(1);
        let after = records_wire(tail) + rest;
        lemma_records_canonical_tail(rs);
        lemma_record_roundtrip(first, after);
        lemma_records_read_back(tail, rest);
        lemma_joined_three(first.wire(), records_wire(tail), rest);
        lemma_first_and_others(rs);
        lemma_records_read_first(
            first.wire() + after,
            rs.len(),
            first,
            first.wire().len() as int,
            tail,
            records_wire(tail).len() as int,
        );
    }
}

/// Canonical records read back from their wire form as they were, whatever
/// follows that form.
pub proof fn lemma_records_roundtrip(rs: Seq<ResourceRecordView>, rest: Seq<u8>)
    requires
        records_canonical(rs),
    ensures
        records_fit(rs),
        records_read(records_wire(rs) + rest, rs.len()) == Ok::<(Seq<ResourceRecordView>, int), CodecError>(
            (rs, records_wire(rs).len() as int),
        ),
{
    lemma_records_canonical_fit(rs);
    lemma_records_read_back(rs, rest);
}

/// The wire form of canonical records, cut short anywhere, fails to read as
/// `Truncated`.
pub proof fn lemma_records_cut(rs: Seq<ResourceRecordView>, j: int)
    requires
        records_canonical(rs),
        0 <= j < records_wire(rs).len(),
    ensures
        records_read(records_wire(rs).take(j), rs.len()) == Err::<(Seq<ResourceRecordView>, int), CodecError>(
            CodecError::Truncated,
        ),
    decreases rs.len(),
{
    if rs.len() > 0 {
        let first = rs[0];
        let tail = rs.skip(1);
        let n = first.wire().len() as int;
        let bytes = records_wire(rs).take(j);
        lemma_records_canonical_tail(rs);
        lemma_take_joined(first.wire(), records_wire(tail), j);
        if j < n {
            lemma_record_cut(first, j);
        } else {
            let after = records_wire(tail).take(j - n);
            lemma_record_roundtrip(first, after);
            lemma_records_cut(tail, j - n);
            lemma_take_joined(first.wire(), after, 0);
        }
        lemma_records_read_cut(bytes, rs.len());
    }
}

/// Reading `count` questions gives `count` questions, out of the octets that
/// were given.
pub proof fn lemma_questions_read_bounds(bytes: Seq<u8>, count: nat)
    ensures
        questions_read(bytes, count) matches Ok((qs, n)) ==> qs.len() == count && 0 <= n
            <= bytes.len(),
    decreases count,
{
    if count > 0 {
        lemma_question_read_bounds(bytes);
        match QuestionView::read(bytes) {
            Err(_) => {},
            Ok((_, n)) => {
                lemma_questions_read_bounds(bytes.skip(n), (count - 1) as nat);
            },
        }
    }
}

/// Reading `count` records gives `count` records, out of the octets that
/// were given.
pub proof fn lemma_records_read_bounds(bytes: Seq<u8>, count: nat)
    ensures
        records_read(bytes, count) matches Ok((rs, n)) ==> rs.len() == count && 0 <= n
            <= bytes.len(),
    decreases count,
{
    if count > 0 {
        lemma_record_read_bounds(bytes);
        match ResourceRecordView::read(bytes) {
            Err(_) => {},
            Ok((_, n)) => {
                lemma_records_read_bounds(bytes.skip(n), (count - 1) as nat);
            },
        }
    }
}

/// Reading `bytes` gives the header `h`. Opaque, as are the five that
/// follow, so that the proofs about whole messages handle what the parts
/// read as without looking into how they are read.
#[verifier::opaque]
spec fn header_gives(bytes: Seq<u8>, h: Header) -> bool {
    Header::read(bytes) == Ok::<(Header, int), CodecError>((h, 12))
}

/// Reading `count` questions from `bytes` gives `qs` out of `n` octets.
#[verifier::opaque]
spec fn questions_give(bytes: Seq<u8>, count: nat, qs: Seq<QuestionView>, n: int) -> bool {
    questions_read(bytes, count) == Ok::<(Seq<QuestionView>, int), CodecError>((qs, n))
}

/// Reading `count` questions from `bytes` fails as `Truncated`.
#[verifier::opaque]
spec fn questions_short(bytes: Seq<u8>, count: nat) -> bool {
    questions_read(bytes, count) == Err::<(Seq<QuestionView>, int), CodecError>(
        CodecError::Truncated,
    )
}

/// Reading `count` records from `bytes` gives `rs` out of `n` octets.
#[verifier::opaque]
spec fn records_give(bytes: Seq<u8>, count: nat, rs: Seq<ResourceRecordView>, n: int) -> bool {
    records_read(bytes, count) == Ok::<(Seq<ResourceRecordView>, int), CodecError>((rs, n))
}

/// Reading `count` records from `bytes` fails as `Truncated`.
#[verifier::opaque]
spec fn records_short(bytes: Seq<u8>, count: nat) -> bool {
    records_read(bytes, count) == Err::<(Seq<ResourceRecordView>, int), CodecError>(
        CodecError::Truncated,
    )
}

/// Reading a message from `bytes` fails as `Truncated`.
#[verifier::opaque]
spec fn message_short(bytes: Seq<u8>) -> bool {
    MessageView::read(bytes) == Err::<(MessageView, int), CodecError>(CodecError::Truncated)
}

/// Reading a message from `bytes` gives `m` out of `n` octets.
#[verifier::opaque]
spec fn message_gives(bytes: Seq<u8>, m: MessageView, n: int) -> bool {
    MessageView::read(bytes) == Ok::<(MessageView, int), CodecError>((m, n))
}

/// A header reads back, whatever follows it.
proof fn lemma_header_gives(h: Header, rest: Seq<u8>)
    ensures
        h.wire().len() == 12,
        header_gives(h.wire() + rest, h),
{
    reveal(header_gives);
    lemma_header_roundtrip(h, rest);
}

/// Fewer than twelve octets read as no message.
proof fn lemma_header_short(bytes: Seq<u8>)
    requires
        bytes.len() < 12,
    ensures
        message_short(bytes),
{
    reveal(message_short);
}

/// The first `j` octets of the wire form of canonical questions and of what
/// follows it, `y`: cut short within the questions they fail to read as
/// `Truncated`, and else they give the questions back.
proof fn lemma_questions_section(qs: Seq<QuestionView>, y: Seq<u8>, j: int)
    requires
        questions_canonical(qs),
        0 <= j <= questions_wire(qs).len() + y.len(),
    ensures
        j < questions_wire(qs).len() ==> questions_short(
            (questions_wire(qs) + y).take(j),
            qs.len(),
        ),
        j >= questions_wire(qs).len() ==> questions_give(
            (questions_wire(qs) + y).take(j),
            qs.len(),
            qs,
            questions_wire(qs).len() as int,
        ),
{
    reveal(questions_short);
    reveal(questions_give);
    let x = questions_wire(qs);
    lemma_take_joined(x, y, j);
    if j < x.len() {
        lemma_questions_cut(qs, j);
    } else {
        lemma_questions_roundtrip(qs, y.take(j - x.len()));
    }
}

/// The same of canonical records.
proof fn lemma_records_section(rs: Seq<ResourceRecordView>, y: Seq<u8>, j: int)
    requires
        records_canonical(rs),
        0 <= j <= records_wire(rs).len() + y.len(),
    ensures
        j < records_wire(rs).len() ==> records_short((records_wire(rs) + y).take(j), rs.len()),
        j >= records_wire(rs).len() ==> records_give(
            (records_wire(rs) + y).take(j),
            rs.len(),
            rs,
            records_wire(rs).len() as int,
        ),
{
    reveal(records_short);
    reveal(records_give);
    let x = records_wire(rs);
    lemma_take_joined(x, y, j);
    if j < x.len() {
        lemma_records_cut(rs, j);
    } else {
        lemma_records_roundtrip(rs, y.take(j - x.len()));
    }
}

/// Canonical questions read back, whatever follows them.
proof fn lemma_questions_give(qs: Seq<QuestionView>, rest: Seq<u8>)
    requires
        questions_canonical(qs),
    ensures
        questions_give(questions_wire(qs) + rest, qs.len(), qs, questions_wire(qs).len() as int),
{
    reveal(questions_give);
    lemma_questions_roundtrip(qs, rest);
}

/// Canonical records read back, whatever follows them.
proof fn lemma_records_give(rs: Seq<ResourceRecordView>, rest: Seq<u8>)
    requires
        records_canonical(rs),
    ensures
        records_give(records_wire(rs) + rest, rs.len(), rs, records_wire(rs).len() as int),
{
    reveal(records_give);
    lemma_records_roundtrip(rs, rest);
}

/// A canonical message can be encoded.
proof fn lemma_message_canonical_fits(m: MessageView)
    requires
        m.canonical(),
    ensures
        m.fits(),
{
    lemma_questions_canonical_fit(entries(m.quests));
    lemma_records_canonical_fit(entries(m.answs));
    lemma_records_canonical_fit(entries(m.auths));
    lemma_records_canonical_fit(entries(m.adds));
}

/// What reading a message gives, said from what reading its parts gives.
proof fn lemma_message_read_parts(
    bytes: Seq<u8>,
    m: MessageView,
    n1: int,
    n2: int,
    n3: int,
    n4: int,
)
    requires
        m.quests == section(entries(m.quests)),
        m.answs == section(entries(m.answs)),
        m.auths == section(entries(m.auths)),
        m.adds == section(entries(m.adds)),
        header_gives(bytes, m.header),
        questions_give(bytes.skip(12), m.header.qd_count as nat, entries(m.quests), n1),
        records_give(bytes.skip(12 + n1), m.header.an_count as nat, entries(m.answs), n2),
        records_give(bytes.skip(12 + n1 + n2), m.header.ns_count as nat, entries(m.auths), n3),
        records_give(
            bytes.skip(12 + n1 + n2 + n3),
            m.header.ar_count as nat,
            entries(m.adds),
            n4,
        ),
    ensures
        message_gives(bytes, m, 12 + n1 + n2 + n3 + n4),
{
    reveal(header_gives);
    reveal(questions_give);
    reveal(records_give);
    reveal(message_gives);
}

/// What reading a message gives where a section is cut short behind
/// sections that read: the sections before `cut` (1 for the questions, 4 for
/// the additional records) read, and the one at `cut` fails as `Truncated`.
proof fn lemma_message_read_cut(
    bytes: Seq<u8>,
    h: Header,
    cut: int,
    qs: Seq<QuestionView>,
    n1: int,
    answs: Seq<ResourceRecordView>,
    n2: int,
    auths: Seq<ResourceRecordView>,
    n3: int,
)
    requires
        1 <= cut <= 4,
        header_gives(bytes, h),
        cut == 1 ==> questions_short(bytes.skip(12), h.qd_count as nat),
        cut > 1 ==> questions_give(bytes.skip(12), h.qd_count as nat, qs, n1),
        cut == 2 ==> records_short(bytes.skip(12 + n1), h.an_count as nat),
        cut > 2 ==> records_give(bytes.skip(12 + n1), h.an_count as nat, answs, n2),
        cut == 3 ==> records_short(bytes.skip(12 + n1 + n2), h.ns_count as nat),
        cut > 3 ==> records_give(bytes.skip(12 + n1 + n2), h.ns_count as nat, auths, n3),
        cut == 4 ==> records_short(bytes.skip(12 + n1 + n2 + n3), h.ar_count as nat),
    ensures
        message_short(bytes),
{
    reveal(header_gives);
    reveal(questions_give);
    reveal(questions_short);
    reveal(records_give);
    reveal(records_short);
    reveal(message_short);
}

/// Where the parts of six joined sequences lie.
proof fn lemma_joined_sections(
    h: Seq<u8>,
    q: Seq<u8>,
    a: Seq<u8>,
    b: Seq<u8>,
    c: Seq<u8>,
    rest: Seq<u8>,
)
    ensures
        h + q + a + b + c + rest == h + (q + (a + (b + (c + rest)))),
        (h + q + a + b + c + rest).skip(h.len() as int) == q + (a + (b + (c + rest))),
        (h + q + a + b + c + rest).skip((h.len() + q.len()) as int) == a + (b + (c + rest)),
        (h + q + a + b + c + rest).skip((h.len() + q.len() + a.len()) as int) == b + (c + rest),
        (h + q + a + b + c + rest).skip((h.len() + q.len() + a.len() + b.len()) as int) == c
            + rest,
        (h + q + a + b + c).len() == h.len() + q.len() + a.len() + b.len() + c.len(),
{
    let all = h + q + a + b + c + rest;
    assert(all =~= h + (q + (a + (b + (c + rest)))));
    assert(all.skip(h.len() as int) =~= q + (a + (b + (c + rest))));
    assert(all.skip((h.len() + q.len()) as int) =~= a + (b + (c + rest)));
    assert(all.skip((h.len() + q.len() + a.len()) as int) =~= b + (c + rest));
    assert(all.skip((h.len() + q.len() + a.len() + b.len()) as int) =~= c + rest);
}

/// A canonical message, once written, is what reading gives.
proof fn lemma_message_gives(m: MessageView, rest: Seq<u8>)
    requires
        m.canonical(),
    ensures
        message_gives(m.wire() + rest, m, m.wire().len() as int),
{
    let h = m.header.wire();
    let q = questions_wire(entries(m.quests));
    let a = records_wire(entries(m.answs));
    let b = records_wire(entries(m.auths));
    let c = records_wire(entries(m.adds));
    lemma_joined_sections(h, q, a, b, c, rest);
    lemma_header_gives(m.header, q + (a + (b + (c + rest))));
    lemma_questions_give(entries(m.quests), a + (b + (c + rest)));
    lemma_records_give(entries(m.answs), b + (c + rest));
    lemma_records_give(entries(m.auths), c + rest);
    lemma_records_give(entries(m.adds), rest);
    lemma_message_read_parts(
        m.wire() + rest,
        m,
        q.len() as int,
        a.len() as int,
        b.len() as int,
        c.len() as int,
    );
}

/// A canonical message reads back from its wire form as it was, whatever
/// follows that form.
pub proof fn lemma_message_roundtrip(m: MessageView, rest: Seq<u8>)
    requires
        m.canonical(),
    ensures
        m.fits(),
        MessageView::read(m.wire() + rest) == Ok::<(MessageView, int), CodecError>(
            (m, m.wire().len() as int),
        ),
{
    lemma_message_canonical_fits(m);
    lemma_message_gives(m, rest);
    reveal(message_gives);
}

/// Where the parts of five joined sequences lie in the first `j` octets of
/// the whole.
proof fn lemma_cut_sections(h: Seq<u8>, q: Seq<u8>, a: Seq<u8>, b: Seq<u8>, c: Seq<u8>, j: int)
    requires
        0 <= j <= h.len() + q.len() + a.len() + b.len() + c.len(),
    ensures
        ({
            let cut = (h + q + a + b + c).take(j);
            let h1 = h.len() as int;
            let q1 = h1 + q.len();
            let a1 = q1 + a.len();
            let b1 = a1 + b.len();
            &&& cut.len() == j
            &&& j >= h1 ==> cut == h + (q + (a + (b + c))).take(j - h1)
            &&& j >= h1 ==> cut.skip(h1) == (q + (a + (b + c))).take(j - h1)
            &&& j >= q1 ==> cut.skip(q1) == (a + (b + c)).take(j - q1)
            &&& j >= a1 ==> cut.skip(a1) == (b + c).take(j - a1)
            &&& j >= b1 ==> cut.skip(b1) == (c + Seq::<u8>::empty()).take(j - b1)
        }),
{
    let cut = (h + q + a + b + c).take(j);
    let h1 = h.len() as int;
    let q1 = h1 + q.len();
    let a1 = q1 + a.len();
    let b1 = a1 + b.len();
    if j >= h1 {
        assert(cut =~= h + (q + (a + (b + c))).take(j - h1));
        assert(cut.skip(h1) =~= (q + (a + (b + c))).take(j - h1));
    }
    if j >= q1 {
        assert(cut.skip(q1) =~= (a + (b + c)).take(j - q1));
    }
    if j >= a1 {
        assert(cut.skip(a1) =~= (b + c).take(j - a1));
    }
    if j >= b1 {
        assert(cut.skip(b1) =~= (c + Seq::<u8>::empty()).take(j - b1));
    }
}

/// The wire form of a canonical message, cut short anywhere, is what
/// reading fails on as `Truncated`.
proof fn lemma_message_short(m: MessageView, j: int)
    requires
        m.canonical(),
        0 <= j < m.wire().len(),
    ensures
        message_short(m.wire().take(j)),
{
    let h = m.header.wire();
    let q = questions_wire(entries(m.quests));
    let a = records_wire(entries(m.answs));
    let b = records_wire(entries(m.auths));
    let c = records_wire(entries(m.adds));
    let none = Seq::<u8>::empty();
    let bytes = m.wire().take(j);
    lemma_joined_sections(h, q, a, b, c, none);
    lemma_cut_sections(h, q, a, b, c, j);
    lemma_header_gives(m.header, (q + (a + (b + c))).take(j - 12));
    if j < 12 {
        lemma_header_short(bytes);
    } else {
        let qs = entries(m.quests);
        let answs = entries(m.answs);
        let auths = entries(m.auths);
        let n1 = q.len() as int;
        let n2 = a.len() as int;
        let n3 = b.len() as int;
        lemma_questions_section(qs, a + (b + c), j - 12);
        if j < 12 + n1 {
            lemma_message_read_cut(bytes, m.header, 1, qs, 0, answs, 0, auths, 0);
        } else {
            lemma_records_section(answs, b + c, j - 12 - n1);
            if j < 12 + n1 + n2 {
                lemma_message_read_cut(bytes, m.header, 2, qs, n1, answs, 0, auths, 0);
            } else {
                lemma_records_section(auths, c, j - 12 - n1 - n2);
                if j < 12 + n1 + n2 + n3 {
                    lemma_message_read_cut(bytes, m.header, 3, qs, n1, answs, n2, auths, 0);
                } else {
                    lemma_records_section(entries(m.adds), none, j - 12 - n1 - n2 - n3);
                    lemma_message_read_cut(bytes, m.header, 4, qs, n1, answs, n2, auths, n3);
                }
            }
        }
    }
}

/// The wire form of a canonical message, cut short anywhere, fails to read
/// as `Truncated`: no shorter buffer passes for the message, and none for
/// another one.
pub proof fn lemma_message_cut(m: MessageView, j: int)
    requires
        m.canonical(),
        0 <= j < m.wire().len(),
    ensures
        MessageView::read(m.wire().take(j)) == Err::<(MessageView, int), CodecError>(
            CodecError::Truncated,
        ),
{
    lemma_message_short(m, j);
    reveal(message_short);
}

/// A message that was read is whole: each of its sections holds as many
/// entries as the header's count says, a section is absent exactly where
/// that count is zero, and what was taken lies within the octets given.
pub proof fn lemma_message_read_whole(bytes: Seq<u8>)
    ensures
        MessageView::read(bytes) matches Ok((m, n)) ==> {
            &&& 12 <= n <= bytes.len()
            &&& m.quests == section(entries(m.quests))
            &&& m.answs == section(entries(m.answs))
            &&& m.auths == section(entries(m.auths))
            &&& m.adds == section(entries(m.adds))
            &&& entries(m.quests).len() == m.header.qd_count
            &&& entries(m.answs).len() == m.header.an_count
            &&& entries(m.auths).len() == m.header.ns_count
            &&& entries(m.adds).len() == m.header.ar_count
        },
{
    match Header::read(bytes) {
        Err(_) => {},
        Ok((h, _)) => {
            let b1 = bytes.skip(12);
            lemma_questions_read_bounds(b1, h.qd_count as nat);
            match questions_read(b1, h.qd_count as nat) {
                Err(_) => {},
                Ok((_, n1)) => {
                    let b2 = bytes.skip(12 + n1);
                    lemma_records_read_bounds(b2, h.an_count as nat);
                    match records_read(b2, h.an_count as nat) {
                        Err(_) => {},
                        Ok((_, n2)) => {
                            let b3 = bytes.skip(12 + n1 + n2);
                            lemma_records_read_bounds(b3, h.ns_count as nat);
                            match records_read(b3, h.ns_count as nat) {
                                Err(_) => {},
                                Ok((_, n3)) => {
                                    let b4 = bytes.skip(12 + n1 + n2 + n3);
                                    lemma_records_read_bounds(b4, h.ar_count as nat);
                                },
                            }
                        },
                    }
                },
            }
        },
    }
}

/// The query built from at most 65535 canonical questions is canonical: it
/// reads back from its wire form as it was built.
pub proof fn lemma_query_canonical(id: u16, qs: Seq<QuestionView>)
    requires
        questions_canonical(qs),
        qs.len() <= 65535,
    ensures
        query_message(id, qs).canonical(),
        query_message(id, qs).header.qd_count == qs.len(),
{
    let m = query_message(id, qs);
    assert(entries(m.answs) =~= Seq::<ResourceRecordView>::empty());
}

} // verus!
