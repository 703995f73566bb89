//! Whole messages: the header, then as many entries as it declares.
use vstd::prelude::*;
use crate::buffer::{BytePacketBuffer, DnsError, BUFFER_SIZE};
use crate::name::{MAX_POINTER_HOPS, lemma_name_extent};
use crate::header::{DnsHeader, HEADER_SIZE, empty_header, header_at};
use crate::question::{DnsQuestion, QueryType, QuestionView, question_at};
use crate::record::{DnsRecord, RecordView, record_at};

verus! {

/// The fewest bytes a question can occupy: a one-byte name, type and class.
pub const MIN_QUESTION_SIZE: usize = 5;

/// The fewest bytes a record can occupy: a one-byte name and the fixed fields.
pub const MIN_RECORD_SIZE: usize = 11;

/// A decoded message.
#[derive(Clone, Debug)]
pub struct DnsPacket {
    pub header: DnsHeader,
    pub questions: Vec<DnsQuestion>,
    pub answers: Vec<DnsRecord>,
    pub authorities: Vec<DnsRecord>,
    pub resources: Vec<DnsRecord>,
}

/// A message seen as mathematical values.
pub struct PacketView {
    pub header: DnsHeader,
    pub questions: Seq<QuestionView>,
    pub answers: Seq<RecordView>,
    pub authorities: Seq<RecordView>,
    pub resources: Seq<RecordView>,
}

/// The views of a sequence of questions.
pub open spec fn question_views(qs: Seq<DnsQuestion>) -> Seq<QuestionView> {
    qs.map_values(|q: DnsQuestion| q@)
}

/// The views of a sequence of records.
pub open spec fn record_views(rs: Seq<DnsRecord>) -> Seq<RecordView> {
    rs.map_values(|r: DnsRecord| r@)
}

impl View for DnsPacket {
    type V = PacketView;

    open spec fn view(&self) -> PacketView {
        PacketView {
            header: self.header,
            questions: question_views(self.questions@),
            answers: record_views(self.answers@),
            authorities: record_views(self.authorities@),
            resources: record_views(self.resources@),
        }
    }
}

/// The `n` questions encoded one after another in `b` from offset `p`, with
/// the offset just past the last.
pub open spec fn questions_at(b: Seq<u8>, p: int, n: nat) -> Result<
    (Seq<QuestionView>, int),
    DnsError,
>
    decreases n,
{
    if n == 0 {
        Ok((Seq::empty(), p))
    } else {
        match question_at(b, p) {
            Ok((q, e)) => match questions_at(b, e, (n - 1) as nat) {
                Ok((qs, end)) => Ok((seq![q] + qs, end)),
                Err(er) => Err(er),
            },
            Err(er) => Err(er),
        }
    }
}

/// The `n` records encoded one after another in `b` from offset `p`, with
/// the offset just past the last.
pub open spec fn records_at(b: Seq<u8>, p: int, n: nat) -> Result<(Seq<RecordView>, int), DnsError>
    decreases n,
{
    if n == 0 {
        Ok((Seq::empty(), p))
    } else {
        match record_at(b, p) {
            Ok((r, e)) => match records_at(b, e, (n - 1) as nat) {
                Ok((rs, end)) => Ok((seq![r] + rs, end)),
                Err(er) => Err(er),
            },
            Err(er) => Err(er),
        }
    }
}

/// Whether the counts of header `h` ask for more entries than `remaining`
/// bytes could hold at the smallest size of each entry.
pub open spec fn counts_exceed(h: DnsHeader, remaining: int) -> bool {
    h.questions * MIN_QUESTION_SIZE + (h.answers + h.authoritative_entries + h.resource_entries)
        * MIN_RECORD_SIZE > remaining
}

/// The four sections that header `h` declares, encoded one after another
/// in `b` from offset `s`, with the offset just past them.
pub open spec fn sections_at(b: Seq<u8>, s: int, h: DnsHeader) -> Result<(PacketView, int), DnsError> {
    match questions_at(b, s, h.questions as nat) {
        Err(er) => Err(er),
        Ok((qs, e1)) => match records_at(b, e1, h.answers as nat) {
            Err(er) => Err(er),
            Ok((ans, e2)) => match records_at(b, e2, h.authoritative_entries as nat) {
                Err(er) => Err(er),
                Ok((auth, e3)) => match records_at(b, e3, h.resource_entries as nat) {
                    Err(er) => Err(er),
                    Ok((res, e4)) => Ok(
                        (
                            PacketView {
                                header: h,
                                questions: qs,
                                answers: ans,
                                authorities: auth,
                                resources: res,
                            },
                            e4,
                        ),
                    ),
                },
            },
        },
    }
}

/// The message encoded in `b` from offset `p`, with the offset just past it.
pub open spec fn packet_at(b: Seq<u8>, p: int) -> Result<(PacketView, int), DnsError> {
    if p + HEADER_SIZE > b.len() {
        Err(DnsError::BufferOverrun)
    } else if counts_exceed(header_at(b, p), b.len() - (p + HEADER_SIZE)) {
        Err(DnsError::TruncatedMessage)
    } else {
        sections_at(b, p + HEADER_SIZE, header_at(b, p))
    }
}

proof fn lemma_question_extent(b: Seq<u8>, p: int)
    requires
        question_at(b, p) is Ok,
    ensures
        p + MIN_QUESTION_SIZE <= question_at(b, p)->Ok_0.1 <= b.len(),
{
    lemma_name_extent(b, p, MAX_POINTER_HOPS as nat);
}

proof fn lemma_record_extent(b: Seq<u8>, p: int)
    requires
        record_at(b, p) is Ok,
    ensures
        p + MIN_RECORD_SIZE <= record_at(b, p)->Ok_0.1 <= b.len(),
{
    lemma_name_extent(b, p, MAX_POINTER_HOPS as nat);
}

/// `n` decoded questions number `n` and occupy at least their minimal size.
proof fn lemma_questions_extent(b: Seq<u8>, p: int, n: nat)
    requires
        questions_at(b, p, n) is Ok,
    ensures
        questions_at(b, p, n)->Ok_0.0.len() == n,
        p + n * MIN_QUESTION_SIZE <= questions_at(b, p, n)->Ok_0.1,
        n > 0 ==> questions_at(b, p, n)->Ok_0.1 <= b.len(),
    decreases n,
{
    if n > 0 {
        lemma_question_extent(b, p);
        let e = question_at(b, p)->Ok_0.1;
        lemma_questions_extent(b, e, (n - 1) as nat);
        assert(p + n * MIN_QUESTION_SIZE == p + MIN_QUESTION_SIZE + (n - 1) * MIN_QUESTION_SIZE)
            by (nonlinear_arith);
    }
}

/// `n` decoded records number `n` and occupy at least their minimal size.
proof fn lemma_records_extent(b: Seq<u8>, p: int, n: nat)
    requires
        records_at(b, p, n) is Ok,
    ensures
        records_at(b, p, n)->Ok_0.0.len() == n,
        p + n * MIN_RECORD_SIZE <= records_at(b, p, n)->Ok_0.1,
        n > 0 ==> records_at(b, p, n)->Ok_0.1 <= b.len(),
    decreases n,
{
    if n > 0 {
        lemma_record_extent(b, p);
        let e = record_at(b, p)->Ok_0.1;
        lemma_records_extent(b, e, (n - 1) as nat);
        assert(p + n * MIN_RECORD_SIZE == p + MIN_RECORD_SIZE + (n - 1) * MIN_RECORD_SIZE)
            by (nonlinear_arith);
    }
}

/// A decoded message holds exactly as many entries in each section as its
/// header declares.
pub proof fn lemma_section_lengths_match_counts(b: Seq<u8>, p: int)
    requires
        packet_at(b, p) is Ok,
    ensures
        ({
            let m = packet_at(b, p)->Ok_0.0;
            &&& m.header == header_at(b, p)
            &&& m.questions.len() == m.header.questions
            &&& m.answers.len() == m.header.answers
            &&& m.authorities.len() == m.header.authoritative_entries
            &&& m.resources.len() == m.header.resource_entries
        }),
{
    let h = header_at(b, p);
    let s = p + HEADER_SIZE;
    lemma_questions_extent(b, s, h.questions as nat);
    let e1 = questions_at(b, s, h.questions as nat)->Ok_0.1;
    lemma_records_extent(b, e1, h.answers as nat);
    let e2 = records_at(b, e1, h.answers as nat)->Ok_0.1;
    lemma_records_extent(b, e2, h.authoritative_entries as nat);
    let e3 = records_at(b, e2, h.authoritative_entries as nat)->Ok_0.1;
    lemma_records_extent(b, e3, h.resource_entries as nat);
}

/// A header that declares more questions than the bytes after it could hold
/// makes decoding fail with `TruncatedMessage`.
pub proof fn lemma_too_many_questions_truncates(b: Seq<u8>, p: int)
    requires
        p + HEADER_SIZE <= b.len(),
        header_at(b, p).questions * MIN_QUESTION_SIZE > b.len() - (p + HEADER_SIZE),
    ensures
        packet_at(b, p) == Err::<(PacketView, int), DnsError>(DnsError::TruncatedMessage),
{
    let h = header_at(b, p);
    assert((h.answers + h.authoritative_entries + h.resource_entries) * MIN_RECORD_SIZE >= 0)
        by (nonlinear_arith);
}

/// The size check made before any entry is read turns away no message whose
/// sections would all decode.
pub proof fn lemma_size_check_is_safe(b: Seq<u8>, p: int)
    requires
        0 <= p,
        p + HEADER_SIZE <= b.len(),
        sections_at(b, p + HEADER_SIZE, header_at(b, p)) is Ok,
    ensures
        !counts_exceed(header_at(b, p), b.len() - (p + HEADER_SIZE)),
{
    let h = header_at(b, p);
    let s = p + HEADER_SIZE;
    let nq = h.questions as nat;
    let na = h.answers as nat;
    let nu = h.authoritative_entries as nat;
    let nr = h.resource_entries as nat;
    lemma_questions_extent(b, s, nq);
    let e1 = questions_at(b, s, nq)->Ok_0.1;
    lemma_records_extent(b, e1, na);
    let e2 = records_at(b, e1, na)->Ok_0.1;
    lemma_records_extent(b, e2, nu);
    let e3 = records_at(b, e2, nu)->Ok_0.1;
    lemma_records_extent(b, e3, nr);
    let e4 = records_at(b, e3, nr)->Ok_0.1;
    assert(e4 <= b.len());
    assert((na + nu + nr) * MIN_RECORD_SIZE == na * MIN_RECORD_SIZE + nu * MIN_RECORD_SIZE + nr
        * MIN_RECORD_SIZE) by (nonlinear_arith);
}

/// Reads `n` questions from the buffer's position and appends them to `out`.
fn read_questions(buffer: &mut BytePacketBuffer, n: u16, out: &mut Vec<DnsQuestion>) -> (r: Result<
    (),
    DnsError,
>)
    ensures
        final(buffer).buf == old(buffer).buf,
        match questions_at(old(buffer).buf@, old(buffer).pos as int, n as nat) {
            Ok((qs, end)) => r is Ok && question_views(final(out)@) == question_views(old(out)@)
                + qs && final(buffer).pos == end,
            Err(e) => r == Err::<(), DnsError>(e),
        },
{
    let ghost b = buffer.buf@;
    let ghost start = buffer.pos as int;
    let ghost out0 = question_views(out@);
    let ghost mut acc: Seq<QuestionView> = Seq::empty();
    proof {
        match questions_at(b, start, n as nat) {
            Ok((qs, e)) => {
                assert(acc + qs =~= qs);
            },
            Err(_) => {},
        }
        assert(out0 + acc =~= out0);
    }
    let mut i: u16 = 0;
    while i < n
        invariant
            i <= n,
            buffer.buf == old(buffer).buf,
            b == old(buffer).buf@,
            start == old(buffer).pos,
            out0 == question_views(old(out)@),
            question_views(out@) == out0 + acc,
            match questions_at(b, buffer.pos as int, (n - i) as nat) {
                Ok((qs, e)) => questions_at(b, start, n as nat) == Ok::<
                    (Seq<QuestionView>, int),
                    DnsError,
                >((acc + qs, e)),
                Err(er) => questions_at(b, start, n as nat) == Err::<
                    (Seq<QuestionView>, int),
                    DnsError,
                >(er),
            },
        decreases n - i,
    {
        let mut question = DnsQuestion::new(String::new(), QueryType::UNKNOWN(0));
        question.read(buffer)?;
        proof {
            let q = question@;
            match questions_at(b, buffer.pos as int, (n - i - 1) as nat) {
                Ok((qs, e)) => {
                    assert(acc + (seq![q] + qs) =~= acc.push(q) + qs);
                },
                Err(_) => {},
            }
        }
        let ghost v = question@;
        let ghost prev = out@;
        out.push(question);
        proof {
            assert(question_views(out@) =~= question_views(prev).push(v));
            assert((out0 + acc).push(v) =~= out0 + acc.push(v));
            acc = acc.push(v);
        }
        i = i + 1;
    }
    proof {
        assert(acc + Seq::<QuestionView>::empty() =~= acc);
    }
    Ok(())
}

/// Reads `n` records from the buffer's position and appends them to `out`.
fn read_records(buffer: &mut BytePacketBuffer, n: u16, out: &mut Vec<DnsRecord>) -> (r: Result<
    (),
    DnsError,
>)
    ensures
        final(buffer).buf == old(buffer).buf,
        match records_at(old(buffer).buf@, old(buffer).pos as int, n as nat) {
            Ok((rs, end)) => r is Ok && record_views(final(out)@) == record_views(old(out)@) + rs
                && final(buffer).pos == end,
            Err(e) => r == Err::<(), DnsError>(e),
        },
{
    let ghost b = buffer.buf@;
    let ghost start = buffer.pos as int;
    let ghost out0 = record_views(out@);
    let ghost mut acc: Seq<RecordView> = Seq::empty();
    proof {
        match records_at(b, start, n as nat) {
            Ok((rs, e)) => {
                assert(acc + rs =~= rs);
            },
            Err(_) => {},
        }
        assert(out0 + acc =~= out0);
    }
    let mut i: u16 = 0;
    while i < n
        invariant
            i <= n,
            buffer.buf == old(buffer).buf,
            b == old(buffer).buf@,
            start == old(buffer).pos,
            out0 == record_views(old(out)@),
            record_views(out@) == out0 + acc,
            match records_at(b, buffer.pos as int, (n - i) as nat) {
                Ok((rs, e)) => records_at(b, start, n as nat) == Ok::<
                    (Seq<RecordView>, int),
                    DnsError,
                >((acc + rs, e)),
                Err(er) => records_at(b, start, n as nat) == Err::<
                    (Seq<RecordView>, int),
                    DnsError,
                >(er),
            },
        decreases n - i,
    {
        let rec = DnsRecord::read(buffer)?;
        proof {
            let v = rec@;
            match records_at(b, buffer.pos as int, (n - i - 1) as nat) {
                Ok((rs, e)) => {
                    assert(acc + (seq![v] + rs) =~= acc.push(v) + rs);
                },
                Err(_) => {},
            }
        }
        let ghost v = rec@;
        let ghost prev = out@;
        out.push(rec);
        proof {
            assert(record_views(out@) =~= record_views(prev).push(v));
            assert((out0 + acc).push(v) =~= out0 + acc.push(v));
            acc = acc.push(v);
        }
        i = i + 1;
    }
    proof {
        assert(acc + Seq::<RecordView>::empty() =~= acc);
    }
    Ok(())
}

impl DnsPacket {
    /// A message with an empty header and no entries.
    pub fn new() -> (r: DnsPacket)
        ensures
            r.header == empty_header(),
            r.questions@.len() == 0,
            r.answers@.len() == 0,
            r.authorities@.len() == 0,
            r.resources@.len() == 0,
    {
        DnsPacket {
            header: DnsHeader::new(),
            questions: Vec::new(),
            answers: Vec::new(),
            authorities: Vec::new(),
            resources: Vec::new(),
        }
    }

    /// Decodes the message at the buffer's position: the header, then the
    /// questions, answers, authority and additional records that it
    /// declares. Fails with `TruncatedMessage`, before reading any entry,
    /// when the declared counts cannot fit in the bytes left after the header.
    pub fn from_buffer(buffer: &mut BytePacketBuffer) -> (r: Result<DnsPacket, DnsError>)
        ensures
            final(buffer).buf == old(buffer).buf,
            match packet_at(old(buffer).buf@, old(buffer).pos as int) {
                Ok((p, end)) => r is Ok && r->Ok_0@ == p && final(buffer).pos == end,
                Err(e) => r == Err::<DnsPacket, DnsError>(e),
            },
    {
        let mut result = DnsPacket::new();
        result.header.read(buffer)?;
        let h = result.header;
        let remaining = BUFFER_SIZE - buffer.pos;
        let needed = h.questions as usize * MIN_QUESTION_SIZE + (h.answers as usize
            + h.authoritative_entries as usize + h.resource_entries as usize) * MIN_RECORD_SIZE;
        if needed > remaining {
            return Err(DnsError::TruncatedMessage);
        }
        proof {
            assert(question_views(result.questions@) =~= Seq::<QuestionView>::empty());
            assert(record_views(result.answers@) =~= Seq::<RecordView>::empty());
            assert(record_views(result.authorities@) =~= Seq::<RecordView>::empty());
            assert(record_views(result.resources@) =~= Seq::<RecordView>::empty());
        }
        read_questions(buffer, h.questions, &mut result.questions)?;
        read_records(buffer, h.answers, &mut result.answers)?;
        read_records(buffer, h.authoritative_entries, &mut result.authorities)?;
        read_records(buffer, h.resource_entries, &mut result.resources)?;
        Ok(result)
    }
}

} // verus!
