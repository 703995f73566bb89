//! Query types and question-section entries.
use vstd::prelude::*;
use crate::buffer::{BytePacketBuffer, DnsError, BUFFER_SIZE, u16_at};
use crate::name::{decode_name, join_labels};

verus! {

/// A record or query type: address records are known, any other code is
/// kept as it is.
#[derive(Clone, Copy, Debug, Hash, PartialEq, Eq, Structural)]
pub enum QueryType {
    UNKNOWN(u16),
    A,
}

/// The type that a wire code stands for.
pub open spec fn query_type_of(num: u16) -> QueryType {
    if num == 1 {
        QueryType::A
    } else {
        QueryType::UNKNOWN(num)
    }
}

/// The wire code of a type.
pub open spec fn query_type_code(t: QueryType) -> u16 {
    match t {
        QueryType::UNKNOWN(x) => x,
        QueryType::A => 1,
    }
}

impl QueryType {
    /// The wire code of this type.
    pub fn to_num(&self) -> (r: u16)
        ensures
            r == query_type_code(*self),
    {
        match *self {
            QueryType::UNKNOWN(x) => x,
            QueryType::A => 1,
        }
    }

    /// The type of a wire code; every code gives a type whose code it is.
    pub fn from_num(num: u16) -> (r: QueryType)
        ensures
            r == query_type_of(num),
            query_type_code(r) == num,
    {
        match num {
            1 => QueryType::A,
            _ => QueryType::UNKNOWN(num),
        }
    }
}

/// A question entry: the name asked about and the type asked for.
#[derive(Clone, Debug, PartialEq, Eq)]
pub struct DnsQuestion {
    pub name: String,
    pub qtype: QueryType,
}

/// A question entry seen as mathematical values.
pub struct QuestionView {
    pub name: Seq<char>,
    pub qtype: QueryType,
}

impl View for DnsQuestion {
    type V = QuestionView;

    open spec fn view(&self) -> QuestionView {
        QuestionView { name: self.name@, qtype: self.qtype }
    }
}

/// The question encoded in `b` at offset `p` (name, type, class), with the
/// offset just past it. The class is read and not kept.
pub open spec fn question_at(b: Seq<u8>, p: int) -> Result<(QuestionView, int), DnsError> {
    match decode_name(b, p) {
        Ok((ls, e)) => if e + 4 > b.len() {
            Err(DnsError::BufferOverrun)
        } else {
            Ok((QuestionView { name: join_labels(ls), qtype: query_type_of(u16_at(b, e)) }, e + 4))
        },
        Err(e) => Err(e),
    }
}

impl DnsQuestion {
    /// A question for `name` of type `qtype`.
    pub fn new(name: String, qtype: QueryType) -> (r: DnsQuestion)
        ensures
            r.name@ == name@,
            r.qtype == qtype,
    {
        DnsQuestion { name, qtype }
    }

    /// Reads a question at the buffer's position: its name is appended to
    /// `self.name` and its type replaces `self.qtype`; the position moves
    /// past the entry.
    pub fn read(&mut self, buffer: &mut BytePacketBuffer) -> (r: Result<(), DnsError>)
        ensures
            final(buffer).buf == old(buffer).buf,
            match question_at(old(buffer).buf@, old(buffer).pos as int) {
                Ok((q, end)) => r is Ok && final(self).name@ == old(self).name@ + q.name
                    && final(self).qtype == q.qtype && final(buffer).pos == end,
                Err(e) => r == Err::<(), DnsError>(e),
            },
    {
        buffer.read_qname(&mut self.name)?;
        self.qtype = QueryType::from_num(buffer.read_u16()?);
        buffer.read_u16()?;
        Ok(())
    }
}

} // verus!
