//! Resource-record entries.
use vstd::prelude::*;
use crate::buffer::{BytePacketBuffer, DnsError, u16_at, u32_at};
use crate::name::{decode_name, join_labels};
use crate::question::{QueryType, query_type_of};

verus! {

/// An IPv4 address as its four octets, most significant first.
#[derive(Clone, Copy, Debug, Hash, PartialEq, Eq, PartialOrd, Ord, Structural)]
pub struct Ipv4Addr {
    pub a: u8,
    pub b: u8,
    pub c: u8,
    pub d: u8,
}

impl Ipv4Addr {
    /// The address `a.b.c.d`.
    pub fn new(a: u8, b: u8, c: u8, d: u8) -> (r: Ipv4Addr)
        ensures
            r == (Ipv4Addr { a, b, c, d }),
    {
        Ipv4Addr { a, b, c, d }
    }

    /// The four octets, most significant first.
    pub fn octets(&self) -> (r: [u8; 4])
        ensures
            r@ == seq![self.a, self.b, self.c, self.d],
    {
        let r = [self.a, self.b, self.c, self.d];
        assert(r@ =~= seq![self.a, self.b, self.c, self.d]);
        r
    }
}

/// The address held in the four bytes of `b` from offset `p`.
pub open spec fn ipv4_at(b: Seq<u8>, p: int) -> Ipv4Addr {
    Ipv4Addr { a: b[p], b: b[p + 1], c: b[p + 2], d: b[p + 3] }
}

proof fn lemma_split_octets(raw: u32, b0: u8, b1: u8, b2: u8, b3: u8)
    requires
        raw == (b0 as int * 0x100_0000 + b1 as int * 0x1_0000 + b2 as int * 0x100
            + b3 as int) as u32,
    ensures
        ((raw >> 24) & 0xFF) as u8 == b0,
        ((raw >> 16) & 0xFF) as u8 == b1,
        ((raw >> 8) & 0xFF) as u8 == b2,
        (raw & 0xFF) as u8 == b3,
{
    assert(((b0 as u32) << 24) | ((b1 as u32) << 16) | ((b2 as u32) << 8) | (b3 as u32) == (
    b0 as int * 0x100_0000 + b1 as int * 0x1_0000 + b2 as int * 0x100 + b3 as int) as u32)
        by (bit_vector);
    let x = ((b0 as u32) << 24) | ((b1 as u32) << 16) | ((b2 as u32) << 8) | (b3 as u32);
    assert(((x >> 24) & 0xFF) as u8 == b0 && ((x >> 16) & 0xFF) as u8 == b1 && ((x >> 8) & 0xFF) as u8
        == b2 && (x & 0xFF) as u8 == b3) by (bit_vector)
        requires
            x == ((b0 as u32) << 24) | ((b1 as u32) << 16) | ((b2 as u32) << 8) | (b3 as u32),
    ;
}

/// A resource record: an address record, or a record of any other type
/// whose data is skipped.
#[derive(Clone, Debug, PartialEq, Eq, Hash, PartialOrd, Ord)]
pub enum DnsRecord {
    UNKNOWN { domain: String, qtype: u16, data_len: u16, ttl: u32 },
    A { domain: String, addr: Ipv4Addr, ttl: u32 },
}

/// A resource record seen as mathematical values.
pub enum RecordView {
    UNKNOWN { domain: Seq<char>, qtype: u16, data_len: u16, ttl: u32 },
    A { domain: Seq<char>, addr: Ipv4Addr, ttl: u32 },
}

impl View for DnsRecord {
    type V = RecordView;

    open spec fn view(&self) -> RecordView {
        match self {
            DnsRecord::UNKNOWN { domain, qtype, data_len, ttl } => RecordView::UNKNOWN {
                domain: domain@,
                qtype: *qtype,
                data_len: *data_len,
                ttl: *ttl,
            },
            DnsRecord::A { domain, addr, ttl } => RecordView::A {
                domain: domain@,
                addr: *addr,
                ttl: *ttl,
            },
        }
    }
}

/// Bytes of a record between its name and its data: type, class, TTL and
/// data length.
pub const RECORD_FIXED_SIZE: usize = 10;

/// The record encoded in `b` at offset `p`, with the offset just past it.
/// An address record's data is four bytes, whatever length it declares;
/// the data of any other record is skipped by its declared length.
pub open spec fn record_at(b: Seq<u8>, p: int) -> Result<(RecordView, int), DnsError> {
    match decode_name(b, p) {
        Ok((ls, e)) => {
            let d = e + RECORD_FIXED_SIZE;
            if d > b.len() {
                Err(DnsError::BufferOverrun)
            } else {
                let code = u16_at(b, e);
                let ttl = u32_at(b, e + 4);
                let data_len = u16_at(b, e + 8);
                if query_type_of(code) == QueryType::A {
                    if d + 4 > b.len() {
                        Err(DnsError::BufferOverrun)
                    } else {
                        Ok(
                            (
                                RecordView::A {
                                    domain: join_labels(ls),
                                    addr: ipv4_at(b, d),
                                    ttl,
                                },
                                d + 4,
                            ),
                        )
                    }
                } else if d + data_len > b.len() {
                    Err(DnsError::BufferOverrun)
                } else {
                    Ok(
                        (
                            RecordView::UNKNOWN { domain: join_labels(ls), qtype: code, data_len, ttl },
                            d + data_len,
                        ),
                    )
                }
            }
        },
        Err(e) => Err(e),
    }
}

/// A record of a type other than address records occupies exactly its name's
/// encoding, the fixed fields and its declared data length, whatever its
/// data holds.
pub proof fn lemma_unknown_record_advance(b: Seq<u8>, p: int)
    requires
        decode_name(b, p) is Ok,
        ({
            let e = decode_name(b, p)->Ok_0.1;
            &&& e + RECORD_FIXED_SIZE <= b.len()
            &&& query_type_of(u16_at(b, e)) != QueryType::A
            &&& e + RECORD_FIXED_SIZE + u16_at(b, e + 8) <= b.len()
        }),
    ensures
        ({
            let (ls, e) = decode_name(b, p)->Ok_0;
            &&& record_at(b, p) is Ok
            &&& record_at(b, p)->Ok_0.1 == e + RECORD_FIXED_SIZE + u16_at(b, e + 8)
            &&& record_at(b, p)->Ok_0.0 == (RecordView::UNKNOWN {
                domain: join_labels(ls),
                qtype: u16_at(b, e),
                data_len: u16_at(b, e + 8),
                ttl: u32_at(b, e + 4),
            })
        }),
{
}

impl DnsRecord {
    /// Reads a record at the buffer's position and moves past it.
    pub fn read(buffer: &mut BytePacketBuffer) -> (r: Result<DnsRecord, DnsError>)
        ensures
            final(buffer).buf == old(buffer).buf,
            match record_at(old(buffer).buf@, old(buffer).pos as int) {
                Ok((rec, end)) => r is Ok && r->Ok_0@ == rec && final(buffer).pos == end,
                Err(e) => r == Err::<DnsRecord, DnsError>(e),
            },
    {
        let mut domain = String::new();
        buffer.read_qname(&mut domain)?;
        let qtype_num = buffer.read_u16()?;
        let qtype = QueryType::from_num(qtype_num);
        buffer.read_u16()?;
        let ttl = buffer.read_u32()?;
        let data_len = buffer.read_u16()?;
        match qtype {
            QueryType::A => {
                let ghost d = buffer.pos as int;
                let raw_addr = buffer.read_u32()?;
                proof {
                    let b = buffer.buf@;
                    lemma_split_octets(raw_addr, b[d], b[d + 1], b[d + 2], b[d + 3]);
                }
                let addr = Ipv4Addr::new(
                    ((raw_addr >> 24) & 0xFF) as u8,
                    ((raw_addr >> 16) & 0xFF) as u8,
                    ((raw_addr >> 8) & 0xFF) as u8,
                    (raw_addr & 0xFF) as u8,
                );
                Ok(DnsRecord::A { domain, addr, ttl })
            },
            QueryType::UNKNOWN(_) => {
                buffer.step(data_len as usize)?;
                Ok(DnsRecord::UNKNOWN { domain, qtype: qtype_num, data_len, ttl })
            },
        }
    }
}

} // verus!
