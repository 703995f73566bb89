//! Decoding of DNS messages (RFC 1035) held in a fixed-size byte buffer:
//! a bounds-checked cursor, names with compression pointers, the header, and
//! question and resource-record entries.

pub mod buffer;
pub mod header;
pub mod name;
pub mod packet;
pub mod question;
pub mod record;

pub use buffer::{BytePacketBuffer, DnsError, BUFFER_SIZE};
pub use header::{DnsHeader, ResultCode};
pub use packet::DnsPacket;
pub use question::{DnsQuestion, QueryType};
pub use record::{DnsRecord, Ipv4Addr};
