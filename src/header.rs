//! The fixed 12-byte message header.
use vstd::prelude::*;
use crate::buffer::{BytePacketBuffer, DnsError, BUFFER_SIZE, u16_at};

verus! {

/// Size of the header on the wire, in bytes.
pub const HEADER_SIZE: usize = 12;

/// The response code carried in the low four bits of the header's second flag byte.
#[derive(Clone, Copy, Debug, PartialEq, Eq, Structural)]
pub enum ResultCode {
    NOERROR,
    FORMERR,
    SERVFAIL,
    NXDOMAIN,
    NOTIMP,
    REFUSED,
}

/// The response code of a 4-bit wire value; a value without a defined meaning
/// decodes as `NOERROR`.
pub open spec fn result_code_of(num: u8) -> ResultCode {
    if num == 1 {
        ResultCode::FORMERR
    } else if num == 2 {
        ResultCode::SERVFAIL
    } else if num == 3 {
        ResultCode::NXDOMAIN
    } else if num == 4 {
        ResultCode::NOTIMP
    } else if num == 5 {
        ResultCode::REFUSED
    } else {
        ResultCode::NOERROR
    }
}

impl ResultCode {
    /// The response code of a wire value (unknown values give `NOERROR`).
    pub fn from_num(num: u8) -> (r: ResultCode)
        ensures
            r == result_code_of(num),
    {
        match num {
            1 => ResultCode::FORMERR,
            2 => ResultCode::SERVFAIL,
            3 => ResultCode::NXDOMAIN,
            4 => ResultCode::NOTIMP,
            5 => ResultCode::REFUSED,
            _ => ResultCode::NOERROR,
        }
    }
}

/// The message header: id, flags and the four section counts.
#[derive(Clone, Copy, Debug, PartialEq, Eq, Structural)]
pub struct DnsHeader {
    pub id: u16,
    pub recursion_desired: bool,
    pub truncated_message: bool,
    pub authoritative_answer: bool,
    pub opcode: u8,
    pub response: bool,
    pub rescode: ResultCode,
    pub checking_disabled: bool,
    pub authed_data: bool,
    pub z: bool,
    pub recursion_available: bool,
    pub questions: u16,
    pub answers: u16,
    pub authoritative_entries: u16,
    pub resource_entries: u16,
}

/// The header with every field zero, false or `NOERROR`.
pub open spec fn empty_header() -> DnsHeader {
    DnsHeader {
        id: 0,
        recursion_desired: false,
        truncated_message: false,
        authoritative_answer: false,
        opcode: 0,
        response: false,
        rescode: ResultCode::NOERROR,
        checking_disabled: false,
        authed_data: false,
        z: false,
        recursion_available: false,
        questions: 0,
        answers: 0,
        authoritative_entries: 0,
        resource_entries: 0,
    }
}

/// The header encoded by the 12 bytes of `b` from offset `p`. Of the two flag
/// bytes, the first holds (MSB first) response, opcode (4 bits), authoritative
/// answer, truncated and recursion desired; the second holds recursion
/// available, z, authenticated data, checking disabled and the response code.
pub open spec fn header_at(b: Seq<u8>, p: int) -> DnsHeader {
    let hi = b[p + 2];
    let lo = b[p + 3];
    DnsHeader {
        id: u16_at(b, p),
        recursion_desired: hi & 0x01 != 0,
        truncated_message: hi & 0x02 != 0,
        authoritative_answer: hi & 0x04 != 0,
        opcode: (hi >> 3) & 0x0F,
        response: hi & 0x80 != 0,
        rescode: result_code_of(lo & 0x0F),
        checking_disabled: lo & 0x10 != 0,
        authed_data: lo & 0x20 != 0,
        z: lo & 0x40 != 0,
        recursion_available: lo & 0x80 != 0,
        questions: u16_at(b, p + 4),
        answers: u16_at(b, p + 6),
        authoritative_entries: u16_at(b, p + 8),
        resource_entries: u16_at(b, p + 10),
    }
}

impl DnsHeader {
    /// A header with every field zero, false or `NOERROR`.
    pub fn new() -> (r: DnsHeader)
        ensures
            r == empty_header(),
    {
        DnsHeader {
            id: 0,
            recursion_desired: false,
            truncated_message: false,
            authoritative_answer: false,
            opcode: 0,
            response: false,
            rescode: ResultCode::NOERROR,
            checking_disabled: false,
            authed_data: false,
            z: false,
            recursion_available: false,
            questions: 0,
            answers: 0,
            authoritative_entries: 0,
            resource_entries: 0,
        }
    }

    /// Reads the 12 header bytes at the buffer's position into `self` and
    /// moves past them. Fails with `BufferOverrun` when fewer than 12 bytes
    /// remain.
    pub fn read(&mut self, buffer: &mut BytePacketBuffer) -> (r: Result<(), DnsError>)
        ensures
            final(buffer).buf == old(buffer).buf,
            old(buffer).pos + HEADER_SIZE <= BUFFER_SIZE ==> r is Ok && *final(self) == header_at(
                old(buffer).buf@,
                old(buffer).pos as int,
            ) && final(buffer).pos == old(buffer).pos + HEADER_SIZE,
            old(buffer).pos + HEADER_SIZE > BUFFER_SIZE ==> r == Err::<(), DnsError>(
                DnsError::BufferOverrun,
            ),
    {
        self.id = buffer.read_u16()?;
        let a = buffer.read()?;
        let b = buffer.read()?;
        self.recursion_desired = (a & 0x01) != 0;
        self.truncated_message = (a & 0x02) != 0;
        self.authoritative_answer = (a & 0x04) != 0;
        self.opcode = (a >> 3) & 0x0F;
        self.response = (a & 0x80) != 0;
        self.rescode = ResultCode::from_num(b & 0x0F);
        self.checking_disabled = (b & 0x10) != 0;
        self.authed_data = (b & 0x20) != 0;
        self.z = (b & 0x40) != 0;
        self.recursion_available = (b & 0x80) != 0;
        self.questions = buffer.read_u16()?;
        self.answers = buffer.read_u16()?;
        self.authoritative_entries = buffer.read_u16()?;
        self.resource_entries = buffer.read_u16()?;
        Ok(())
    }
}

} // verus!
