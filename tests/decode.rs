use dns_server::{
    BytePacketBuffer, DnsError, DnsHeader, DnsPacket, DnsQuestion, DnsRecord, Ipv4Addr, QueryType,
    ResultCode, BUFFER_SIZE,
};

fn buffer_with(bytes: &[u8]) -> BytePacketBuffer {
    let mut buffer = BytePacketBuffer::new();
    buffer.buf[..bytes.len()].copy_from_slice(bytes);
    buffer
}

fn encode_name(labels: &[&str]) -> Vec<u8> {
    let mut out = Vec::new();
    for l in labels {
        out.push(l.len() as u8);
        out.extend_from_slice(l.as_bytes());
    }
    out.push(0);
    out
}

#[test]
fn new_buffer_is_zeroed_at_start() {
    let buffer = BytePacketBuffer::new();
    assert_eq!(buffer.pos(), 0);
    assert_eq!(buffer.buf.len(), BUFFER_SIZE);
    assert!(buffer.buf.iter().all(|b| *b == 0));
}

#[test]
fn read_at_last_index_succeeds_and_past_it_fails() {
    let mut buffer = BytePacketBuffer::new();
    buffer.buf[511] = 0xAB;
    buffer.pos = 511;
    assert_eq!(buffer.read(), Ok(0xAB));
    assert_eq!(buffer.pos(), 512);
    assert_eq!(buffer.read(), Err(DnsError::BufferOverrun));
    assert_eq!(buffer.get(511), Ok(0xAB));
    assert_eq!(buffer.get(512), Err(DnsError::BufferOverrun));
}

#[test]
fn range_touching_last_byte_is_accepted() {
    let mut buffer = BytePacketBuffer::new();
    buffer.buf[511] = 7;
    assert_eq!(buffer.get_range(500, 12), Ok(&buffer.buf[500..512]));
    assert_eq!(buffer.get_range(500, 13), Err(DnsError::BufferOverrun));
    assert_eq!(buffer.get_range(512, 0), Ok(&[][..]));
    assert_eq!(buffer.get_range(usize::MAX, 2), Err(DnsError::BufferOverrun));
}

#[test]
fn big_endian_reads() {
    let mut buffer = buffer_with(&[0x12, 0x34, 0xDE, 0xAD, 0xBE, 0xEF]);
    assert_eq!(buffer.read_u16(), Ok(0x1234));
    assert_eq!(buffer.read_u32(), Ok(0xDEAD_BEEF));
    assert_eq!(buffer.pos(), 6);
    buffer.pos = 511;
    assert_eq!(buffer.read_u16(), Err(DnsError::BufferOverrun));
    buffer.pos = 509;
    assert_eq!(buffer.read_u32(), Err(DnsError::BufferOverrun));
    buffer.pos = 508;
    assert_eq!(buffer.read_u32(), Ok(0));
}

#[test]
fn step_and_seek_keep_position_in_buffer() {
    let mut buffer = BytePacketBuffer::new();
    assert_eq!(buffer.step(512), Ok(()));
    assert_eq!(buffer.pos(), 512);
    assert_eq!(buffer.step(1), Err(DnsError::BufferOverrun));
    assert_eq!(buffer.pos(), 512);
    assert_eq!(buffer.seek(3), Ok(()));
    assert_eq!(buffer.pos(), 3);
    assert_eq!(buffer.seek(513), Err(DnsError::BufferOverrun));
    assert_eq!(buffer.pos(), 3);
}

#[test]
fn plain_name_is_lowercased_and_cursor_passes_terminator() {
    let bytes = encode_name(&["WwW", "Example", "COM"]);
    let mut buffer = buffer_with(&bytes);
    let mut name = String::new();
    assert_eq!(buffer.read_qname(&mut name), Ok(()));
    assert_eq!(name, "www.example.com");
    assert_eq!(buffer.pos(), bytes.len());
}

#[test]
fn name_is_appended_to_existing_text() {
    let bytes = encode_name(&["a"]);
    let mut buffer = buffer_with(&bytes);
    let mut name = String::from("x:");
    assert_eq!(buffer.read_qname(&mut name), Ok(()));
    assert_eq!(name, "x:a");
}

#[test]
fn root_name_is_empty() {
    let mut buffer = BytePacketBuffer::new();
    let mut name = String::new();
    assert_eq!(buffer.read_qname(&mut name), Ok(()));
    assert_eq!(name, "");
    assert_eq!(buffer.pos(), 1);
}

#[test]
fn invalid_utf8_in_label_is_replaced() {
    let mut buffer = buffer_with(&[2, b'A', 0xFF, 0]);
    let mut name = String::new();
    assert_eq!(buffer.read_qname(&mut name), Ok(()));
    assert_eq!(name, "a\u{FFFD}");
}

#[test]
fn compressed_name_moves_cursor_two_bytes() {
    let mut bytes = encode_name(&["Example", "com"]);
    let second = bytes.len();
    bytes.extend_from_slice(&[3, b'w', b'w', b'w', 0xC0, 0x00]);
    let pointer_only = bytes.len();
    bytes.extend_from_slice(&[0xC0, second as u8]);
    let mut buffer = buffer_with(&bytes);

    buffer.pos = second;
    let mut name = String::new();
    assert_eq!(buffer.read_qname(&mut name), Ok(()));
    assert_eq!(name, "www.example.com");
    assert_eq!(buffer.pos(), second + 6);

    buffer.pos = pointer_only;
    let mut name = String::new();
    assert_eq!(buffer.read_qname(&mut name), Ok(()));
    assert_eq!(name, "www.example.com");
    assert_eq!(buffer.pos(), pointer_only + 2);
}

#[test]
fn self_pointer_fails_with_compression_loop() {
    let mut buffer = BytePacketBuffer::new();
    buffer.buf[20] = 0xC0;
    buffer.buf[21] = 20;
    buffer.pos = 20;
    let mut name = String::new();
    assert_eq!(buffer.read_qname(&mut name), Err(DnsError::CompressionLoop));
}

#[test]
fn two_pointer_cycle_fails_with_compression_loop() {
    let mut buffer = buffer_with(&[0xC0, 2, 0xC0, 0]);
    let mut name = String::new();
    assert_eq!(buffer.read_qname(&mut name), Err(DnsError::CompressionLoop));
}

#[test]
fn label_past_end_overruns() {
    let mut buffer = BytePacketBuffer::new();
    buffer.buf[510] = 5;
    buffer.pos = 510;
    let mut name = String::new();
    assert_eq!(buffer.read_qname(&mut name), Err(DnsError::BufferOverrun));
    buffer.buf[511] = 0xC0;
    buffer.pos = 511;
    assert_eq!(buffer.read_qname(&mut name), Err(DnsError::BufferOverrun));
}

#[test]
fn result_codes_from_numbers() {
    assert_eq!(ResultCode::from_num(0), ResultCode::NOERROR);
    assert_eq!(ResultCode::from_num(1), ResultCode::FORMERR);
    assert_eq!(ResultCode::from_num(2), ResultCode::SERVFAIL);
    assert_eq!(ResultCode::from_num(3), ResultCode::NXDOMAIN);
    assert_eq!(ResultCode::from_num(4), ResultCode::NOTIMP);
    assert_eq!(ResultCode::from_num(5), ResultCode::REFUSED);
    assert_eq!(ResultCode::from_num(6), ResultCode::NOERROR);
    assert_eq!(ResultCode::from_num(15), ResultCode::NOERROR);
}

#[test]
fn query_type_codes_round_trip() {
    assert_eq!(QueryType::from_num(1), QueryType::A);
    assert_eq!(QueryType::from_num(28), QueryType::UNKNOWN(28));
    assert_eq!(QueryType::A.to_num(), 1);
    assert_eq!(QueryType::UNKNOWN(5).to_num(), 5);
    for n in [0u16, 1, 2, 255, 65535] {
        assert_eq!(QueryType::from_num(n).to_num(), n);
    }
}

#[test]
fn new_header_is_empty() {
    let h = DnsHeader::new();
    assert_eq!(h.id, 0);
    assert!(!h.response && !h.recursion_desired && !h.z);
    assert_eq!(h.rescode, ResultCode::NOERROR);
    assert_eq!(h.questions + h.answers + h.authoritative_entries + h.resource_entries, 0);
}

#[test]
fn header_high_flag_byte_response_and_recursion_desired() {
    let mut buffer = buffer_with(&[0x12, 0x34, 0b1000_0001, 0x00, 0, 1, 0, 2, 0, 3, 0, 4]);
    let mut h = DnsHeader::new();
    assert_eq!(h.read(&mut buffer), Ok(()));
    assert_eq!(h.id, 0x1234);
    assert!(h.response);
    assert!(h.recursion_desired);
    assert!(!h.truncated_message);
    assert!(!h.authoritative_answer);
    assert_eq!(h.opcode, 0);
    assert_eq!(h.questions, 1);
    assert_eq!(h.answers, 2);
    assert_eq!(h.authoritative_entries, 3);
    assert_eq!(h.resource_entries, 4);
    assert_eq!(buffer.pos(), 12);
}

#[test]
fn header_other_flags() {
    let mut buffer = buffer_with(&[0, 0, 0b0101_0110, 0b1111_0011, 0, 0, 0, 0, 0, 0, 0, 0]);
    let mut h = DnsHeader::new();
    assert_eq!(h.read(&mut buffer), Ok(()));
    assert!(!h.response);
    assert_eq!(h.opcode, 0b1010);
    assert!(h.authoritative_answer);
    assert!(h.truncated_message);
    assert!(!h.recursion_desired);
    assert!(h.recursion_available);
    assert!(h.z);
    assert!(h.authed_data);
    assert!(h.checking_disabled);
    assert_eq!(h.rescode, ResultCode::NXDOMAIN);
}

#[test]
fn header_near_end_overruns() {
    let mut buffer = BytePacketBuffer::new();
    buffer.pos = 501;
    let mut h = DnsHeader::new();
    assert_eq!(h.read(&mut buffer), Err(DnsError::BufferOverrun));
    buffer.pos = 500;
    assert_eq!(h.read(&mut buffer), Ok(()));
}

#[test]
fn question_reads_name_type_and_class() {
    let mut bytes = encode_name(&["Example", "com"]);
    bytes.extend_from_slice(&[0, 1, 0, 1]);
    let mut buffer = buffer_with(&bytes);
    let mut q = DnsQuestion::new(String::new(), QueryType::UNKNOWN(0));
    assert_eq!(q.read(&mut buffer), Ok(()));
    assert_eq!(q, DnsQuestion::new("example.com".to_string(), QueryType::A));
    assert_eq!(buffer.pos(), bytes.len());
}

#[test]
fn unknown_record_skips_its_data() {
    let mut bytes = encode_name(&["x"]);
    let name_len = bytes.len();
    bytes.extend_from_slice(&[0, 16, 0, 1, 0, 0, 0, 60, 0, 5, 9, 9, 9, 9, 9]);
    bytes.extend_from_slice(&encode_name(&["next"]));
    let mut buffer = buffer_with(&bytes);
    let rec = DnsRecord::read(&mut buffer).unwrap();
    assert_eq!(
        rec,
        DnsRecord::UNKNOWN { domain: "x".to_string(), qtype: 16, data_len: 5, ttl: 60 }
    );
    assert_eq!(buffer.pos(), name_len + 10 + 5);
    let mut name = String::new();
    assert_eq!(buffer.read_qname(&mut name), Ok(()));
    assert_eq!(name, "next");
}

#[test]
fn unknown_record_data_past_end_overruns() {
    let mut buffer = BytePacketBuffer::new();
    buffer.pos = 400;
    buffer.buf[400] = 0;
    buffer.buf[401..411].copy_from_slice(&[0, 16, 0, 1, 0, 0, 0, 1, 0, 200]);
    assert_eq!(DnsRecord::read(&mut buffer), Err(DnsError::BufferOverrun));
}

#[test]
fn address_record_reads_four_octets() {
    let mut bytes = encode_name(&["a"]);
    bytes.extend_from_slice(&[0, 1, 0, 1, 0, 0, 0x0E, 0x10, 0, 4, 10, 0, 0, 1]);
    let mut buffer = buffer_with(&bytes);
    let rec = DnsRecord::read(&mut buffer).unwrap();
    assert_eq!(
        rec,
        DnsRecord::A { domain: "a".to_string(), addr: Ipv4Addr::new(10, 0, 0, 1), ttl: 3600 }
    );
    assert_eq!(buffer.pos(), bytes.len());
}

#[test]
fn ipv4_octets() {
    assert_eq!(Ipv4Addr::new(93, 184, 216, 34).octets(), [93, 184, 216, 34]);
}

fn example_message() -> Vec<u8> {
    let mut bytes = vec![0xBE, 0xEF, 0x81, 0x80, 0, 1, 0, 1, 0, 0, 0, 0];
    bytes.extend_from_slice(&encode_name(&["example", "com"]));
    bytes.extend_from_slice(&[0, 1, 0, 1]);
    bytes.extend_from_slice(&[0xC0, 12, 0, 1, 0, 1, 0, 0, 0x01, 0x2C, 0, 4, 93, 184, 216, 34]);
    bytes
}

#[test]
fn end_to_end_question_and_compressed_answer() {
    let bytes = example_message();
    let mut buffer = buffer_with(&bytes);
    let packet = DnsPacket::from_buffer(&mut buffer).unwrap();
    assert_eq!(packet.header.id, 0xBEEF);
    assert!(packet.header.response);
    assert_eq!(packet.questions.len(), 1);
    assert_eq!(packet.questions[0].name, "example.com");
    assert_eq!(packet.questions[0].qtype, QueryType::A);
    assert_eq!(packet.answers.len(), 1);
    assert_eq!(
        packet.answers[0],
        DnsRecord::A {
            domain: "example.com".to_string(),
            addr: Ipv4Addr::new(93, 184, 216, 34),
            ttl: 300
        }
    );
    assert!(packet.authorities.is_empty());
    assert!(packet.resources.is_empty());
    assert_eq!(buffer.pos(), bytes.len());
}

#[test]
fn too_many_questions_is_truncated() {
    let mut buffer = buffer_with(&[0, 0, 0, 0, 0xFF, 0xFF, 0, 0, 0, 0, 0, 0]);
    assert_eq!(DnsPacket::from_buffer(&mut buffer).err(), Some(DnsError::TruncatedMessage));
    let mut buffer = buffer_with(&[0, 0, 0, 0, 0, 101, 0, 0, 0, 0, 0, 0]);
    assert_eq!(DnsPacket::from_buffer(&mut buffer).err(), Some(DnsError::TruncatedMessage));
}

#[test]
fn questions_filling_rest_exactly_are_accepted() {
    // 500 bytes after the header hold 100 root-name questions of 5 bytes each.
    let mut buffer = buffer_with(&[0, 0, 0, 0, 0, 100, 0, 0, 0, 0, 0, 0]);
    let packet = DnsPacket::from_buffer(&mut buffer).unwrap();
    assert_eq!(packet.questions.len(), 100);
    assert_eq!(buffer.pos(), 512);
}

#[test]
fn too_many_records_is_truncated() {
    let mut buffer = buffer_with(&[0, 0, 0, 0, 0, 0, 0, 20, 0, 20, 0, 20]);
    assert_eq!(DnsPacket::from_buffer(&mut buffer).err(), Some(DnsError::TruncatedMessage));
}

#[test]
fn message_header_past_end_overruns() {
    let mut buffer = BytePacketBuffer::new();
    buffer.pos = 505;
    assert_eq!(DnsPacket::from_buffer(&mut buffer).err(), Some(DnsError::BufferOverrun));
}

#[test]
fn empty_packet() {
    let p = DnsPacket::new();
    assert_eq!(p.header.id, 0);
    assert!(p.questions.is_empty() && p.answers.is_empty());
    assert!(p.authorities.is_empty() && p.resources.is_empty());
}
