use dns_decoder::byte_packet::BytePacketBuffer;
use dns_decoder::dns_packet::DnsPacket;
use dns_decoder::dns_question::{DnsQuestion, QueryType};
use dns_decoder::dns_record::DnsRecord;
use dns_decoder::error::DecodeError;

fn buffer_with(bytes: &[u8]) -> BytePacketBuffer {
    let mut buffer = BytePacketBuffer::new();
    buffer.buf[..bytes.len()].copy_from_slice(bytes);
    buffer
}

#[test]
fn plain_name_decodes_to_dotted_lowercase_string() {
    let mut buffer = buffer_with(&[
        3, b'w', b'w', b'w', 7, b'e', b'x', b'a', b'm', b'p', b'l', b'e', 3, b'c', b'o', b'm', 0,
    ]);
    let mut name = String::new();
    assert_eq!(buffer.read_qname(&mut name), Ok(()));
    assert_eq!(name, "www.example.com");
    assert_eq!(buffer.pos(), 17);
}

#[test]
fn uppercase_labels_are_normalized_to_lowercase() {
    let mut buffer = buffer_with(&[3, b'W', b'W', b'W', 4, b'T', b'e', b'S', b't', 0]);
    let mut name = String::new();
    assert_eq!(buffer.read_qname(&mut name), Ok(()));
    assert_eq!(name, "www.test");
}

#[test]
fn empty_name_is_single_zero_byte() {
    let mut buffer = buffer_with(&[0]);
    let mut name = String::new();
    assert_eq!(buffer.read_qname(&mut name), Ok(()));
    assert_eq!(name, "");
    assert_eq!(buffer.pos(), 1);
}

#[test]
fn compressed_name_matches_inlined_form_and_cursor_passes_pointer() {
    // Bytes 0..13 hold example.com; bytes 20..26 hold www plus a pointer
    // back to offset 0.
    let mut bytes = [0u8; 26];
    bytes[..13].copy_from_slice(&[7, b'e', b'x', b'a', b'm', b'p', b'l', b'e', 3, b'c', b'o', b'm', 0]);
    bytes[20..26].copy_from_slice(&[3, b'w', b'w', b'w', 0xC0, 0]);
    let mut buffer = buffer_with(&bytes);

    let mut inlined = String::new();
    assert_eq!(buffer.read_qname(&mut inlined), Ok(()));
    assert_eq!(inlined, "example.com");

    buffer.seek(20).expect("within capacity");
    let mut compressed = String::new();
    assert_eq!(buffer.read_qname(&mut compressed), Ok(()));
    assert_eq!(compressed, "www.example.com");
    // Just past the 2-byte pointer, not past the jump target.
    assert_eq!(buffer.pos(), 26);
}

#[test]
fn chained_pointer_is_followed() {
    // A pointer at 30 leads to 10, which holds one label and then a pointer
    // to the terminator at 0.
    let mut bytes = [0u8; 32];
    bytes[0] = 0;
    bytes[10..16].copy_from_slice(&[3, b'f', b'o', b'o', 0xC0, 0]);
    bytes[30..32].copy_from_slice(&[0xC0, 10]);
    let mut buffer = buffer_with(&bytes);
    buffer.seek(30).expect("within capacity");
    let mut name = String::new();
    assert_eq!(buffer.read_qname(&mut name), Ok(()));
    assert_eq!(name, "foo");
    assert_eq!(buffer.pos(), 32);
}

#[test]
fn pointer_cycle_is_rejected_within_jump_bound() {
    // The pointer at 4 points to 8, and the pointer at 8 points back to 4.
    let mut bytes = [0u8; 10];
    bytes[4..6].copy_from_slice(&[0xC0, 8]);
    bytes[8..10].copy_from_slice(&[0xC0, 4]);
    let mut buffer = buffer_with(&bytes);
    buffer.seek(4).expect("within capacity");
    let mut name = String::new();
    assert_eq!(buffer.read_qname(&mut name), Err(DecodeError::CompressionLoopDetected));
}

#[test]
fn name_running_past_buffer_end_is_out_of_bounds() {
    let mut buffer = BytePacketBuffer::new();
    buffer.buf[508] = 60;  // label of 60 bytes starting at 509 leaves the buffer
    buffer.seek(508).expect("within capacity");
    let mut name = String::new();
    assert_eq!(buffer.read_qname(&mut name), Err(DecodeError::OutOfBounds));
}

#[test]
fn query_type_maps_recognized_and_unknown_tags() {
    assert_eq!(QueryType::from_num(1), QueryType::A);
    assert_eq!(QueryType::from_num(7), QueryType::UNKNOWN(7));
    assert_eq!(QueryType::A.to_enum(), 1);
    assert_eq!(QueryType::UNKNOWN(7).to_enum(), 7);
}

#[test]
fn unknown_query_type_round_trips_exactly() {
    for num in [0u16, 2, 15, 255, 4660, 65535] {
        assert_eq!(QueryType::from_num(num).to_enum(), num);
    }
    assert_eq!(QueryType::from_num(1).to_enum(), 1);
}

#[test]
fn question_reads_name_and_type() {
    let mut buffer = buffer_with(&[3, b'w', b'w', b'w', 0, 0x00, 0x01]);
    let mut question = DnsQuestion::new(String::new(), QueryType::UNKNOWN(0));
    assert_eq!(question.read(&mut buffer), Ok(()));
    assert_eq!(question.name, "www");
    assert_eq!(question.qtype, QueryType::A);
    assert_eq!(buffer.pos(), 7);
}

#[test]
fn question_with_unrecognized_type_keeps_raw_tag() {
    let mut buffer = buffer_with(&[0, 0x00, 0x1C]);
    let mut question = DnsQuestion::new(String::new(), QueryType::UNKNOWN(0));
    assert_eq!(question.read(&mut buffer), Ok(()));
    assert_eq!(question.qtype, QueryType::UNKNOWN(28));
}

#[test]
fn unknown_record_consumes_exactly_its_declared_payload() {
    // Empty name, tag 5, class 1, TTL 300, data_len 10, then 10 payload
    // bytes whose values must not matter.
    let mut bytes = [0u8; 21];
    bytes[..11].copy_from_slice(&[0, 0x00, 0x05, 0x00, 0x01, 0x00, 0x00, 0x01, 0x2C, 0x00, 0x0A]);
    bytes[11..21].copy_from_slice(&[0xDE, 0xAD, 0xBE, 0xEF, 1, 2, 3, 4, 5, 6]);
    let mut buffer = buffer_with(&bytes);
    let record = DnsRecord::read(&mut buffer).expect("decodes");
    assert_eq!(
        record,
        DnsRecord::UNKNOWN { domain: String::new(), qtype: 5, data_len: 10, ttl: 300 }
    );
    assert_eq!(buffer.pos(), 21);
}

#[test]
fn address_record_decodes_four_octets() {
    let mut buffer = buffer_with(&[
        0, 0x00, 0x01, 0x00, 0x01, 0x00, 0x00, 0x0E, 0x10, 0x00, 0x04, 93, 184, 216, 34,
    ]);
    let record = DnsRecord::read(&mut buffer).expect("decodes");
    match record {
        DnsRecord::A { domain, addr, ttl } => {
            assert_eq!(domain, "");
            assert_eq!(addr.octets, [93, 184, 216, 34]);
            assert_eq!(ttl, 3600);
        }
        other => panic!("expected an address record, got {:?}", other),
    }
    assert_eq!(buffer.pos(), 15);
}

#[test]
fn record_cut_short_is_out_of_bounds() {
    let mut buffer = BytePacketBuffer::new();
    buffer.seek(508).expect("within capacity");
    // Empty name at 508, then only 3 bytes remain for the fixed fields.
    assert_eq!(DnsRecord::read(&mut buffer), Err(DecodeError::OutOfBounds));
}

#[test]
fn zero_counts_give_empty_packet_whatever_follows() {
    let mut buffer = BytePacketBuffer::new();
    // Counts all zero; trailing garbage after the 12-byte header.
    for i in 12..512 {
        buffer.buf[i] = 0xAB;
    }
    let packet = DnsPacket::from_buffer(&mut buffer).expect("decodes");
    assert_eq!(packet.header.questions, 0);
    assert_eq!(packet.header.answers, 0);
    assert_eq!(packet.header.authoritative_entries, 0);
    assert_eq!(packet.header.resource_entries, 0);
    assert!(packet.questions.is_empty());
    assert!(packet.answers.is_empty());
    assert!(packet.authorities.is_empty());
    assert!(packet.resources.is_empty());
    assert_eq!(buffer.pos(), 12);
}

#[test]
fn question_count_beyond_buffer_fails_with_out_of_bounds() {
    let mut buffer = BytePacketBuffer::new();
    // 65535 declared questions cannot fit in 500 remaining bytes.
    buffer.buf[4] = 0xFF;
    buffer.buf[5] = 0xFF;
    assert!(matches!(DnsPacket::from_buffer(&mut buffer), Err(DecodeError::OutOfBounds)));
}

#[test]
fn full_message_with_question_and_compressed_answer() {
    let mut bytes = [0u8; 64];
    // Header: one question, one answer.
    bytes[..12].copy_from_slice(&[0, 0, 0, 0, 0, 1, 0, 1, 0, 0, 0, 0]);
    // Question at 12: example.com, type A.
    bytes[12..25].copy_from_slice(&[7, b'e', b'x', b'a', b'm', b'p', b'l', b'e', 3, b'c', b'o', b'm', 0]);
    bytes[25..27].copy_from_slice(&[0x00, 0x01]);
    // Answer at 27: pointer to the question's name, type A, class 1,
    // TTL 60, 4 address bytes.
    bytes[27..29].copy_from_slice(&[0xC0, 12]);
    bytes[29..39].copy_from_slice(&[0x00, 0x01, 0x00, 0x01, 0x00, 0x00, 0x00, 0x3C, 0x00, 0x04]);
    bytes[39..43].copy_from_slice(&[93, 184, 216, 34]);
    let mut buffer = buffer_with(&bytes);

    let packet = DnsPacket::from_buffer(&mut buffer).expect("decodes");
    assert_eq!(packet.questions.len(), 1);
    assert_eq!(packet.questions[0].name, "example.com");
    assert_eq!(packet.questions[0].qtype, QueryType::A);
    assert_eq!(packet.answers.len(), 1);
    match &packet.answers[0] {
        DnsRecord::A { domain, addr, ttl } => {
            assert_eq!(domain, "example.com");
            assert_eq!(addr.octets, [93, 184, 216, 34]);
            assert_eq!(*ttl, 60);
        }
        other => panic!("expected an address record, got {:?}", other),
    }
    assert!(packet.authorities.is_empty());
    assert!(packet.resources.is_empty());
    assert_eq!(buffer.pos(), 43);
}

#[test]
fn non_ascii_label_bytes_become_replacement_characters() {
    let mut buffer = buffer_with(&[2, 0xFF, b'a', 0]);
    let mut name = String::new();
    assert_eq!(buffer.read_qname(&mut name), Ok(()));
    assert_eq!(name, "\u{FFFD}a");
}
