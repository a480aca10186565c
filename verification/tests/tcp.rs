use tcpstack::ipv4::Ipv4Address;
use tcpstack::tcp::Tcp;
use tcpstack::utility::calculate_checksum;
use tcpstack::wire::ParseError;

const SAMPLE: [u8; 20] = [
    0x9C, 0x40, 0x23, 0x28, 0x11, 0x11, 0x11, 0x11, 0x22, 0x33, 0x44, 0x55, 0x50, 0x02, 0xFF, 0xFF,
    0xAB, 0xCD, 0x00, 0x07,
];

#[test]
fn tcp_default_is_zero_with_five_words() {
    let header = Tcp::default();
    assert_eq!(header.source_port(), 0);
    assert_eq!(header.destination_port(), 0);
    assert_eq!(header.sequence_number(), 0);
    assert_eq!(header.acknowledgement_number(), 0);
    assert_eq!(header.window_size(), 0);
    assert_eq!(header.header_length_in_bytes(), 20);
    assert!(!header.is_urg_set());
    assert!(!header.is_ack_set());
    assert!(!header.is_psh_set());
    assert!(!header.is_rst_set());
    assert!(!header.is_syn_set());
    assert!(!header.is_fin_set());
    assert_eq!(
        header.serialize(),
        vec![0, 0, 0, 0, 0, 0, 0, 0, 0, 0, 0, 0, 0x50, 0, 0, 0, 0, 0, 0, 0]
    );
}

#[test]
fn tcp_new_keeps_every_field() {
    let header = Tcp::new(40000, 9000, 0x11111111, 0x22334455, 0x50, 0x02, 65535, 0xABCD, 7);
    assert_eq!(header.source_port(), 40000);
    assert_eq!(header.destination_port(), 9000);
    assert_eq!(header.sequence_number(), 0x11111111);
    assert_eq!(header.acknowledgement_number(), 0x22334455);
    assert_eq!(header.window_size(), 65535);
    assert_eq!(header.header_length_in_bytes(), 20);
    assert_eq!(header.serialize(), SAMPLE.to_vec());
}

#[test]
fn tcp_serialize_writes_network_order() {
    let header = Tcp::new(0x0102, 0x0304, 0x05060708, 0x090A0B0C, 0x5F, 0x3F, 0x0D0E, 0x0F10, 0x1112);
    assert_eq!(
        header.serialize(),
        vec![1, 2, 3, 4, 5, 6, 7, 8, 9, 10, 11, 12, 0x5F, 0x3F, 13, 14, 15, 16, 17, 18]
    );
}

#[test]
fn tcp_deserialize_reads_every_field() {
    let header = Tcp::deserialize(&SAMPLE).unwrap();
    assert_eq!(header.source_port(), 40000);
    assert_eq!(header.destination_port(), 9000);
    assert_eq!(header.sequence_number(), 0x11111111);
    assert_eq!(header.acknowledgement_number(), 0x22334455);
    assert_eq!(header.window_size(), 65535);
    assert_eq!(header.header_length_in_bytes(), 20);
    assert!(header.is_syn_set());
    assert!(!header.is_ack_set());
}

#[test]
fn tcp_deserialize_takes_exactly_twenty_bytes() {
    assert!(Tcp::deserialize(&SAMPLE).is_ok());
}

#[test]
fn tcp_deserialize_rejects_nineteen_bytes() {
    assert_eq!(Tcp::deserialize(&SAMPLE[..19]).unwrap_err(), ParseError::TooShort);
    assert_eq!(Tcp::deserialize(&[]).unwrap_err(), ParseError::TooShort);
}

#[test]
fn tcp_deserialize_rejects_short_data_offset() {
    let mut bytes = SAMPLE;
    bytes[12] = 0x4F;
    assert_eq!(Tcp::deserialize(&bytes).unwrap_err(), ParseError::BadHeaderLength);
    bytes[12] = 0x00;
    assert_eq!(Tcp::deserialize(&bytes).unwrap_err(), ParseError::BadHeaderLength);
}

#[test]
fn tcp_deserialize_reads_twenty_bytes_whatever_the_data_offset() {
    for data_offset in 5..=15u8 {
        let mut bytes = SAMPLE.to_vec();
        bytes[12] = data_offset << 4;
        let header = Tcp::deserialize(&bytes).unwrap();
        assert_eq!(header.header_length_in_bytes(), data_offset * 4);
        assert_eq!(header.source_port(), 40000);
        assert_eq!(header.destination_port(), 9000);
        assert_eq!(header.sequence_number(), 0x11111111);
        assert_eq!(header.acknowledgement_number(), 0x22334455);
        assert_eq!(header.window_size(), 65535);
        assert_eq!(header.serialize(), bytes);
        bytes.extend_from_slice(&[1, 1, 1, 0]);
        let longer = Tcp::deserialize(&bytes).unwrap();
        assert_eq!(longer.serialize(), header.serialize());
    }
}

#[test]
fn tcp_parse_of_serialized_header_with_options_offset() {
    let mut header = Tcp::new(1, 2, 3, 4, 0xF0, 0, 5, 6, 7);
    header.set_sequence_number(0xAABBCCDD);
    header.set_acknowledgement_number(0x01020304);
    header.set_window(0x1234);
    header.set_syn_ack_flags();
    let parsed = Tcp::deserialize(&header.serialize()).unwrap();
    assert_eq!(parsed.source_port(), 1);
    assert_eq!(parsed.destination_port(), 2);
    assert_eq!(parsed.sequence_number(), 0xAABBCCDD);
    assert_eq!(parsed.acknowledgement_number(), 0x01020304);
    assert_eq!(parsed.window_size(), 0x1234);
    assert_eq!(parsed.header_length_in_bytes(), 60);
    assert!(parsed.is_syn_set());
    assert!(parsed.is_ack_set());
    assert!(!parsed.is_fin_set());
    assert!(!parsed.is_rst_set());
    assert!(!parsed.is_psh_set());
    assert!(!parsed.is_urg_set());
    assert_eq!(parsed.serialize(), header.serialize());
}

#[test]
fn tcp_header_length_is_four_times_data_offset() {
    let header = Tcp::new(0, 0, 0, 0, 0xF0, 0, 0, 0, 0);
    assert_eq!(header.header_length_in_bytes(), 60);
    let header = Tcp::new(0, 0, 0, 0, 0x5A, 0, 0, 0, 0);
    assert_eq!(header.header_length_in_bytes(), 20);
}

#[test]
fn tcp_flags_are_single_bits() {
    let flag = |flags: u8| Tcp::new(0, 0, 0, 0, 0x50, flags, 0, 0, 0);
    assert!(flag(0b0010_0000).is_urg_set());
    assert!(flag(0b0001_0000).is_ack_set());
    assert!(flag(0b0000_1000).is_psh_set());
    assert!(flag(0b0000_0100).is_rst_set());
    assert!(flag(0b0000_0010).is_syn_set());
    assert!(flag(0b0000_0001).is_fin_set());
    let only_syn = flag(0b0000_0010);
    assert!(!only_syn.is_urg_set());
    assert!(!only_syn.is_ack_set());
    assert!(!only_syn.is_psh_set());
    assert!(!only_syn.is_rst_set());
    assert!(!only_syn.is_fin_set());
    let high_bits = flag(0b1100_0000);
    assert!(!high_bits.is_urg_set());
    assert!(!high_bits.is_fin_set());
}

#[test]
fn tcp_mutators_change_one_field_each() {
    let mut header = Tcp::default();
    header.set_sequence_number(0xDEADBEEF);
    header.set_acknowledgement_number(0x11111112);
    header.set_window(4096);
    header.set_syn_ack_flags();
    assert_eq!(header.sequence_number(), 0xDEADBEEF);
    assert_eq!(header.acknowledgement_number(), 0x11111112);
    assert_eq!(header.window_size(), 4096);
    assert!(header.is_syn_set());
    assert!(header.is_ack_set());
    assert!(!header.is_fin_set());
    assert!(!header.is_rst_set());
    assert!(!header.is_psh_set());
    assert!(!header.is_urg_set());
    assert_eq!(
        header.serialize(),
        vec![0, 0, 0, 0, 0xDE, 0xAD, 0xBE, 0xEF, 0x11, 0x11, 0x11, 0x12, 0x50, 0x12, 0x10, 0, 0, 0, 0, 0]
    );
}

#[test]
fn tcp_set_syn_ack_flags_clears_other_flags() {
    let mut header = Tcp::new(0, 0, 0, 0, 0x50, 0xFF, 0, 0, 0);
    header.set_syn_ack_flags();
    assert_eq!(header.serialize()[13], 0b0001_0010);
}

#[test]
fn tcp_parse_of_serialized_header_gives_the_header_back() {
    let header = Tcp::new(40000, 9000, u32::MAX, 0, 0x50, 0x12, 1, 0xFFFF, 0x8000);
    let parsed = Tcp::deserialize(&header.serialize()).unwrap();
    assert_eq!(parsed.source_port(), 40000);
    assert_eq!(parsed.destination_port(), 9000);
    assert_eq!(parsed.sequence_number(), u32::MAX);
    assert_eq!(parsed.acknowledgement_number(), 0);
    assert_eq!(parsed.window_size(), 1);
    assert_eq!(parsed.serialize(), header.serialize());
}

#[test]
fn tcp_serialize_of_parsed_header_gives_the_bytes_back() {
    assert_eq!(Tcp::deserialize(&SAMPLE).unwrap().serialize(), SAMPLE.to_vec());
    let mut longer = SAMPLE.to_vec();
    longer.extend_from_slice(b"payload");
    assert_eq!(Tcp::deserialize(&longer).unwrap().serialize(), SAMPLE.to_vec());
}

#[test]
fn tcp_pseudo_header_layout() {
    let pseudo = Tcp::create_checksum_pseudo_header(
        Ipv4Address::new(10, 0, 0, 1),
        Ipv4Address::new(10, 0, 0, 2),
        &[0u8; 20],
        &[0u8; 0x0105],
    );
    assert_eq!(pseudo, vec![10, 0, 0, 1, 10, 0, 0, 2, 0, 6, 0x01, 0x19]);
}

#[test]
fn tcp_checksum_covers_pseudo_header_header_and_payload() {
    let pseudo = [10u8, 0, 0, 1, 10, 0, 0, 2, 0, 6, 0, 23];
    let header = Tcp::new(9000, 40000, 1, 0x11111112, 0x50, 0x12, 65535, 0, 0).serialize();
    let payload = [0x61u8, 0x62, 0x63];
    let mut all = pseudo.to_vec();
    all.extend_from_slice(&header);
    all.extend_from_slice(&payload);
    assert_eq!(
        Tcp::calculate_tcp_checksum(&pseudo, &header, &payload),
        calculate_checksum(&all)
    );
    assert_eq!(Tcp::calculate_tcp_checksum(&[0, 1], &[0, 2], &[0, 4]), 0xFFF8);
    assert_eq!(Tcp::calculate_tcp_checksum(&[], &[], &[]), 0xFFFF);
    // The length field of the pseudo-header is part of the sum.
    assert_eq!(Tcp::calculate_tcp_checksum(&pseudo, &[], &[]), !(0x0A00 + 1 + 0x0A00 + 2 + 6 + 23));
}

#[test]
fn tcp_write_checksum_fills_bytes_16_and_17() {
    let mut header = Tcp::default().serialize();
    Tcp::write_checksum(&mut header, 0xBEEF);
    assert_eq!(&header[16..18], &[0xBE, 0xEF]);
    assert_eq!(&header[..16], &[0, 0, 0, 0, 0, 0, 0, 0, 0, 0, 0, 0, 0x50, 0, 0, 0]);
    assert_eq!(&header[18..], &[0, 0]);
}

#[test]
fn tcp_written_checksum_verifies() {
    let source = Ipv4Address::new(10, 0, 0, 2);
    let destination = Ipv4Address::new(10, 0, 0, 1);
    for payload in [&b""[..], &b"a"[..], &b"hello world"[..]] {
        let mut header = Tcp::new(40000, 9000, 7, 9, 0x50, 0x18, 512, 0, 0).serialize();
        let pseudo = Tcp::create_checksum_pseudo_header(source, destination, &header, payload);
        let checksum = Tcp::calculate_tcp_checksum(&pseudo, &header, payload);
        Tcp::write_checksum(&mut header, checksum);
        let mut segment = header.clone();
        segment.extend_from_slice(payload);
        assert!(Tcp::verify_checksum(source, destination, &segment));
        assert!(!Tcp::verify_checksum(destination, Ipv4Address::new(10, 0, 0, 3), &segment));
        let mut corrupted = segment.clone();
        corrupted[4] ^= 0x01;
        assert!(!Tcp::verify_checksum(source, destination, &corrupted));
    }
}

#[test]
fn tcp_verify_checksum_rejects_oversized_segment() {
    let segment = vec![0u8; 0x10000];
    assert!(!Tcp::verify_checksum(
        Ipv4Address::new(0, 0, 0, 0),
        Ipv4Address::new(0, 0, 0, 0),
        &segment
    ));
}
