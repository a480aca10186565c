use tcpstack::connections::{Connection, ConnectionError, ConnectionState, SocketPair};
use tcpstack::ipv4::{Ipv4, Ipv4Address};
use tcpstack::tcp::Tcp;
use tcpstack::utility::calculate_checksum;

const SYN: u8 = 0b0000_0010;
const ACK: u8 = 0b0001_0000;

fn client() -> Ipv4Address {
    Ipv4Address::new(10, 0, 0, 2)
}

fn server() -> Ipv4Address {
    Ipv4Address::new(10, 0, 0, 1)
}

fn inbound_packet() -> Ipv4 {
    let mut packet = Ipv4::new(client(), server());
    packet.set_total_length(40);
    packet
}

fn segment(sequence: u32, acknowledgement: u32, flags: u8, window: u16) -> Tcp {
    Tcp::new(40000, 9000, sequence, acknowledgement, 0x50, flags, window, 0, 0)
}

fn answered(first_sequence: u32) -> Connection {
    let mut connection = Connection::default();
    let mut out = [0u8; 64];
    let result =
        connection.process_incoming(&inbound_packet(), &segment(first_sequence, 0, SYN, 512), &[], &mut out);
    assert_eq!(result, Ok(40));
    connection
}

#[test]
fn connection_starts_uninitialized() {
    let connection = Connection::default();
    assert_eq!(connection.state(), ConnectionState::Uninitialized);
    assert_eq!(connection.client_sequence_number(), 0);
    assert_eq!(connection.server_sequence_number(), 0);
    assert_eq!(connection.server_acknowledgement_number(), 0);
    assert_eq!(connection.client_window(), 0);
}

#[test]
fn socket_pair_compares_all_four_fields() {
    let pair = SocketPair { src_ip: client(), dest_ip: server(), src_port: 40000, dest_port: 9000 };
    assert_eq!(pair, SocketPair { src_ip: client(), dest_ip: server(), src_port: 40000, dest_port: 9000 });
    assert_ne!(pair, SocketPair { src_ip: server(), dest_ip: server(), src_port: 40000, dest_port: 9000 });
    assert_ne!(pair, SocketPair { src_ip: client(), dest_ip: client(), src_port: 40000, dest_port: 9000 });
    assert_ne!(pair, SocketPair { src_ip: client(), dest_ip: server(), src_port: 40001, dest_port: 9000 });
    assert_ne!(pair, SocketPair { src_ip: client(), dest_ip: server(), src_port: 40000, dest_port: 9001 });
}

#[test]
fn first_segment_is_answered_with_syn_ack() {
    let mut connection = Connection::default();
    let mut out = [0xEEu8; 64];
    let result = connection.process_incoming(
        &inbound_packet(),
        &segment(0x11111111, 0, SYN, 65535),
        &[],
        &mut out,
    );
    assert_eq!(result, Ok(40));
    assert_eq!(connection.state(), ConnectionState::SynReceived);
    assert_eq!(connection.client_sequence_number(), 0x11111111);
    assert_eq!(connection.server_acknowledgement_number(), 0x11111112);
    assert_eq!(connection.client_window(), 65535);
    let isn = Connection::set_intial_sequence_number();
    assert_eq!(connection.server_sequence_number(), isn);

    let packet = Ipv4::deserialize(&out[..20]).unwrap();
    assert_eq!(packet.source_ip(), server());
    assert_eq!(packet.destination_ip(), client());
    assert_eq!(packet.total_length(), 40);
    assert_eq!(packet.protocol(), 6);
    assert_eq!(packet.header_length_in_bytes(), 20);
    assert_eq!(&out[..10], &[0x45, 0, 0, 40, 0, 0, 0, 0, 64, 6]);
    assert_eq!(calculate_checksum(&out[..20]), 0);

    let answer = Tcp::deserialize(&out[20..40]).unwrap();
    assert_eq!(answer.source_port(), 9000);
    assert_eq!(answer.destination_port(), 40000);
    assert_eq!(answer.sequence_number(), isn);
    assert_eq!(answer.acknowledgement_number(), 0x11111112);
    assert_eq!(answer.window_size(), 65535);
    assert_eq!(answer.header_length_in_bytes(), 20);
    assert_eq!(out[33], 0b0001_0010);
    assert!(Tcp::verify_checksum(server(), client(), &out[20..40]));
    assert_eq!(&out[40..], &[0xEEu8; 24]);
}

#[test]
fn answer_ignores_inbound_payload() {
    let mut plain = Connection::default();
    let mut with_payload = Connection::default();
    let mut first = [0u8; 40];
    let mut second = [0u8; 40];
    let syn = segment(5, 0, SYN, 100);
    assert_eq!(plain.process_incoming(&inbound_packet(), &syn, &[], &mut first), Ok(40));
    assert_eq!(
        with_payload.process_incoming(&inbound_packet(), &syn, b"data", &mut second),
        Ok(40)
    );
    assert_eq!(first, second);
}

#[test]
fn acknowledgement_wraps_around() {
    let connection = answered(u32::MAX);
    assert_eq!(connection.client_sequence_number(), u32::MAX);
    assert_eq!(connection.server_acknowledgement_number(), 0);
}

#[test]
fn handshake_completes_on_matching_ack() {
    let mut connection = answered(0x11111111);
    let isn = Connection::set_intial_sequence_number();
    let mut out = [0xEEu8; 64];
    let result = connection.process_incoming(
        &inbound_packet(),
        &segment(0x11111112, isn.wrapping_add(1), ACK, 1024),
        &[],
        &mut out,
    );
    assert_eq!(result, Ok(0));
    assert_eq!(connection.state(), ConnectionState::Established);
    assert_eq!(connection.server_sequence_number(), isn.wrapping_add(1));
    assert_eq!(connection.client_sequence_number(), 0x11111112);
    assert_eq!(connection.server_acknowledgement_number(), 0x11111113);
    assert_eq!(connection.client_window(), 1024);
    assert_eq!(out, [0xEEu8; 64]);
}

#[test]
fn handshake_needs_the_ack_flag() {
    let mut connection = answered(100);
    let isn = Connection::set_intial_sequence_number();
    let mut out = [0u8; 40];
    let result = connection.process_incoming(
        &inbound_packet(),
        &segment(101, isn.wrapping_add(1), SYN, 7),
        &[],
        &mut out,
    );
    assert_eq!(result, Err(ConnectionError::HandshakeViolation));
    assert_eq!(connection.state(), ConnectionState::SynReceived);
    assert_eq!(connection.server_sequence_number(), isn);
    assert_eq!(connection.server_acknowledgement_number(), 101);
    assert_eq!(connection.client_sequence_number(), 100);
    assert_eq!(connection.client_window(), 7);
    assert_eq!(out, [0u8; 40]);
}

#[test]
fn handshake_needs_the_servers_next_number() {
    let mut connection = answered(100);
    let isn = Connection::set_intial_sequence_number();
    let mut out = [0u8; 40];
    for wrong in [isn, isn.wrapping_add(2), 0, !isn.wrapping_add(1)] {
        if wrong == isn.wrapping_add(1) {
            continue;
        }
        let result = connection.process_incoming(
            &inbound_packet(),
            &segment(101, wrong, ACK, 7),
            &[],
            &mut out,
        );
        assert_eq!(result, Err(ConnectionError::HandshakeViolation));
        assert_eq!(connection.state(), ConnectionState::SynReceived);
    }
}

#[test]
fn handshake_needs_the_acknowledged_sequence_number() {
    let mut connection = answered(100);
    let isn = Connection::set_intial_sequence_number();
    let mut out = [0u8; 40];
    for wrong in [100u32, 102, 0, !101] {
        let result = connection.process_incoming(
            &inbound_packet(),
            &segment(wrong, isn.wrapping_add(1), ACK, 7),
            &[],
            &mut out,
        );
        assert_eq!(result, Err(ConnectionError::HandshakeViolation));
        assert_eq!(connection.state(), ConnectionState::SynReceived);
    }
    let result = connection.process_incoming(
        &inbound_packet(),
        &segment(101, isn.wrapping_add(1), ACK, 7),
        &[],
        &mut out,
    );
    assert_eq!(result, Ok(0));
    assert_eq!(connection.state(), ConnectionState::Established);
}

#[test]
fn established_connection_takes_segments_silently() {
    let mut connection = answered(100);
    let isn = Connection::set_intial_sequence_number();
    let mut out = [0x55u8; 40];
    connection
        .process_incoming(&inbound_packet(), &segment(101, isn.wrapping_add(1), ACK, 7), &[], &mut out)
        .unwrap();
    let result = connection.process_incoming(
        &inbound_packet(),
        &segment(500, 600, ACK, 9),
        b"some data",
        &mut out,
    );
    assert_eq!(result, Ok(0));
    assert_eq!(connection.state(), ConnectionState::Established);
    assert_eq!(connection.server_sequence_number(), isn.wrapping_add(1));
    assert_eq!(connection.client_sequence_number(), 101);
    assert_eq!(connection.server_acknowledgement_number(), 102);
    assert_eq!(connection.client_window(), 9);
    assert_eq!(out, [0x55u8; 40]);
}

#[test]
fn established_connection_needs_no_buffer() {
    let mut connection = answered(100);
    let isn = Connection::set_intial_sequence_number();
    let mut out = [0u8; 0];
    let result = connection.process_incoming(
        &inbound_packet(),
        &segment(101, isn.wrapping_add(1), ACK, 7),
        &[],
        &mut out,
    );
    assert_eq!(result, Ok(0));
}

#[test]
fn connection_in_state_has_nothing_recorded() {
    let connection = Connection::in_state(ConnectionState::Established);
    assert_eq!(connection.state(), ConnectionState::Established);
    assert_eq!(connection.client_sequence_number(), 0);
    assert_eq!(connection.server_sequence_number(), 0);
    assert_eq!(connection.server_acknowledgement_number(), 0);
    assert_eq!(connection.client_window(), 0);
    assert_eq!(
        Connection::in_state(ConnectionState::Uninitialized).state(),
        Connection::default().state()
    );
}

#[test]
fn states_without_transition_refuse_segments() {
    for state in [
        ConnectionState::Listen,
        ConnectionState::SynSent,
        ConnectionState::FinWait1,
        ConnectionState::FinWait2,
        ConnectionState::CloseWait,
        ConnectionState::Closing,
        ConnectionState::LastAck,
        ConnectionState::TimeWait,
        ConnectionState::Closed,
    ] {
        let mut connection = Connection::in_state(state);
        let mut out = [0x55u8; 40];
        let result =
            connection.process_incoming(&inbound_packet(), &segment(1, 2, SYN | ACK, 77), &[], &mut out);
        assert_eq!(result, Err(ConnectionError::Unimplemented));
        assert_eq!(connection.state(), state);
        assert_eq!(connection.client_window(), 77);
        assert_eq!(connection.client_sequence_number(), 0);
        assert_eq!(connection.server_sequence_number(), 0);
        assert_eq!(out, [0x55u8; 40]);
    }
}
