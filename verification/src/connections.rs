//! The state of one TCP flow, and what an inbound segment does to it.

use vstd::prelude::*;
use crate::ipv4::{
    header_checksum_of, lemma_emit_then_parse, lemma_emitted_checksum_verifies, Ipv4,
    Ipv4Address, Ipv4View, PROTOCOL_TCP,
};
use crate::tcp::{
    checksum_verifies, default_header, lemma_serialize_then_parse,
    lemma_written_checksum_verifies, pseudo_header, Tcp, TcpView, SYN_ACK_FLAGS,
};
use crate::utility::internet_checksum;
use crate::wire::{copy_into, lemma_u16_bytes_round_trip, u16_at, with_u16, ParseError};

verus! {

/// The four values that name one direction of a TCP flow.
#[derive(Clone, Copy, Debug, PartialEq, Eq, Hash, Structural)]
pub struct SocketPair {
    pub src_ip: Ipv4Address,
    pub dest_ip: Ipv4Address,
    pub src_port: u16,
    pub dest_port: u16,
}

/// The states of a TCP connection.
#[derive(Clone, Copy, Debug, PartialEq, Eq, Structural)]
pub enum ConnectionState {
    Uninitialized,
    Listen,
    SynReceived,
    SynSent,
    Established,
    FinWait1,
    FinWait2,
    CloseWait,
    Closing,
    LastAck,
    TimeWait,
    Closed,
}

/// Why a segment was refused by a connection.
#[derive(Clone, Copy, Debug, PartialEq, Eq, Structural)]
pub enum ConnectionError {
    /// The segment that should complete the handshake lacks the ACK flag,
    /// acknowledges another number than the server's next, or carries
    /// another sequence number than the one the server acknowledged.
    HandshakeViolation,
    /// The connection is in a state for which no transition is provided.
    Unimplemented,
}

/// The record of one flow.
pub struct Connection {
    connection_state: ConnectionState,
    client_sequence_number: u32,
    server_sequence_number: u32,
    client_acknowledgement_number: u32,
    server_acknowledgement_number: u32,
    client_window: u16,
    server_window: u16,
    inbound_buffer: Vec<u8>,
    outbound_buffer: Vec<u8>,
}

/// What the record of one flow holds.
pub struct ConnectionView {
    pub connection_state: ConnectionState,
    pub client_sequence_number: u32,
    pub server_sequence_number: u32,
    pub client_acknowledgement_number: u32,
    pub server_acknowledgement_number: u32,
    pub client_window: u16,
    pub server_window: u16,
    pub inbound_buffer: Seq<u8>,
    pub outbound_buffer: Seq<u8>,
}

/// The length in bytes of the answer to a first segment: an IPv4 header and
/// a TCP header, nothing else.
pub const SYN_ACK_LENGTH: usize = 40;

/// The record of a flow from which no segment has come yet.
pub open spec fn initial_connection() -> ConnectionView {
    ConnectionView {
        connection_state: ConnectionState::Uninitialized,
        client_sequence_number: 0,
        server_sequence_number: 0,
        client_acknowledgement_number: 0,
        server_acknowledgement_number: 0,
        client_window: 0,
        server_window: 65535,
        inbound_buffer: Seq::empty(),
        outbound_buffer: Seq::empty(),
    }
}

/// The sequence number after `number`, modulo 2^32.
pub open spec fn following(number: u32) -> u32 {
    if number == u32::MAX {
        0
    } else {
        (number + 1) as u32
    }
}

/// The sequence number that the server starts every connection with.
pub closed spec fn initial_sequence_number() -> u32 {
    1
}

/// Whether `segment` completes the handshake of a connection that has
/// answered a first segment: it carries ACK, acknowledges the number after
/// the server's, and has the sequence number that the server acknowledged.
pub open spec fn completes_handshake(connection: ConnectionView, segment: TcpView) -> bool {
    &&& segment.ack()
    &&& segment.acknowledgement_number == following(connection.server_sequence_number)
    &&& segment.sequence_number == connection.server_acknowledgement_number
}

/// The record after `segment` has come in. The window that the client
/// announces is recorded whatever the state.
pub open spec fn after_segment(connection: ConnectionView, segment: TcpView) -> ConnectionView {
    let recorded = ConnectionView { client_window: segment.window_size, ..connection };
    match connection.connection_state {
        ConnectionState::Uninitialized => ConnectionView {
            connection_state: ConnectionState::SynReceived,
            client_sequence_number: segment.sequence_number,
            server_acknowledgement_number: following(segment.sequence_number),
            server_sequence_number: initial_sequence_number(),
            ..recorded
        },
        ConnectionState::SynReceived => if completes_handshake(connection, segment) {
            ConnectionView {
                connection_state: ConnectionState::Established,
                client_sequence_number: segment.sequence_number,
                server_acknowledgement_number: following(segment.sequence_number),
                server_sequence_number: following(connection.server_sequence_number),
                ..recorded
            }
        } else {
            recorded
        },
        _ => recorded,
    }
}

/// What processing `segment` returns: the length of the answer, zero where
/// there is none, or the reason for which the segment was refused.
pub open spec fn verdict(connection: ConnectionView, segment: TcpView) -> Result<
    usize,
    ConnectionError,
> {
    match connection.connection_state {
        ConnectionState::Uninitialized => Ok(SYN_ACK_LENGTH),
        ConnectionState::SynReceived => if completes_handshake(connection, segment) {
            Ok(0)
        } else {
            Err(ConnectionError::HandshakeViolation)
        },
        ConnectionState::Established => Ok(0),
        _ => Err(ConnectionError::Unimplemented),
    }
}

/// The TCP header of the answer to the first segment of a flow: ports
/// exchanged, SYN and ACK set, the server's numbers and window, no checksum yet.
pub open spec fn syn_ack_header(connection: ConnectionView, segment: TcpView) -> TcpView {
    TcpView {
        source_port: segment.destination_port,
        destination_port: segment.source_port,
        sequence_number: connection.server_sequence_number,
        acknowledgement_number: connection.server_acknowledgement_number,
        flags: SYN_ACK_FLAGS,
        window_size: connection.server_window,
        ..default_header()
    }
}

/// The twenty bytes of the answer's TCP header, its checksum computed over
/// the pseudo-header and the header, and written into the header.
pub open spec fn syn_ack_segment(
    connection: ConnectionView,
    packet: Ipv4View,
    segment: TcpView,
) -> Seq<u8> {
    let header = syn_ack_header(connection, segment).serialized();
    let pseudo = pseudo_header(packet.destination_address, packet.source_address, 20);
    with_u16(header, 16, internet_checksum(pseudo + header))
}

/// The IPv4 header of the answer: addresses exchanged, forty bytes in all.
pub open spec fn syn_ack_packet(packet: Ipv4View) -> Ipv4View {
    Ipv4View {
        version_and_ihl: 0x45,
        type_of_service: 0,
        total_length: 40,
        identification: 0,
        flags_and_fragment_offset: 0,
        ttl: 64,
        protocol: PROTOCOL_TCP,
        header_checksum: 0,
        source_address: packet.destination_address,
        destination_address: packet.source_address,
    }
}

/// The forty bytes of the answer to the first segment of a flow, for the
/// record as it is after that segment.
pub open spec fn syn_ack(connection: ConnectionView, packet: Ipv4View, segment: TcpView) -> Seq<
    u8,
> {
    syn_ack_packet(packet).emitted() + syn_ack_segment(connection, packet, segment)
}

/// What the outbound buffer holds after `segment` was processed: the answer
/// at its start where there is one, and otherwise what it held before.
pub open spec fn outbound_after(
    connection: ConnectionView,
    packet: Ipv4View,
    segment: TcpView,
    before: Seq<u8>,
) -> Seq<u8> {
    if connection.connection_state == ConnectionState::Uninitialized {
        syn_ack(after_segment(connection, segment), packet, segment) + before.subrange(
            SYN_ACK_LENGTH as int,
            before.len() as int,
        )
    } else {
        before
    }
}

impl View for Connection {
    type V = ConnectionView;

    closed spec fn view(&self) -> ConnectionView {
        ConnectionView {
            connection_state: self.connection_state,
            client_sequence_number: self.client_sequence_number,
            server_sequence_number: self.server_sequence_number,
            client_acknowledgement_number: self.client_acknowledgement_number,
            server_acknowledgement_number: self.server_acknowledgement_number,
            client_window: self.client_window,
            server_window: self.server_window,
            inbound_buffer: self.inbound_buffer@,
            outbound_buffer: self.outbound_buffer@,
        }
    }
}

impl Default for Connection {
    fn default() -> (connection: Connection)
        ensures
            connection@ == initial_connection(),
    {
        Connection::in_state(ConnectionState::Uninitialized)
    }
}

impl Connection {
    /// The record of a flow that is in the given state and has nothing else
    /// recorded yet.
    pub fn in_state(connection_state: ConnectionState) -> (connection: Connection)
        ensures
            connection@ == (ConnectionView { connection_state, ..initial_connection() }),
    {
        Connection {
            client_sequence_number: 0,
            server_sequence_number: 0,
            connection_state,
            client_acknowledgement_number: 0,
            server_acknowledgement_number: 0,
            server_window: 65535,
            client_window: 0,
            inbound_buffer: Vec::new(),
            outbound_buffer: Vec::new(),
        }
    }

    /// Takes one inbound segment, advances the connection, and writes the
    /// answer, where there is one, to the start of `outbound_buffer`.
    ///
    /// Returns the length of the answer, zero where there is none. A first
    /// segment is answered with SYN and ACK, for which the buffer must have
    /// room. The segment that completes the handshake establishes the
    /// connection; one that does not is refused, and the connection waits on.
    /// An established connection takes a segment without answer. In every
    /// other state the segment is refused as not provided for.
    pub fn process_incoming(
        &mut self,
        incoming_ipv4header: &Ipv4,
        incoming_tcpheader: &Tcp,
        payload: &[u8],
        outbound_buffer: &mut [u8],
    ) -> (result: Result<usize, ConnectionError>)
        requires
            old(self)@.connection_state == ConnectionState::Uninitialized ==> old(
                outbound_buffer,
            )@.len() >= SYN_ACK_LENGTH,
        ensures
            final(self)@ == after_segment(old(self)@, incoming_tcpheader@),
            result == verdict(old(self)@, incoming_tcpheader@),
            final(outbound_buffer)@ == outbound_after(
                old(self)@,
                incoming_ipv4header@,
                incoming_tcpheader@,
                old(outbound_buffer)@,
            ),
    {
        self.client_window = incoming_tcpheader.window_size();
        match self.connection_state {
            ConnectionState::Uninitialized => {
                self.client_sequence_number = incoming_tcpheader.sequence_number();
                self.server_acknowledgement_number = self.client_sequence_number.wrapping_add(1);
                self.server_sequence_number = Self::set_intial_sequence_number();
                let mut outbound_tcp_header = Tcp::new(
                    incoming_tcpheader.destination_port(),
                    incoming_tcpheader.source_port(),
                    0,
                    0,
                    0x50,
                    0,
                    0,
                    0,
                    0,
                );
                let mut outbound_ipv4_header = Ipv4::new(
                    incoming_ipv4header.destination_ip(),
                    incoming_ipv4header.source_ip(),
                );
                outbound_tcp_header.set_syn_ack_flags();
                outbound_tcp_header.set_window(self.server_window);
                outbound_tcp_header.set_acknowledgement_number(self.server_acknowledgement_number);
                outbound_tcp_header.set_sequence_number(self.server_sequence_number);
                let mut serialized_tcp_header = outbound_tcp_header.serialize();
                let nothing: Vec<u8> = Vec::new();
                let pseudo_header = Tcp::create_checksum_pseudo_header(
                    incoming_ipv4header.destination_ip(),
                    incoming_ipv4header.source_ip(),
                    serialized_tcp_header.as_slice(),
                    nothing.as_slice(),
                );
                let tcp_checksum = Tcp::calculate_tcp_checksum(
                    pseudo_header.as_slice(),
                    serialized_tcp_header.as_slice(),
                    nothing.as_slice(),
                );
                assert(pseudo_header@ + serialized_tcp_header@ + nothing@ =~= pseudo_header@
                    + serialized_tcp_header@);
                Tcp::write_checksum(&mut serialized_tcp_header, tcp_checksum);
                outbound_ipv4_header.set_total_length(SYN_ACK_LENGTH as u16);
                let serialized_ipv4_header = outbound_ipv4_header.emit();
                let ghost before = outbound_buffer@;
                copy_into(outbound_buffer, 0, serialized_ipv4_header.as_slice());
                copy_into(outbound_buffer, 20, serialized_tcp_header.as_slice());
                self.connection_state = ConnectionState::SynReceived;
                assert(outbound_buffer@ =~= serialized_ipv4_header@ + serialized_tcp_header@
                    + before.subrange(40, before.len() as int));
                Ok(outbound_ipv4_header.total_length() as usize)
            },
            ConnectionState::SynReceived => {
                if !incoming_tcpheader.is_ack_set() {
                    return Err(ConnectionError::HandshakeViolation);
                }
                if incoming_tcpheader.acknowledgement_number()
                    != self.server_sequence_number.wrapping_add(1) {
                    return Err(ConnectionError::HandshakeViolation);
                }
                if incoming_tcpheader.sequence_number() != self.server_acknowledgement_number {
                    return Err(ConnectionError::HandshakeViolation);
                }
                self.client_sequence_number = incoming_tcpheader.sequence_number();
                self.server_acknowledgement_number = self.client_sequence_number.wrapping_add(1);
                self.server_sequence_number = self.server_sequence_number.wrapping_add(1);
                self.connection_state = ConnectionState::Established;
                Ok(0)
            },
            ConnectionState::Established => Ok(0),
            _ => Err(ConnectionError::Unimplemented),
        }
    }

    /// The sequence number that the server starts a connection with.
    pub fn set_intial_sequence_number() -> (number: u32)
        ensures
            number == initial_sequence_number(),
    {
        1
    }

    /// The state the connection is in.
    pub fn state(&self) -> (state: ConnectionState)
        ensures
            state == self@.connection_state,
    {
        self.connection_state
    }

    /// The sequence number of the last segment taken from the client.
    pub fn client_sequence_number(&self) -> (number: u32)
        ensures
            number == self@.client_sequence_number,
    {
        self.client_sequence_number
    }

    /// The sequence number of the server.
    pub fn server_sequence_number(&self) -> (number: u32)
        ensures
            number == self@.server_sequence_number,
    {
        self.server_sequence_number
    }

    /// The number that the server acknowledges.
    pub fn server_acknowledgement_number(&self) -> (number: u32)
        ensures
            number == self@.server_acknowledgement_number,
    {
        self.server_acknowledgement_number
    }

    /// The window that the client announced last.
    pub fn client_window(&self) -> (window: u16)
        ensures
            window == self@.client_window,
    {
        self.client_window
    }
}

/// A three-way handshake, from the first segment to the established
/// connection. A new connection answers a first segment with sequence number
/// `c` by SYN and ACK, carrying the initial sequence number and acknowledging
/// `c + 1`. The segment that acknowledges the number after the initial one
/// with sequence number `c + 1` establishes the connection: the server's next
/// sequence number is then the one after the initial one, the client's last
/// is `c + 1`, and the server acknowledges the number after that.
pub proof fn lemma_handshake(first: TcpView, second: TcpView)
    requires
        second.ack(),
        second.acknowledgement_number == following(initial_sequence_number()),
        second.sequence_number == following(first.sequence_number),
    ensures
        verdict(initial_connection(), first) == Ok::<usize, ConnectionError>(SYN_ACK_LENGTH),
        ({
            let answered = after_segment(initial_connection(), first);
            &&& answered.connection_state == ConnectionState::SynReceived
            &&& answered.server_sequence_number == initial_sequence_number()
            &&& answered.server_acknowledgement_number == following(first.sequence_number)
            &&& syn_ack_header(answered, first).sequence_number == initial_sequence_number()
            &&& syn_ack_header(answered, first).acknowledgement_number == following(
                first.sequence_number,
            )
            &&& verdict(answered, second) == Ok::<usize, ConnectionError>(0)
        }),
        ({
            let established = after_segment(after_segment(initial_connection(), first), second);
            &&& established.connection_state == ConnectionState::Established
            &&& established.server_sequence_number == following(initial_sequence_number())
            &&& established.client_sequence_number == following(first.sequence_number)
            &&& established.server_acknowledgement_number == following(
                following(first.sequence_number),
            )
        }),
{
}

/// A segment that does not complete the handshake leaves the connection
/// waiting for one that does.
pub proof fn lemma_handshake_violation(connection: ConnectionView, segment: TcpView)
    requires
        connection.connection_state == ConnectionState::SynReceived,
        !completes_handshake(connection, segment),
    ensures
        verdict(connection, segment) == Err::<usize, ConnectionError>(
            ConnectionError::HandshakeViolation,
        ),
        after_segment(connection, segment) == (ConnectionView {
            client_window: segment.window_size,
            ..connection
        }),
{
}

/// The answer to a first segment is a packet that this stack would take
/// itself: forty bytes, an IPv4 header that parses to the fields of the
/// answer, and a TCP header of five words that parses to the fields of the
/// answer, with a checksum that verifies against the pseudo-header.
pub proof fn lemma_syn_ack_is_valid(connection: ConnectionView, packet: Ipv4View, segment: TcpView)
    ensures
        syn_ack(connection, packet, segment).len() == SYN_ACK_LENGTH,
        crate::ipv4::parsed(syn_ack(connection, packet, segment)) == Ok::<Ipv4View, ParseError>(
            Ipv4View {
                header_checksum: header_checksum_of(syn_ack_packet(packet).serialized()),
                ..syn_ack_packet(packet)
            },
        ),
        internet_checksum(syn_ack(connection, packet, segment).subrange(0, 20)) == 0,
        syn_ack(connection, packet, segment).subrange(20, 40) == syn_ack_segment(
            connection,
            packet,
            segment,
        ),
        crate::tcp::parsed(syn_ack_segment(connection, packet, segment)) == Ok::<
            TcpView,
            ParseError,
        >(
            TcpView {
                checksum: u16_at(syn_ack_segment(connection, packet, segment), 16),
                ..syn_ack_header(connection, segment)
            },
        ),
        checksum_verifies(
            packet.destination_address,
            packet.source_address,
            syn_ack_segment(connection, packet, segment),
        ),
{
    let header = syn_ack_header(connection, segment);
    let bytes = header.serialized();
    let answer = syn_ack_packet(packet);
    let whole = syn_ack(connection, packet, segment);
    let tcp_bytes = syn_ack_segment(connection, packet, segment);
    let pseudo = pseudo_header(packet.destination_address, packet.source_address, 20);
    lemma_emit_then_parse(answer);
    lemma_emitted_checksum_verifies(answer);
    assert(whole.subrange(0, 20) =~= answer.emitted());
    assert(whole.subrange(20, 40) =~= tcp_bytes);
    // The header parses the same with the packet's bytes behind it.
    assert(crate::ipv4::decoded(whole) == crate::ipv4::decoded(answer.emitted()));
    assert(whole.subrange(0, 20) =~= answer.emitted().subrange(0, 20));
    lemma_u16_bytes_round_trip(header.checksum);
    assert(u16_at(bytes, 16) == 0);
    assert(pseudo + bytes + Seq::<u8>::empty() =~= pseudo + bytes);
    lemma_written_checksum_verifies(
        packet.destination_address,
        packet.source_address,
        bytes,
        Seq::empty(),
    );
    assert(tcp_bytes + Seq::<u8>::empty() =~= tcp_bytes);
    let stored = TcpView { checksum: u16_at(tcp_bytes, 16), ..header };
    lemma_serialize_then_parse(stored);
    lemma_u16_bytes_round_trip(internet_checksum(pseudo + bytes));
    assert(stored.serialized() =~= tcp_bytes);
}

} // verus!
