//! The TCP header: the twenty bytes without options, parsed and serialized
//! byte for byte, and the checksum over the pseudo-header and the segment.

use vstd::prelude::*;
use crate::ipv4::Ipv4Address;
use crate::utility::{calculate_checksum, internet_checksum, lemma_stored_checksum_verifies};
use crate::wire::{
    append, lemma_be16_bytes, lemma_be32_bytes, lemma_nibbles, lemma_u16_bytes_round_trip,
    lemma_u16_split, lemma_u32_bytes_round_trip, push_u16, push_u32, read_u16, read_u32, u16_at,
    u16_bytes, u32_at, u32_bytes, with_u16, ParseError,
};

verus! {

/// A TCP header without options.
#[derive(Debug)]
pub struct Tcp {
    source_port: u16,
    destination_port: u16,
    sequence_number: u32,
    acknowledgement_number: u32,
    data_offset_and_reserved: u8,
    flags: u8,
    window_size: u16,
    checksum: u16,
    urgent_pointer: u16,
}

/// The fields of a TCP header.
pub struct TcpView {
    pub source_port: u16,
    pub destination_port: u16,
    pub sequence_number: u32,
    pub acknowledgement_number: u32,
    /// The data offset in the high nibble, reserved bits in the low one.
    pub data_offset_and_reserved: u8,
    pub flags: u8,
    pub window_size: u16,
    pub checksum: u16,
    pub urgent_pointer: u16,
}

/// The flags byte of a segment that carries SYN and ACK.
pub const SYN_ACK_FLAGS: u8 = 0b0001_0010;

impl TcpView {
    /// The data offset: the length of the header in 32-bit words.
    pub open spec fn data_offset(self) -> int {
        self.data_offset_and_reserved as int / 16
    }

    /// Bit 5 of the flags.
    pub open spec fn urg(self) -> bool {
        self.flags & 0b0010_0000 != 0
    }

    /// Bit 4 of the flags.
    pub open spec fn ack(self) -> bool {
        self.flags & 0b0001_0000 != 0
    }

    /// Bit 3 of the flags.
    pub open spec fn psh(self) -> bool {
        self.flags & 0b0000_1000 != 0
    }

    /// Bit 2 of the flags.
    pub open spec fn rst(self) -> bool {
        self.flags & 0b0000_0100 != 0
    }

    /// Bit 1 of the flags.
    pub open spec fn syn(self) -> bool {
        self.flags & 0b0000_0010 != 0
    }

    /// Bit 0 of the flags.
    pub open spec fn fin(self) -> bool {
        self.flags & 0b0000_0001 != 0
    }

    /// The twenty bytes of the header in network order.
    pub open spec fn serialized(self) -> Seq<u8> {
        u16_bytes(self.source_port) + u16_bytes(self.destination_port) + u32_bytes(
            self.sequence_number,
        ) + u32_bytes(self.acknowledgement_number) + seq![self.data_offset_and_reserved, self.flags]
            + u16_bytes(self.window_size) + u16_bytes(self.checksum) + u16_bytes(
            self.urgent_pointer,
        )
    }
}

/// The header that a new segment starts from: every field zero, but the data
/// offset, which is five words.
pub open spec fn default_header() -> TcpView {
    TcpView {
        source_port: 0,
        destination_port: 0,
        sequence_number: 0,
        acknowledgement_number: 0,
        data_offset_and_reserved: 0x50,
        flags: 0,
        window_size: 0,
        checksum: 0,
        urgent_pointer: 0,
    }
}

/// The fields that the first twenty bytes of `bytes` hold.
pub open spec fn decoded(bytes: Seq<u8>) -> TcpView {
    TcpView {
        source_port: u16_at(bytes, 0),
        destination_port: u16_at(bytes, 2),
        sequence_number: u32_at(bytes, 4),
        acknowledgement_number: u32_at(bytes, 8),
        data_offset_and_reserved: bytes[12],
        flags: bytes[13],
        window_size: u16_at(bytes, 14),
        checksum: u16_at(bytes, 16),
        urgent_pointer: u16_at(bytes, 18),
    }
}

/// What parsing `bytes` gives: the header's fields, or the first reason in
/// this order for which it is not accepted.
pub open spec fn parsed(bytes: Seq<u8>) -> Result<TcpView, ParseError> {
    let header = decoded(bytes);
    if bytes.len() < 20 {
        Err(ParseError::TooShort)
    } else if header.data_offset() < 5 {
        Err(ParseError::BadHeaderLength)
    } else {
        Ok(header)
    }
}

/// The twelve bytes that stand before a segment in its checksum: the two
/// addresses, a zero byte, the protocol number of TCP, and the length of the
/// segment.
pub open spec fn pseudo_header(
    source_ip: Ipv4Address,
    destination_ip: Ipv4Address,
    tcp_length: u16,
) -> Seq<u8> {
    source_ip.bytes() + destination_ip.bytes() + seq![0u8, 6u8] + u16_bytes(tcp_length)
}

/// Whether the checksum that `segment` carries verifies: the segment's length
/// fits the pseudo-header, and the checksum of pseudo-header and segment,
/// the stored checksum included, is zero.
pub open spec fn checksum_verifies(
    source_ip: Ipv4Address,
    destination_ip: Ipv4Address,
    segment: Seq<u8>,
) -> bool {
    &&& segment.len() <= 0xFFFF
    &&& internet_checksum(
        pseudo_header(source_ip, destination_ip, segment.len() as u16) + segment,
    ) == 0
}

impl View for Tcp {
    type V = TcpView;

    closed spec fn view(&self) -> TcpView {
        TcpView {
            source_port: self.source_port,
            destination_port: self.destination_port,
            sequence_number: self.sequence_number,
            acknowledgement_number: self.acknowledgement_number,
            data_offset_and_reserved: self.data_offset_and_reserved,
            flags: self.flags,
            window_size: self.window_size,
            checksum: self.checksum,
            urgent_pointer: self.urgent_pointer,
        }
    }
}

impl Default for Tcp {
    fn default() -> (header: Tcp)
        ensures
            header@ == default_header(),
    {
        Tcp {
            source_port: 0,
            destination_port: 0,
            sequence_number: 0,
            acknowledgement_number: 0,
            data_offset_and_reserved: 0x50,
            flags: 0,
            window_size: 0,
            checksum: 0,
            urgent_pointer: 0,
        }
    }
}

impl Tcp {
    /// A header with the given fields.
    pub fn new(
        source_port: u16,
        destination_port: u16,
        sequence_number: u32,
        acknowledgement_number: u32,
        data_offset_and_reserved: u8,
        flags: u8,
        window_size: u16,
        checksum: u16,
        urgent_pointer: u16,
    ) -> (header: Tcp)
        ensures
            header@ == (TcpView {
                source_port,
                destination_port,
                sequence_number,
                acknowledgement_number,
                data_offset_and_reserved,
                flags,
                window_size,
                checksum,
                urgent_pointer,
            }),
    {
        Tcp {
            source_port,
            destination_port,
            sequence_number,
            acknowledgement_number,
            data_offset_and_reserved,
            flags,
            window_size,
            checksum,
            urgent_pointer,
        }
    }

    /// Parses the header at the start of `data`.
    ///
    /// The input is rejected where it has fewer than twenty bytes, and where
    /// the header gives itself fewer than five words. What follows the first
    /// twenty bytes is not read, options included, and the checksum is not
    /// looked at: it covers the pseudo-header too.
    pub fn deserialize(data: &[u8]) -> (result: Result<Tcp, ParseError>)
        ensures
            match result {
                Ok(header) => parsed(data@) == Ok::<TcpView, ParseError>(header@),
                Err(error) => parsed(data@) == Err::<TcpView, ParseError>(error),
            },
    {
        if data.len() < 20 {
            return Err(ParseError::TooShort);
        }
        let data_offset_and_reserved = data[12];
        proof {
            lemma_nibbles(data_offset_and_reserved);
        }
        let words = data_offset_and_reserved >> 4;
        if words < 5 {
            return Err(ParseError::BadHeaderLength);
        }
        Ok(
            Tcp {
                source_port: read_u16(data, 0),
                destination_port: read_u16(data, 2),
                sequence_number: read_u32(data, 4),
                acknowledgement_number: read_u32(data, 8),
                data_offset_and_reserved,
                flags: data[13],
                window_size: read_u16(data, 14),
                checksum: read_u16(data, 16),
                urgent_pointer: read_u16(data, 18),
            },
        )
    }

    /// The twenty bytes of the header in network order.
    pub fn serialize(&self) -> (buffer: Vec<u8>)
        ensures
            buffer@ == self@.serialized(),
    {
        let mut buffer: Vec<u8> = Vec::with_capacity(20);
        push_u16(&mut buffer, self.source_port);
        push_u16(&mut buffer, self.destination_port);
        push_u32(&mut buffer, self.sequence_number);
        push_u32(&mut buffer, self.acknowledgement_number);
        buffer.push(self.data_offset_and_reserved);
        buffer.push(self.flags);
        push_u16(&mut buffer, self.window_size);
        push_u16(&mut buffer, self.checksum);
        push_u16(&mut buffer, self.urgent_pointer);
        assert(buffer@ =~= self@.serialized());
        buffer
    }

    /// The length of the header in bytes: four times the data offset.
    pub fn header_length_in_bytes(&self) -> (length: u8)
        ensures
            length == self@.data_offset() * 4,
    {
        proof {
            lemma_nibbles(self.data_offset_and_reserved);
        }
        (self.data_offset_and_reserved >> 4) * 4
    }

    /// The port the segment goes to.
    pub fn destination_port(&self) -> (port: u16)
        ensures
            port == self@.destination_port,
    {
        self.destination_port
    }

    /// The port the segment comes from.
    pub fn source_port(&self) -> (port: u16)
        ensures
            port == self@.source_port,
    {
        self.source_port
    }

    /// The receive window that the sender announces.
    pub fn window_size(&self) -> (window: u16)
        ensures
            window == self@.window_size,
    {
        self.window_size
    }

    /// The sequence number of the segment.
    pub fn sequence_number(&self) -> (number: u32)
        ensures
            number == self@.sequence_number,
    {
        self.sequence_number
    }

    /// Sets the sequence number.
    pub fn set_sequence_number(&mut self, number: u32)
        ensures
            final(self)@ == (TcpView { sequence_number: number, ..old(self)@ }),
    {
        self.sequence_number = number;
    }

    /// The acknowledgement number of the segment.
    pub fn acknowledgement_number(&self) -> (number: u32)
        ensures
            number == self@.acknowledgement_number,
    {
        self.acknowledgement_number
    }

    /// Sets the acknowledgement number.
    pub fn set_acknowledgement_number(&mut self, number: u32)
        ensures
            final(self)@ == (TcpView { acknowledgement_number: number, ..old(self)@ }),
    {
        self.acknowledgement_number = number;
    }

    /// Whether the URG flag is set.
    pub fn is_urg_set(&self) -> (set: bool)
        ensures
            set == self@.urg(),
    {
        self.flags & 0b0010_0000 != 0
    }

    /// Whether the ACK flag is set.
    pub fn is_ack_set(&self) -> (set: bool)
        ensures
            set == self@.ack(),
    {
        self.flags & 0b0001_0000 != 0
    }

    /// Whether the PSH flag is set.
    pub fn is_psh_set(&self) -> (set: bool)
        ensures
            set == self@.psh(),
    {
        self.flags & 0b0000_1000 != 0
    }

    /// Whether the RST flag is set.
    pub fn is_rst_set(&self) -> (set: bool)
        ensures
            set == self@.rst(),
    {
        self.flags & 0b0000_0100 != 0
    }

    /// Whether the SYN flag is set.
    pub fn is_syn_set(&self) -> (set: bool)
        ensures
            set == self@.syn(),
    {
        self.flags & 0b0000_0010 != 0
    }

    /// Whether the FIN flag is set.
    pub fn is_fin_set(&self) -> (set: bool)
        ensures
            set == self@.fin(),
    {
        self.flags & 0b0000_0001 != 0
    }

    /// Sets the flags to SYN and ACK, and clears the others.
    pub fn set_syn_ack_flags(&mut self)
        ensures
            final(self)@ == (TcpView { flags: SYN_ACK_FLAGS, ..old(self)@ }),
    {
        self.flags = SYN_ACK_FLAGS;
    }

    /// Sets the receive window.
    pub fn set_window(&mut self, window_size: u16)
        ensures
            final(self)@ == (TcpView { window_size, ..old(self)@ }),
    {
        self.window_size = window_size;
    }

    /// The checksum of a segment: the Internet checksum of the pseudo-header,
    /// the serialized header and the payload, in this order.
    pub fn calculate_tcp_checksum(pseudoheader: &[u8], tcpheader: &[u8], payload: &[u8]) -> (checksum:
        u16)
        ensures
            checksum == internet_checksum(pseudoheader@ + tcpheader@ + payload@),
    {
        let mut buffer: Vec<u8> = Vec::new();
        append(&mut buffer, pseudoheader);
        append(&mut buffer, tcpheader);
        append(&mut buffer, payload);
        assert(buffer@ =~= pseudoheader@ + tcpheader@ + payload@);
        calculate_checksum(buffer.as_slice())
    }

    /// The pseudo-header for a segment made of `serialized_header` and
    /// `payload`, which together must fit the 16-bit length field.
    pub fn create_checksum_pseudo_header(
        source_ip: Ipv4Address,
        destination_ip: Ipv4Address,
        serialized_header: &[u8],
        payload: &[u8],
    ) -> (buffer: Vec<u8>)
        requires
            serialized_header@.len() + payload@.len() <= 0xFFFF,
        ensures
            buffer@ == pseudo_header(
                source_ip,
                destination_ip,
                (serialized_header@.len() + payload@.len()) as u16,
            ),
    {
        let mut buffer: Vec<u8> = Vec::new();
        buffer.push(source_ip.a);
        buffer.push(source_ip.b);
        buffer.push(source_ip.c);
        buffer.push(source_ip.d);
        buffer.push(destination_ip.a);
        buffer.push(destination_ip.b);
        buffer.push(destination_ip.c);
        buffer.push(destination_ip.d);
        buffer.push(0);
        buffer.push(6);
        let tcp_length: u16 = (serialized_header.len() + payload.len()) as u16;
        push_u16(&mut buffer, tcp_length);
        assert(buffer@ =~= pseudo_header(source_ip, destination_ip, tcp_length));
        buffer
    }

    /// Writes `checksum` into bytes 16 and 17 of a serialized header.
    pub fn write_checksum(tcpheader: &mut Vec<u8>, checksum: u16)
        requires
            old(tcpheader)@.len() >= 18,
        ensures
            final(tcpheader)@ == with_u16(old(tcpheader)@, 16, checksum),
    {
        proof {
            lemma_u16_split(checksum);
        }
        tcpheader[16] = (checksum >> 8) as u8;
        tcpheader[17] = checksum as u8;
    }

    /// Whether the checksum that `segment`, header and payload, carries
    /// verifies for a packet from `source_ip` to `destination_ip`.
    pub fn verify_checksum(source_ip: Ipv4Address, destination_ip: Ipv4Address, segment: &[u8]) -> (valid:
        bool)
        ensures
            valid == checksum_verifies(source_ip, destination_ip, segment@),
    {
        if segment.len() > 0xFFFF {
            return false;
        }
        let nothing: Vec<u8> = Vec::new();
        let pseudoheader = Tcp::create_checksum_pseudo_header(
            source_ip,
            destination_ip,
            segment,
            nothing.as_slice(),
        );
        assert(pseudoheader@ + segment@ + nothing@ =~= pseudoheader@ + segment@);
        Tcp::calculate_tcp_checksum(pseudoheader.as_slice(), segment, nothing.as_slice()) == 0
    }
}

/// Every input of at least twenty bytes whose data offset is at least five
/// words parses to the fields that its first twenty bytes hold, whatever
/// follows them.
pub proof fn lemma_parse_reads_twenty_bytes(bytes: Seq<u8>)
    requires
        bytes.len() >= 20,
        decoded(bytes).data_offset() >= 5,
    ensures
        parsed(bytes) == Ok::<TcpView, ParseError>(decoded(bytes)),
        decoded(bytes) == decoded(bytes.subrange(0, 20)),
{
}

/// Parsing what was serialized gives the header back, for every header of
/// at least five words.
pub proof fn lemma_serialize_then_parse(header: TcpView)
    requires
        header.data_offset() >= 5,
    ensures
        parsed(header.serialized()) == Ok::<TcpView, ParseError>(header),
{
    let bytes = header.serialized();
    lemma_u16_bytes_round_trip(header.source_port);
    lemma_u16_bytes_round_trip(header.destination_port);
    lemma_u32_bytes_round_trip(header.sequence_number);
    lemma_u32_bytes_round_trip(header.acknowledgement_number);
    lemma_u16_bytes_round_trip(header.window_size);
    lemma_u16_bytes_round_trip(header.checksum);
    lemma_u16_bytes_round_trip(header.urgent_pointer);
    assert(bytes.len() == 20);
    assert(u16_at(bytes, 0) == header.source_port);
    assert(u16_at(bytes, 2) == header.destination_port);
    assert(u32_at(bytes, 4) == header.sequence_number);
    assert(u32_at(bytes, 8) == header.acknowledgement_number);
    assert(u16_at(bytes, 14) == header.window_size);
    assert(u16_at(bytes, 16) == header.checksum);
    assert(u16_at(bytes, 18) == header.urgent_pointer);
    assert(decoded(bytes) == header);
}

/// Serializing what was read gives the bytes back: the fields that twenty
/// bytes hold serialize to the same twenty bytes.
pub proof fn lemma_parse_then_serialize(bytes: Seq<u8>)
    requires
        bytes.len() >= 20,
    ensures
        decoded(bytes).serialized() == bytes.subrange(0, 20),
{
    lemma_be16_bytes(bytes[0], bytes[1]);
    lemma_be16_bytes(bytes[2], bytes[3]);
    lemma_be32_bytes(bytes[4], bytes[5], bytes[6], bytes[7]);
    lemma_be32_bytes(bytes[8], bytes[9], bytes[10], bytes[11]);
    lemma_be16_bytes(bytes[14], bytes[15]);
    lemma_be16_bytes(bytes[16], bytes[17]);
    lemma_be16_bytes(bytes[18], bytes[19]);
    assert(decoded(bytes).serialized() =~= bytes.subrange(0, 20));
}

/// A checksum that is computed over pseudo-header, header and payload while
/// the header's checksum field is zero, and then written into that field,
/// verifies.
pub proof fn lemma_written_checksum_verifies(
    source_ip: Ipv4Address,
    destination_ip: Ipv4Address,
    header: Seq<u8>,
    payload: Seq<u8>,
)
    requires
        header.len() >= 18,
        header.len() + payload.len() <= 0xFFFF,
        u16_at(header, 16) == 0,
    ensures
        checksum_verifies(
            source_ip,
            destination_ip,
            with_u16(
                header,
                16,
                internet_checksum(
                    pseudo_header(
                        source_ip,
                        destination_ip,
                        (header.len() + payload.len()) as u16,
                    ) + header + payload,
                ),
            ) + payload,
        ),
{
    let pseudo = pseudo_header(source_ip, destination_ip, (header.len() + payload.len()) as u16);
    let covered = pseudo + header + payload;
    let checksum = internet_checksum(covered);
    let segment = with_u16(header, 16, checksum) + payload;
    assert(pseudo.len() == 12);
    assert(u16_at(covered, 28) == 0);
    lemma_stored_checksum_verifies(covered, 28);
    assert(with_u16(covered, 28, checksum) =~= pseudo + segment);
}

} // verus!
