//! The IPv4 header: the twenty bytes without options, parsed and emitted
//! byte for byte, with its checksum.

use vstd::prelude::*;
use vstd::slice::slice_subrange;
use crate::utility::{
    calculate_checksum, internet_checksum, lemma_stored_checksum_verifies, lemma_sum_words_bound,
    lemma_sum_words_first, lemma_sum_words_with_u16, sum_words, word_at, word_count,
};
use crate::wire::{
    lemma_be16_bytes, lemma_nibbles, lemma_u16_bytes_round_trip, lemma_u16_split, push_u16,
    read_u16, u16_at, u16_bytes, with_u16, ParseError,
};

verus! {

/// An IPv4 address, as its four bytes in network order.
#[derive(Clone, Copy, Debug, PartialEq, Eq, Hash, Structural)]
pub struct Ipv4Address {
    pub a: u8,
    pub b: u8,
    pub c: u8,
    pub d: u8,
}

impl Ipv4Address {
    /// The address `a.b.c.d`.
    pub fn new(a: u8, b: u8, c: u8, d: u8) -> (address: Ipv4Address)
        ensures
            address == (Ipv4Address { a, b, c, d }),
    {
        Ipv4Address { a, b, c, d }
    }

    /// The four bytes in network order.
    pub open spec fn bytes(self) -> Seq<u8> {
        seq![self.a, self.b, self.c, self.d]
    }

    /// The four bytes in network order.
    pub fn octets(&self) -> (octets: [u8; 4])
        ensures
            octets@ == self.bytes(),
    {
        let octets = [self.a, self.b, self.c, self.d];
        assert(octets@ =~= self.bytes());
        octets
    }
}

/// The address that `bytes` holds at offset `at`.
pub open spec fn address_at(bytes: Seq<u8>, at: int) -> Ipv4Address {
    Ipv4Address { a: bytes[at], b: bytes[at + 1], c: bytes[at + 2], d: bytes[at + 3] }
}

/// An IPv4 header without options.
#[derive(Debug)]
pub struct Ipv4 {
    version_and_ihl: u8,
    type_of_service: u8,
    total_length: u16,
    identification: u16,
    flags_and_fragment_offset: u16,
    ttl: u8,
    protocol: u8,
    header_checksum: u16,
    source_address: Ipv4Address,
    destination_address: Ipv4Address,
}

/// The fields of an IPv4 header.
pub struct Ipv4View {
    pub version_and_ihl: u8,
    pub type_of_service: u8,
    pub total_length: u16,
    pub identification: u16,
    pub flags_and_fragment_offset: u16,
    pub ttl: u8,
    pub protocol: u8,
    pub header_checksum: u16,
    pub source_address: Ipv4Address,
    pub destination_address: Ipv4Address,
}

/// The protocol number of TCP.
pub const PROTOCOL_TCP: u8 = 6;

/// The length in bytes of a header without options.
pub const HEADER_LENGTH: usize = 20;

impl Ipv4View {
    /// The version nibble.
    pub open spec fn version(self) -> int {
        self.version_and_ihl as int / 16
    }

    /// The header length nibble: the length of the header in 32-bit words.
    pub open spec fn ihl(self) -> int {
        self.version_and_ihl as int % 16
    }

    /// The twenty bytes of the header in network order, the checksum field zero.
    pub open spec fn serialized(self) -> Seq<u8> {
        seq![self.version_and_ihl, self.type_of_service] + u16_bytes(self.total_length)
            + u16_bytes(self.identification) + u16_bytes(self.flags_and_fragment_offset)
            + seq![self.ttl, self.protocol, 0u8, 0u8] + self.source_address.bytes()
            + self.destination_address.bytes()
    }

    /// The twenty bytes of the header as they go out: serialized, and then the
    /// checksum of those bytes written into its field.
    pub open spec fn emitted(self) -> Seq<u8> {
        with_header_checksum(self.serialized())
    }
}

/// The checksum of a header: that of its bytes with the checksum field, bytes
/// 10 and 11, taken as zero.
pub open spec fn header_checksum_of(header: Seq<u8>) -> u16 {
    internet_checksum(with_u16(header, 10, 0))
}

/// The header with its checksum written into bytes 10 and 11.
pub open spec fn with_header_checksum(header: Seq<u8>) -> Seq<u8> {
    with_u16(header, 10, header_checksum_of(header))
}

/// The fields that the first twenty bytes of `bytes` hold.
pub open spec fn decoded(bytes: Seq<u8>) -> Ipv4View {
    Ipv4View {
        version_and_ihl: bytes[0],
        type_of_service: bytes[1],
        total_length: u16_at(bytes, 2),
        identification: u16_at(bytes, 4),
        flags_and_fragment_offset: u16_at(bytes, 6),
        ttl: bytes[8],
        protocol: bytes[9],
        header_checksum: u16_at(bytes, 10),
        source_address: address_at(bytes, 12),
        destination_address: address_at(bytes, 16),
    }
}

/// What parsing `bytes` gives: the header's fields, or the first reason in
/// this order for which it is not accepted.
pub open spec fn parsed(bytes: Seq<u8>) -> Result<Ipv4View, ParseError> {
    let header = decoded(bytes);
    if bytes.len() < 20 {
        Err(ParseError::TooShort)
    } else if header.version() != 4 {
        Err(ParseError::BadVersion)
    } else if header.ihl() < 5 {
        Err(ParseError::BadHeaderLength)
    } else if bytes.len() < header.ihl() * 4 {
        Err(ParseError::Truncated)
    } else if header.header_checksum != header_checksum_of(bytes.subrange(0, header.ihl() * 4)) {
        Err(ParseError::BadChecksum)
    } else {
        Ok(header)
    }
}

impl View for Ipv4 {
    type V = Ipv4View;

    closed spec fn view(&self) -> Ipv4View {
        Ipv4View {
            version_and_ihl: self.version_and_ihl,
            type_of_service: self.type_of_service,
            total_length: self.total_length,
            identification: self.identification,
            flags_and_fragment_offset: self.flags_and_fragment_offset,
            ttl: self.ttl,
            protocol: self.protocol,
            header_checksum: self.header_checksum,
            source_address: self.source_address,
            destination_address: self.destination_address,
        }
    }
}

/// The checksum of `header` with its checksum field taken as zero.
fn zeroed_field_checksum(header: &[u8]) -> (checksum: u16)
    requires
        header@.len() >= 12,
    ensures
        checksum == header_checksum_of(header@),
{
    let mut copy: Vec<u8> = Vec::new();
    let mut i: usize = 0;
    while i < header.len()
        invariant
            i <= header@.len(),
            header@.len() >= 12,
            copy@.len() == i,
            forall|j: int| 0 <= j < i ==> copy@[j] == with_u16(header@, 10, 0)[j],
        decreases header@.len() - i,
    {
        let byte = if i == 10 || i == 11 {
            0u8
        } else {
            header[i]
        };
        copy.push(byte);
        i = i + 1;
    }
    assert(copy@ =~= with_u16(header@, 10, 0));
    calculate_checksum(copy.as_slice())
}

impl Ipv4 {
    /// A header for a TCP packet from `source_address` to `destination_address`:
    /// version 4, five words long, time to live 64, and a total length
    /// of the header alone.
    pub fn new(source_address: Ipv4Address, destination_address: Ipv4Address) -> (header: Ipv4)
        ensures
            header@ == (Ipv4View {
                version_and_ihl: 0x45,
                type_of_service: 0,
                total_length: 20,
                identification: 0,
                flags_and_fragment_offset: 0,
                ttl: 64,
                protocol: PROTOCOL_TCP,
                header_checksum: 0,
                source_address,
                destination_address,
            }),
    {
        Ipv4 {
            version_and_ihl: 0x45,
            type_of_service: 0x00,
            total_length: 20,
            identification: 0,
            flags_and_fragment_offset: 0x0000,
            ttl: 64,
            protocol: PROTOCOL_TCP,
            header_checksum: 0,
            source_address,
            destination_address,
        }
    }

    /// Parses the header at the start of `data`.
    ///
    /// The input is rejected where it has fewer than twenty bytes, where its
    /// version is not 4, where it gives itself fewer than five words or more
    /// bytes than `data` has, and where its checksum field does not hold the
    /// checksum of the header with that field taken as zero.
    pub fn deserialize(data: &[u8]) -> (result: Result<Ipv4, ParseError>)
        ensures
            match result {
                Ok(header) => parsed(data@) == Ok::<Ipv4View, ParseError>(header@),
                Err(error) => parsed(data@) == Err::<Ipv4View, ParseError>(error),
            },
    {
        if data.len() < HEADER_LENGTH {
            return Err(ParseError::TooShort);
        }
        let version_and_ihl = data[0];
        proof {
            lemma_nibbles(version_and_ihl);
        }
        if version_and_ihl >> 4 != 4 {
            return Err(ParseError::BadVersion);
        }
        let words = version_and_ihl & 0x0F;
        if words < 5 {
            return Err(ParseError::BadHeaderLength);
        }
        let header_length: usize = words as usize * 4;
        if data.len() < header_length {
            return Err(ParseError::Truncated);
        }
        let header_checksum = read_u16(data, 10);
        let calculated_checksum = zeroed_field_checksum(slice_subrange(data, 0, header_length));
        if calculated_checksum != header_checksum {
            return Err(ParseError::BadChecksum);
        }
        Ok(
            Ipv4 {
                version_and_ihl,
                type_of_service: data[1],
                total_length: read_u16(data, 2),
                identification: read_u16(data, 4),
                flags_and_fragment_offset: read_u16(data, 6),
                ttl: data[8],
                protocol: data[9],
                header_checksum,
                source_address: Ipv4Address::new(data[12], data[13], data[14], data[15]),
                destination_address: Ipv4Address::new(data[16], data[17], data[18], data[19]),
            },
        )
    }

    /// The twenty bytes of the header in network order, with the checksum
    /// field written as zero.
    pub fn serialize(&self) -> (bytes: Vec<u8>)
        ensures
            bytes@ == self@.serialized(),
    {
        let mut bytes: Vec<u8> = Vec::new();
        bytes.push(self.version_and_ihl);
        bytes.push(self.type_of_service);
        push_u16(&mut bytes, self.total_length);
        push_u16(&mut bytes, self.identification);
        push_u16(&mut bytes, self.flags_and_fragment_offset);
        bytes.push(self.ttl);
        bytes.push(self.protocol);
        bytes.push(0u8);
        bytes.push(0u8);
        bytes.push(self.source_address.a);
        bytes.push(self.source_address.b);
        bytes.push(self.source_address.c);
        bytes.push(self.source_address.d);
        bytes.push(self.destination_address.a);
        bytes.push(self.destination_address.b);
        bytes.push(self.destination_address.c);
        bytes.push(self.destination_address.d);
        assert(bytes@ =~= self@.serialized());
        bytes
    }

    /// Computes the checksum of a serialized header, its checksum field taken
    /// as zero, and writes it into bytes 10 and 11.
    pub fn calculate_and_set_checksum(serialized_packet: &mut Vec<u8>)
        requires
            old(serialized_packet)@.len() >= 12,
        ensures
            final(serialized_packet)@ == with_header_checksum(old(serialized_packet)@),
    {
        let checksum = zeroed_field_checksum(serialized_packet.as_slice());
        proof {
            lemma_u16_split(checksum);
        }
        serialized_packet[10] = (checksum >> 8) as u8;
        serialized_packet[11] = checksum as u8;
    }

    /// The twenty bytes of the header as they go out, checksum included.
    pub fn emit(&self) -> (bytes: Vec<u8>)
        ensures
            bytes@ == self@.emitted(),
    {
        let mut bytes = self.serialize();
        Ipv4::calculate_and_set_checksum(&mut bytes);
        bytes
    }

    /// The number of the protocol that the packet carries.
    pub fn protocol(&self) -> (protocol: u8)
        ensures
            protocol == self@.protocol,
    {
        self.protocol
    }

    /// The address the packet comes from.
    pub fn source_ip(&self) -> (address: Ipv4Address)
        ensures
            address == self@.source_address,
    {
        self.source_address
    }

    /// The address the packet goes to.
    pub fn destination_ip(&self) -> (address: Ipv4Address)
        ensures
            address == self@.destination_address,
    {
        self.destination_address
    }

    /// The length in bytes of the whole packet, header included.
    pub fn total_length(&self) -> (length: u16)
        ensures
            length == self@.total_length,
    {
        self.total_length
    }

    /// Sets the length in bytes of the whole packet.
    pub fn set_total_length(&mut self, length: u16)
        ensures
            final(self)@ == (Ipv4View { total_length: length, ..old(self)@ }),
    {
        self.total_length = length
    }

    /// The length of the header in bytes: four times the header length nibble.
    pub fn header_length_in_bytes(&self) -> (length: u8)
        ensures
            length == self@.ihl() * 4,
    {
        proof {
            lemma_nibbles(self.version_and_ihl);
        }
        (self.version_and_ihl & 0x0F) * 4
    }
}

/// Writing a header's checksum a second time changes nothing: the checksum is
/// computed with its own field taken as zero, so it does not depend on what
/// the field holds.
pub proof fn lemma_checksum_rewrite_idempotent(header: Seq<u8>)
    requires
        header.len() >= 12,
    ensures
        with_header_checksum(with_header_checksum(header)) == with_header_checksum(header),
{
    let once = with_header_checksum(header);
    assert(with_u16(once, 10, 0) =~= with_u16(header, 10, 0));
    assert(with_header_checksum(once) =~= once);
}

/// The header that goes out carries a checksum that verifies: the checksum of
/// the emitted bytes, the stored checksum included, is zero.
pub proof fn lemma_emitted_checksum_verifies(header: Ipv4View)
    ensures
        header.emitted().len() == 20,
        internet_checksum(header.emitted()) == 0,
{
    let bytes = header.serialized();
    assert(with_u16(bytes, 10, 0) =~= bytes);
    lemma_stored_checksum_verifies(bytes, 10);
}

/// Parsing what was emitted gives the header back: for a header of version 4
/// and five words, the emitted bytes parse to the same fields, the checksum
/// field holding the checksum that was emitted.
pub proof fn lemma_emit_then_parse(header: Ipv4View)
    requires
        header.version() == 4,
        header.ihl() == 5,
    ensures
        parsed(header.emitted()) == Ok::<Ipv4View, ParseError>(
            Ipv4View { header_checksum: header_checksum_of(header.serialized()), ..header },
        ),
{
    let bytes = header.serialized();
    let out = header.emitted();
    let checksum = header_checksum_of(bytes);
    lemma_u16_bytes_round_trip(header.total_length);
    lemma_u16_bytes_round_trip(header.identification);
    lemma_u16_bytes_round_trip(header.flags_and_fragment_offset);
    lemma_u16_bytes_round_trip(checksum);
    assert(out.len() == 20);
    assert(out.subrange(0, 20) =~= out);
    assert(with_u16(out, 10, 0) =~= with_u16(bytes, 10, 0));
    assert(u16_at(out, 2) == header.total_length);
    assert(u16_at(out, 4) == header.identification);
    assert(u16_at(out, 6) == header.flags_and_fragment_offset);
    assert(u16_at(out, 10) == checksum);
    assert(decoded(out) == Ipv4View { header_checksum: checksum, ..header });
}

/// A header with another checksum in its field than the one it was accepted
/// with is rejected for its checksum: so is one whose checksum is off by a
/// single bit.
pub proof fn lemma_changed_checksum_is_rejected(bytes: Seq<u8>, other: u16)
    requires
        parsed(bytes) is Ok,
        other != decoded(bytes).header_checksum,
    ensures
        parsed(with_u16(bytes, 10, other)) == Err::<Ipv4View, ParseError>(ParseError::BadChecksum),
{
    let changed = with_u16(bytes, 10, other);
    let length = decoded(bytes).ihl() * 4;
    lemma_u16_bytes_round_trip(other);
    assert(u16_at(changed, 10) == other);
    assert(with_u16(changed.subrange(0, length), 10, 0) =~= with_u16(
        bytes.subrange(0, length),
        10,
        0,
    ));
}

/// The stored checksum of a header whose bytes verify is the checksum that
/// is computed with the field taken as zero, unless the field holds `0xFFFF`.
proof fn lemma_verified_checksum_is_stored(header: Seq<u8>)
    requires
        12 <= header.len() <= 60,
        header[0] >= 1,
        internet_checksum(header) == 0,
        u16_at(header, 10) != 0xFFFF,
    ensures
        u16_at(header, 10) == header_checksum_of(header),
{
    let stored = u16_at(header, 10);
    let blank = with_u16(header, 10, 0);
    let n = word_count(header);
    lemma_be16_bytes(header[10], header[11]);
    assert(with_u16(blank, 10, stored) =~= header);
    assert(word_at(blank, 5) == 0);
    lemma_sum_words_with_u16(blank, 10, stored, n);
    lemma_sum_words_bound(header, n);
    lemma_sum_words_bound(blank, n);
    lemma_sum_words_first(blank, n);
    let zero_sum = sum_words(blank, n);
    assert(sum_words(header, n) == zero_sum + stored);
    assert(zero_sum >= 1);
    let q1 = (zero_sum - 1) / 0xFFFF;
    let q2 = (zero_sum + stored - 1) / 0xFFFF;
    assert(zero_sum - 1 == 0xFFFF * q1 + (zero_sum - 1) % 0xFFFF);
    assert(zero_sum + stored - 1 == 0xFFFF * q2 + (zero_sum + stored - 1) % 0xFFFF);
}

/// Emitting what was parsed gives the bytes back. Bytes that begin with a
/// header of version 4 and at least five words, all of it present, whose
/// checksum verifies and is not stored as `0xFFFF`, are accepted; where the
/// header has exactly five words, emitting the parsed header gives its
/// twenty bytes again.
pub proof fn lemma_parse_then_emit(bytes: Seq<u8>)
    requires
        bytes.len() >= 20,
        decoded(bytes).version() == 4,
        decoded(bytes).ihl() >= 5,
        decoded(bytes).ihl() * 4 <= bytes.len(),
        internet_checksum(bytes.subrange(0, decoded(bytes).ihl() * 4)) == 0,
        decoded(bytes).header_checksum != 0xFFFF,
    ensures
        parsed(bytes) == Ok::<Ipv4View, ParseError>(decoded(bytes)),
        decoded(bytes).ihl() == 5 ==> decoded(bytes).emitted() == bytes.subrange(0, 20),
{
    let fields = decoded(bytes);
    let header = bytes.subrange(0, fields.ihl() * 4);
    lemma_verified_checksum_is_stored(header);
    if fields.ihl() == 5 {
        let out = fields.serialized();
        lemma_be16_bytes(bytes[2], bytes[3]);
        lemma_be16_bytes(bytes[4], bytes[5]);
        lemma_be16_bytes(bytes[6], bytes[7]);
        lemma_be16_bytes(bytes[10], bytes[11]);
        assert(out =~= with_u16(header, 10, 0));
        assert(with_u16(out, 10, 0) =~= out);
        assert(fields.emitted() =~= header);
    }
}

} // verus!
