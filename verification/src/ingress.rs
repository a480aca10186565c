//! The way of a frame from the TUN device: from the bytes that were read to
//! the flow they belong to, and to the bytes that go back out.

use vstd::prelude::*;
use vstd::slice::slice_subrange;
use crate::connections::{
    after_segment, initial_connection, outbound_after, verdict, Connection, ConnectionError,
    ConnectionView, SocketPair, SYN_ACK_LENGTH,
};
use crate::ipv4::{Ipv4, Ipv4View, PROTOCOL_TCP};
use crate::tcp::{checksum_verifies, Tcp, TcpView};
use crate::unixsocket::{RegistryView, UnixSocketManager};
use crate::wire::{read_u16, u16_at, ParseError};

verus! {

/// The length in bytes of what the TUN device puts before a packet: two
/// bytes of flags and the EtherType.
pub const TUN_PREFIX_LENGTH: usize = 4;

/// The EtherType of IPv4.
pub const ETHERTYPE_IPV4: u16 = 0x0800;

/// Why a frame went no further.
#[derive(Clone, Copy, Debug, PartialEq, Eq, Structural)]
pub enum DropReason {
    /// The frame is shorter than the TUN prefix.
    NoPrefix,
    /// The EtherType is not that of IPv4.
    NotIpv4,
    /// The IPv4 header was not accepted.
    BadPacket(ParseError),
    /// The packet carries another protocol than TCP.
    NotTcp,
    /// The total length of the packet is less than its header, or more than
    /// the frame holds.
    BadTotalLength,
    /// The TCP header was not accepted, or it gives itself more bytes than
    /// the segment has, or the checksum of the segment does not verify.
    BadSegment(ParseError),
    /// No endpoint listens on the destination port.
    PortClosed,
    /// The segment belongs to no known flow and does not carry SYN.
    NoConnection,
    /// The segment would open a flow, and the table holds as many records as
    /// it may.
    TableFull,
}

/// What became of a frame.
#[derive(Clone, Copy, Debug, PartialEq, Eq, Structural)]
pub enum FrameOutcome {
    /// The frame was dropped before it reached a connection.
    Dropped(DropReason),
    /// The connection refused the segment.
    Refused(ConnectionError),
    /// The connection took the segment and has no answer.
    Silent,
    /// The connection took the segment; the answer is this many bytes at the
    /// start of the outbound buffer.
    Answered(usize),
}

/// What a frame carries: the two headers and the payload.
pub struct Carried {
    pub packet: Ipv4View,
    pub segment: TcpView,
    pub payload: Seq<u8>,
}

impl Carried {
    /// The flow that the segment belongs to.
    pub open spec fn socket_pair(self) -> SocketPair {
        SocketPair {
            src_ip: self.packet.source_address,
            dest_ip: self.packet.destination_address,
            src_port: self.segment.source_port,
            dest_port: self.segment.destination_port,
        }
    }
}

/// The bytes of the frame after the TUN prefix.
pub open spec fn packet_bytes(frame: Seq<u8>) -> Seq<u8> {
    frame.subrange(TUN_PREFIX_LENGTH as int, frame.len() as int)
}

/// The bytes of the TCP segment in a frame whose IPv4 header is `packet`:
/// from the end of that header to the end that the total length gives.
pub open spec fn segment_bytes(frame: Seq<u8>, packet: Ipv4View) -> Seq<u8> {
    frame.subrange(TUN_PREFIX_LENGTH + packet.ihl() * 4, TUN_PREFIX_LENGTH + packet.total_length)
}

/// What the segment in a frame carries, or the first reason, in the order of
/// the checks, for which the frame is dropped: the TCP header, then a header
/// that gives itself more bytes than the segment has, and then the checksum
/// of the segment.
pub open spec fn carried_segment(frame: Seq<u8>, packet: Ipv4View) -> Result<Carried, DropReason> {
    let bytes = segment_bytes(frame, packet);
    match crate::tcp::parsed(bytes) {
        Err(error) => Err(DropReason::BadSegment(error)),
        Ok(segment) => if bytes.len() < segment.data_offset() * 4 {
            Err(DropReason::BadSegment(ParseError::Truncated))
        } else if !checksum_verifies(
            packet.source_address,
            packet.destination_address,
            bytes,
        ) {
            Err(DropReason::BadSegment(ParseError::BadChecksum))
        } else {
            Ok(
                Carried {
                    packet,
                    segment,
                    payload: bytes.subrange(segment.data_offset() * 4, bytes.len() as int),
                },
            )
        },
    }
}

/// What a frame carries, or the first reason, in the order of the checks,
/// for which it is dropped whatever the registry and the table hold: the
/// prefix, the EtherType, the IPv4 header, the protocol, the total length,
/// and then the segment.
pub open spec fn carried(frame: Seq<u8>) -> Result<Carried, DropReason> {
    if frame.len() < TUN_PREFIX_LENGTH {
        Err(DropReason::NoPrefix)
    } else if u16_at(frame, 2) != ETHERTYPE_IPV4 {
        Err(DropReason::NotIpv4)
    } else {
        match crate::ipv4::parsed(packet_bytes(frame)) {
            Err(error) => Err(DropReason::BadPacket(error)),
            Ok(packet) => if packet.protocol != PROTOCOL_TCP {
                Err(DropReason::NotTcp)
            } else if packet.total_length < packet.ihl() * 4 || frame.len() < TUN_PREFIX_LENGTH
                + packet.total_length {
                Err(DropReason::BadTotalLength)
            } else {
                carried_segment(frame, packet)
            },
        }
    }
}

/// What a frame carries to a connection, or the first reason for which it is
/// dropped: what the frame itself gives, then a destination port on which
/// no endpoint listens, then a flow without a record where the segment does
/// not carry SYN, then a flow without a record where the table, which may
/// hold `limit` records, is full.
pub open spec fn admitted(
    frame: Seq<u8>,
    registry: RegistryView,
    table: Map<SocketPair, ConnectionView>,
    limit: nat,
) -> Result<Carried, DropReason> {
    match carried(frame) {
        Err(reason) => Err(reason),
        Ok(content) => if !registry.port_open(content.segment.destination_port) {
            Err(DropReason::PortClosed)
        } else if !table.contains_key(content.socket_pair()) && !content.segment.syn() {
            Err(DropReason::NoConnection)
        } else if !table.contains_key(content.socket_pair()) && table.len() >= limit {
            Err(DropReason::TableFull)
        } else {
            Ok(content)
        },
    }
}

/// The record that a segment of the flow meets: the one in the table, or a
/// new one where the table has none.
pub open spec fn record_of(table: Map<SocketPair, ConnectionView>, socket_pair: SocketPair) -> ConnectionView {
    if table.contains_key(socket_pair) {
        table[socket_pair]
    } else {
        initial_connection()
    }
}

/// The table after a segment of the flow was processed.
pub open spec fn table_after_segment(
    table: Map<SocketPair, ConnectionView>,
    socket_pair: SocketPair,
    segment: TcpView,
) -> Map<SocketPair, ConnectionView> {
    table.insert(socket_pair, after_segment(record_of(table, socket_pair), segment))
}

/// The table after a frame: as it was where the frame is dropped, and with
/// the record of the frame's flow advanced otherwise.
pub open spec fn table_after_frame(
    frame: Seq<u8>,
    registry: RegistryView,
    table: Map<SocketPair, ConnectionView>,
    limit: nat,
) -> Map<SocketPair, ConnectionView> {
    match admitted(frame, registry, table, limit) {
        Err(_) => table,
        Ok(content) => table_after_segment(table, content.socket_pair(), content.segment),
    }
}

/// What becomes of a frame.
pub open spec fn outcome_of_frame(
    frame: Seq<u8>,
    registry: RegistryView,
    table: Map<SocketPair, ConnectionView>,
    limit: nat,
) -> FrameOutcome {
    match admitted(frame, registry, table, limit) {
        Err(reason) => FrameOutcome::Dropped(reason),
        Ok(content) => outcome_of(
            verdict(record_of(table, content.socket_pair()), content.segment),
        ),
    }
}

/// What the outbound buffer holds after a frame.
pub open spec fn outbound_after_frame(
    frame: Seq<u8>,
    registry: RegistryView,
    table: Map<SocketPair, ConnectionView>,
    limit: nat,
    before: Seq<u8>,
) -> Seq<u8> {
    match admitted(frame, registry, table, limit) {
        Err(_) => before,
        Ok(content) => outbound_after(
            record_of(table, content.socket_pair()),
            content.packet,
            content.segment,
            before,
        ),
    }
}

/// The outcome for what a connection returned.
pub open spec fn outcome_of(result: Result<usize, ConnectionError>) -> FrameOutcome {
    match result {
        Ok(length) => if length == 0 {
            FrameOutcome::Silent
        } else {
            FrameOutcome::Answered(length)
        },
        Err(error) => FrameOutcome::Refused(error),
    }
}

/// One flow and its record.
struct Flow {
    socket_pair: SocketPair,
    connection: Connection,
}

/// No two flows have the same socket pair.
spec fn distinct(flows: Seq<Flow>) -> bool {
    forall|i: int, j: int|
        0 <= i < j < flows.len() ==> (#[trigger] flows[i]).socket_pair != (
        #[trigger] flows[j]).socket_pair
}

/// Whether a flow has the socket pair.
spec fn tracks(flows: Seq<Flow>, socket_pair: SocketPair) -> bool {
    exists|i: int| 0 <= i < flows.len() && (#[trigger] flows[i]).socket_pair == socket_pair
}

/// The place of the flow that has the socket pair.
spec fn place_of(flows: Seq<Flow>, socket_pair: SocketPair) -> int {
    choose|i: int| 0 <= i < flows.len() && (#[trigger] flows[i]).socket_pair == socket_pair
}

/// The flows as a map from socket pair to record.
spec fn table_of(flows: Seq<Flow>) -> Map<SocketPair, ConnectionView> {
    Map::new(
        |socket_pair: SocketPair| tracks(flows, socket_pair),
        |socket_pair: SocketPair| flows[place_of(flows, socket_pair)].connection@,
    )
}

proof fn lemma_table_at(flows: Seq<Flow>, i: int)
    requires
        distinct(flows),
        0 <= i < flows.len(),
    ensures
        table_of(flows).contains_key(flows[i].socket_pair),
        table_of(flows)[flows[i].socket_pair] == flows[i].connection@,
        place_of(flows, flows[i].socket_pair) == i,
{
    assert(tracks(flows, flows[i].socket_pair));
}

proof fn lemma_table_changed(before: Seq<Flow>, after: Seq<Flow>, i: int)
    requires
        distinct(before),
        0 <= i < before.len(),
        after.len() == before.len(),
        after[i].socket_pair == before[i].socket_pair,
        forall|j: int| 0 <= j < before.len() && j != i ==> after[j] == before[j],
    ensures
        distinct(after),
        table_of(after) == table_of(before).insert(before[i].socket_pair, after[i].connection@),
{
    assert forall|j: int| 0 <= j < before.len() implies (#[trigger] after[j]).socket_pair
        == before[j].socket_pair by {}
    assert(distinct(after));
    let changed = table_of(before).insert(before[i].socket_pair, after[i].connection@);
    assert forall|socket_pair: SocketPair| tracks(after, socket_pair) <==> tracks(
        before,
        socket_pair,
    ) by {
        if tracks(after, socket_pair) {
            let j = place_of(after, socket_pair);
            assert(before[j].socket_pair == socket_pair);
        }
        if tracks(before, socket_pair) {
            let j = place_of(before, socket_pair);
            assert(after[j].socket_pair == socket_pair);
        }
    }
    assert forall|socket_pair: SocketPair| #[trigger]
        table_of(after).contains_key(socket_pair) implies table_of(after)[socket_pair]
        == changed[socket_pair] by {
        let j = place_of(after, socket_pair);
        lemma_table_at(after, j);
        lemma_table_at(before, j);
    }
    lemma_table_at(before, i);
    assert(table_of(after) =~= changed);
}

proof fn lemma_table_grown(before: Seq<Flow>, flow: Flow)
    requires
        distinct(before),
        !tracks(before, flow.socket_pair),
    ensures
        distinct(before.push(flow)),
        table_of(before.push(flow)) == table_of(before).insert(flow.socket_pair, flow.connection@),
{
    let after = before.push(flow);
    let grown = table_of(before).insert(flow.socket_pair, flow.connection@);
    assert(distinct(after)) by {
        assert forall|i: int, j: int| 0 <= i < j < after.len() implies (#[trigger] after[i]).socket_pair
            != (#[trigger] after[j]).socket_pair by {
            if j == before.len() {
                assert(before[i].socket_pair != flow.socket_pair);
            } else {
                assert(before[i].socket_pair != before[j].socket_pair);
            }
        }
    }
    assert forall|socket_pair: SocketPair| tracks(after, socket_pair) <==> (tracks(before, socket_pair)
        || socket_pair == flow.socket_pair) by {
        if tracks(after, socket_pair) {
            let j = place_of(after, socket_pair);
            if j < before.len() {
                assert(before[j].socket_pair == socket_pair);
            }
        }
        if tracks(before, socket_pair) {
            let j = place_of(before, socket_pair);
            assert(after[j].socket_pair == socket_pair);
        }
        if socket_pair == flow.socket_pair {
            assert(after[before.len() as int].socket_pair == socket_pair);
        }
    }
    assert forall|socket_pair: SocketPair| #[trigger]
        table_of(after).contains_key(socket_pair) implies table_of(after)[socket_pair]
        == grown[socket_pair] by {
        let j = place_of(after, socket_pair);
        lemma_table_at(after, j);
        if j < before.len() {
            lemma_table_at(before, j);
        }
    }
    assert(table_of(after) =~= grown);
}

proof fn lemma_table_size(flows: Seq<Flow>)
    requires
        distinct(flows),
    ensures
        table_of(flows).dom().finite(),
        table_of(flows).len() == flows.len(),
    decreases flows.len(),
{
    if flows.len() == 0 {
        assert(table_of(flows).dom() =~= Set::<SocketPair>::empty());
    } else {
        let front = flows.drop_last();
        let last = flows.last();
        assert(distinct(front)) by {
            assert forall|i: int, j: int| 0 <= i < j < front.len() implies (#[trigger] front[i]).socket_pair
                != (#[trigger] front[j]).socket_pair by {
                assert(flows[i].socket_pair != flows[j].socket_pair);
            }
        }
        assert(!tracks(front, last.socket_pair)) by {
            if tracks(front, last.socket_pair) {
                let i = place_of(front, last.socket_pair);
                assert(flows[i].socket_pair != flows[flows.len() - 1].socket_pair);
            }
        }
        lemma_table_size(front);
        lemma_table_grown(front, last);
        assert(front.push(last) =~= flows);
        assert(table_of(flows).dom() =~= table_of(front).dom().insert(last.socket_pair));
    }
}

/// The table of flows: one record for each socket pair that has been seen,
/// and never more records than its limit.
pub struct ConnectionTable {
    flows: Vec<Flow>,
    limit: usize,
}

impl View for ConnectionTable {
    type V = Map<SocketPair, ConnectionView>;

    closed spec fn view(&self) -> Map<SocketPair, ConnectionView> {
        table_of(self.flows@)
    }
}

impl ConnectionTable {
    #[verifier::type_invariant]
    spec fn well_formed(&self) -> bool {
        &&& distinct(self.flows@)
        &&& self.flows@.len() <= self.limit
    }

    /// The number of records that the table may hold.
    pub closed spec fn limit(&self) -> nat {
        self.limit as nat
    }

    /// A table without flows, which takes as many as there is room for in
    /// memory.
    pub fn new() -> (table: ConnectionTable)
        ensures
            table@ == Map::<SocketPair, ConnectionView>::empty(),
            table.limit() == usize::MAX,
    {
        ConnectionTable::with_limit(usize::MAX)
    }

    /// A table without flows, which takes `limit` of them and no more.
    pub fn with_limit(limit: usize) -> (table: ConnectionTable)
        ensures
            table@ == Map::<SocketPair, ConnectionView>::empty(),
            table.limit() == limit,
    {
        let table = ConnectionTable { flows: Vec::new(), limit };
        assert(table@ =~= Map::<SocketPair, ConnectionView>::empty());
        table
    }

    /// The number of flows that have a record.
    pub fn len(&self) -> (count: usize)
        ensures
            self@.dom().finite(),
            count == self@.len(),
            count <= self.limit(),
    {
        proof {
            use_type_invariant(self);
            lemma_table_size(self.flows@);
        }
        self.flows.len()
    }

    /// Whether the table holds as many records as it may.
    pub fn is_full(&self) -> (full: bool)
        ensures
            full == (self@.len() >= self.limit()),
    {
        self.len() >= self.limit
    }

    /// The place of the flow that has the socket pair.
    fn find(&self, socket_pair: &SocketPair) -> (place: Option<usize>)
        ensures
            distinct(self.flows@),
            match place {
                Some(i) => i < self.flows@.len() && self.flows@[i as int].socket_pair
                    == *socket_pair,
                None => !tracks(self.flows@, *socket_pair),
            },
    {
        proof {
            use_type_invariant(self);
        }
        let mut i: usize = 0;
        while i < self.flows.len()
            invariant
                i <= self.flows@.len(),
                distinct(self.flows@),
                forall|j: int| 0 <= j < i ==> self.flows@[j].socket_pair != *socket_pair,
            decreases self.flows@.len() - i,
        {
            if self.flows[i].socket_pair == *socket_pair {
                return Some(i);
            }
            i = i + 1;
        }
        None
    }

    /// Whether the table has a record for the flow.
    pub fn contains(&self, socket_pair: &SocketPair) -> (found: bool)
        ensures
            found == self@.contains_key(*socket_pair),
    {
        match self.find(socket_pair) {
            Some(place) => {
                proof {
                    lemma_table_at(self.flows@, place as int);
                }
                true
            },
            None => false,
        }
    }

    /// The record of the flow, where the table has one.
    pub fn get(&self, socket_pair: &SocketPair) -> (record: Option<&Connection>)
        ensures
            match record {
                Some(connection) => self@.contains_key(*socket_pair) && connection@
                    == self@[*socket_pair],
                None => !self@.contains_key(*socket_pair),
            },
    {
        match self.find(socket_pair) {
            Some(place) => {
                proof {
                    lemma_table_at(self.flows@, place as int);
                }
                Some(&self.flows[place].connection)
            },
            None => None,
        }
    }

    /// Hands one segment to the record of its flow, which is made first
    /// where the table has none, and returns what the record returns.
    fn process_segment(
        &mut self,
        socket_pair: SocketPair,
        incoming_ipv4header: &Ipv4,
        incoming_tcpheader: &Tcp,
        payload: &[u8],
        outbound_buffer: &mut [u8],
    ) -> (result: Result<usize, ConnectionError>)
        requires
            old(outbound_buffer)@.len() >= SYN_ACK_LENGTH,
            old(self)@.contains_key(socket_pair) || old(self)@.len() < old(self).limit(),
        ensures
            final(self)@ == table_after_segment(old(self)@, socket_pair, incoming_tcpheader@),
            final(self).limit() == old(self).limit(),
            result == verdict(record_of(old(self)@, socket_pair), incoming_tcpheader@),
            final(outbound_buffer)@ == outbound_after(
                record_of(old(self)@, socket_pair),
                incoming_ipv4header@,
                incoming_tcpheader@,
                old(outbound_buffer)@,
            ),
    {
        let place = self.find(&socket_pair);
        proof {
            use_type_invariant(&*self);
            lemma_table_size(self.flows@);
        }
        let mut flows: Vec<Flow> = Vec::new();
        core::mem::swap(&mut self.flows, &mut flows);
        let ghost before = flows@;
        let result = match place {
            Some(i) => {
                proof {
                    lemma_table_at(before, i as int);
                }
                let result = flows[i].connection.process_incoming(
                    incoming_ipv4header,
                    incoming_tcpheader,
                    payload,
                    outbound_buffer,
                );
                proof {
                    lemma_table_changed(before, flows@, i as int);
                }
                result
            },
            None => {
                let mut connection = Connection::default();
                let result = connection.process_incoming(
                    incoming_ipv4header,
                    incoming_tcpheader,
                    payload,
                    outbound_buffer,
                );
                let flow = Flow { socket_pair, connection };
                proof {
                    lemma_table_grown(before, flow);
                }
                flows.push(flow);
                result
            },
        };
        self.flows = flows;
        result
    }

    /// Takes one frame as it was read from the TUN device.
    ///
    /// The frame is dropped unless it has the TUN prefix with the EtherType of
    /// IPv4, an IPv4 header that parses, the protocol TCP, a total length
    /// that covers the header and that the frame holds, a TCP header that
    /// parses and lies within the segment, a checksum of the segment that
    /// verifies, a destination port that is
    /// open in `manager`, and either a record in the table, or the SYN flag
    /// and room in the table for a new record. What remains goes to the
    /// record of its flow. Where that has an answer, it stands at the start
    /// of `outbound_buffer`, which must have room for it.
    pub fn process_frame(
        &mut self,
        manager: &UnixSocketManager,
        frame: &[u8],
        outbound_buffer: &mut [u8],
    ) -> (outcome: FrameOutcome)
        requires
            old(outbound_buffer)@.len() >= SYN_ACK_LENGTH,
        ensures
            outcome == outcome_of_frame(frame@, manager@, old(self)@, old(self).limit()),
            final(self)@ == table_after_frame(frame@, manager@, old(self)@, old(self).limit()),
            final(self).limit() == old(self).limit(),
            final(outbound_buffer)@ == outbound_after_frame(
                frame@,
                manager@,
                old(self)@,
                old(self).limit(),
                old(outbound_buffer)@,
            ),
    {
        if frame.len() < TUN_PREFIX_LENGTH {
            return FrameOutcome::Dropped(DropReason::NoPrefix);
        }
        let ethertype = read_u16(frame, 2);
        if ethertype != ETHERTYPE_IPV4 {
            return FrameOutcome::Dropped(DropReason::NotIpv4);
        }
        let ipv4header = match Ipv4::deserialize(
            slice_subrange(frame, TUN_PREFIX_LENGTH, frame.len()),
        ) {
            Ok(header) => header,
            Err(error) => {
                return FrameOutcome::Dropped(DropReason::BadPacket(error));
            },
        };
        if ipv4header.protocol() != PROTOCOL_TCP {
            return FrameOutcome::Dropped(DropReason::NotTcp);
        }
        let header_length: usize = ipv4header.header_length_in_bytes() as usize;
        let total_length: usize = ipv4header.total_length() as usize;
        if total_length < header_length || frame.len() - TUN_PREFIX_LENGTH < total_length {
            return FrameOutcome::Dropped(DropReason::BadTotalLength);
        }
        let segment = slice_subrange(
            frame,
            TUN_PREFIX_LENGTH + header_length,
            TUN_PREFIX_LENGTH + total_length,
        );
        let tcpheader = match Tcp::deserialize(segment) {
            Ok(header) => header,
            Err(error) => {
                return FrameOutcome::Dropped(DropReason::BadSegment(error));
            },
        };
        let payload_starts_at: usize = tcpheader.header_length_in_bytes() as usize;
        if segment.len() < payload_starts_at {
            return FrameOutcome::Dropped(DropReason::BadSegment(ParseError::Truncated));
        }
        let src = ipv4header.source_ip();
        let dst = ipv4header.destination_ip();
        if !Tcp::verify_checksum(src, dst, segment) {
            return FrameOutcome::Dropped(DropReason::BadSegment(ParseError::BadChecksum));
        }
        if !manager.port_is_open(tcpheader.destination_port()) {
            return FrameOutcome::Dropped(DropReason::PortClosed);
        }
        let payload = slice_subrange(segment, payload_starts_at, segment.len());
        let socket_pair = SocketPair {
            src_ip: src,
            dest_ip: dst,
            src_port: tcpheader.source_port(),
            dest_port: tcpheader.destination_port(),
        };
        let known = self.contains(&socket_pair);
        if !known && !tcpheader.is_syn_set() {
            return FrameOutcome::Dropped(DropReason::NoConnection);
        }
        if !known && self.is_full() {
            return FrameOutcome::Dropped(DropReason::TableFull);
        }
        match self.process_segment(socket_pair, &ipv4header, &tcpheader, payload, outbound_buffer) {
            Ok(length) => if length == 0 {
                FrameOutcome::Silent
            } else {
                FrameOutcome::Answered(length)
            },
            Err(error) => FrameOutcome::Refused(error),
        }
    }
}

/// A frame with another EtherType than that of IPv4 is dropped, whatever
/// else it holds: no record changes and nothing goes out.
pub proof fn lemma_other_ethertype_is_dropped(
    frame: Seq<u8>,
    registry: RegistryView,
    table: Map<SocketPair, ConnectionView>,
    limit: nat,
    outbound: Seq<u8>,
)
    requires
        frame.len() >= TUN_PREFIX_LENGTH,
        u16_at(frame, 2) != ETHERTYPE_IPV4,
    ensures
        outcome_of_frame(frame, registry, table, limit) == FrameOutcome::Dropped(
            DropReason::NotIpv4,
        ),
        table_after_frame(frame, registry, table, limit) == table,
        outbound_after_frame(frame, registry, table, limit, outbound) == outbound,
{
}

/// A frame whose IPv4 header is not accepted is dropped for that reason: a
/// checksum that is off by one bit is such a header.
pub proof fn lemma_bad_packet_is_dropped(
    frame: Seq<u8>,
    registry: RegistryView,
    table: Map<SocketPair, ConnectionView>,
    limit: nat,
    outbound: Seq<u8>,
)
    requires
        frame.len() >= TUN_PREFIX_LENGTH,
        u16_at(frame, 2) == ETHERTYPE_IPV4,
        crate::ipv4::parsed(packet_bytes(frame)) is Err,
    ensures
        outcome_of_frame(frame, registry, table, limit) == FrameOutcome::Dropped(
            DropReason::BadPacket(crate::ipv4::parsed(packet_bytes(frame))->Err_0),
        ),
        table_after_frame(frame, registry, table, limit) == table,
        outbound_after_frame(frame, registry, table, limit, outbound) == outbound,
{
}

/// A segment to a port on which no endpoint listens is dropped: no record
/// changes and nothing goes out.
pub proof fn lemma_closed_port_is_dropped(
    frame: Seq<u8>,
    registry: RegistryView,
    table: Map<SocketPair, ConnectionView>,
    limit: nat,
    outbound: Seq<u8>,
)
    requires
        carried(frame) is Ok,
        !registry.port_open(carried(frame)->Ok_0.segment.destination_port),
    ensures
        outcome_of_frame(frame, registry, table, limit) == FrameOutcome::Dropped(
            DropReason::PortClosed,
        ),
        table_after_frame(frame, registry, table, limit) == table,
        outbound_after_frame(frame, registry, table, limit, outbound) == outbound,
{
}

/// A segment without SYN for a flow that has no record is dropped: no
/// record is made and nothing goes out.
pub proof fn lemma_stray_segment_is_dropped(
    frame: Seq<u8>,
    registry: RegistryView,
    table: Map<SocketPair, ConnectionView>,
    limit: nat,
    outbound: Seq<u8>,
)
    requires
        carried(frame) is Ok,
        registry.port_open(carried(frame)->Ok_0.segment.destination_port),
        !table.contains_key(carried(frame)->Ok_0.socket_pair()),
        !carried(frame)->Ok_0.segment.syn(),
    ensures
        outcome_of_frame(frame, registry, table, limit) == FrameOutcome::Dropped(
            DropReason::NoConnection,
        ),
        table_after_frame(frame, registry, table, limit) == table,
        outbound_after_frame(frame, registry, table, limit, outbound) == outbound,
{
}

/// A table never holds more records than its limit.
pub proof fn lemma_table_stays_within_limit(
    frame: Seq<u8>,
    registry: RegistryView,
    table: Map<SocketPair, ConnectionView>,
    limit: nat,
)
    requires
        table.dom().finite(),
        table.len() <= limit,
    ensures
        table_after_frame(frame, registry, table, limit).dom().finite(),
        table_after_frame(frame, registry, table, limit).len() <= limit,
        table.len() <= table_after_frame(frame, registry, table, limit).len(),
{
}

/// A frame changes no record but that of its own flow.
pub proof fn lemma_other_flows_untouched(
    frame: Seq<u8>,
    registry: RegistryView,
    table: Map<SocketPair, ConnectionView>,
    limit: nat,
    other: SocketPair,
)
    requires
        carried(frame) matches Ok(content) ==> content.socket_pair() != other,
    ensures
        table_after_frame(frame, registry, table, limit).contains_key(other) == table.contains_key(
            other,
        ),
        table_after_frame(frame, registry, table, limit)[other] == table[other],
{
}

/// The number of records that the table lacks for the two flows.
pub open spec fn records_needed(
    table: Map<SocketPair, ConnectionView>,
    first: SocketPair,
    second: SocketPair,
) -> nat {
    let for_first: nat = if table.contains_key(first) {
        0
    } else {
        1
    };
    let for_second: nat = if table.contains_key(second) {
        0
    } else {
        1
    };
    for_first + for_second
}

/// Flows are independent: where the table has room for the records that two
/// frames of different flows need, what becomes of the second frame, and
/// what its flow's record becomes, does not depend on whether the first
/// came before it, and the two frames leave the same table in either order.
pub proof fn lemma_flows_are_independent(
    first: Seq<u8>,
    second: Seq<u8>,
    registry: RegistryView,
    table: Map<SocketPair, ConnectionView>,
    limit: nat,
    outbound: Seq<u8>,
)
    requires
        carried(first) is Ok,
        carried(second) is Ok,
        carried(first)->Ok_0.socket_pair() != carried(second)->Ok_0.socket_pair(),
        table.dom().finite(),
        table.len() + records_needed(
            table,
            carried(first)->Ok_0.socket_pair(),
            carried(second)->Ok_0.socket_pair(),
        ) <= limit,
    ensures
        outcome_of_frame(second, registry, table_after_frame(first, registry, table, limit), limit)
            == outcome_of_frame(second, registry, table, limit),
        outbound_after_frame(
            second,
            registry,
            table_after_frame(first, registry, table, limit),
            limit,
            outbound,
        ) == outbound_after_frame(second, registry, table, limit, outbound),
        table_after_frame(second, registry, table_after_frame(first, registry, table, limit), limit)
            == table_after_frame(
            first,
            registry,
            table_after_frame(second, registry, table, limit),
            limit,
        ),
{
    let after_first = table_after_frame(first, registry, table, limit);
    let after_second = table_after_frame(second, registry, table, limit);
    let key_first = carried(first)->Ok_0.socket_pair();
    let key_second = carried(second)->Ok_0.socket_pair();
    assert(after_first.contains_key(key_second) == table.contains_key(key_second));
    assert(after_second.contains_key(key_first) == table.contains_key(key_first));
    assert(record_of(after_first, key_second) == record_of(table, key_second));
    assert(record_of(after_second, key_first) == record_of(table, key_first));
    assert(after_first.len() <= table.len() + 1);
    assert(after_second.len() <= table.len() + 1);
    assert(table_after_frame(second, registry, after_first, limit) =~= table_after_frame(
        first,
        registry,
        after_second,
        limit,
    ));
}

} // verus!
