//! The control plane: the registry of the endpoints that clients have opened,
//! the messages that change it, and the question the frame loop asks of it.
//!
//! A message is a header of five bytes, the type and the length of the payload
//! as a big-endian 32-bit number, and then the payload. The reply to a message
//! is one status byte, zero for success and the number of the error otherwise;
//! the reply to a successful SOCKET carries the new descriptor after it, as a
//! big-endian 32-bit number.

use std::collections::HashMap;
use vstd::prelude::*;
use vstd::std_specs::hash::{group_hash_axioms, spec_hash_map_iter};
use vstd::std_specs::iter::IteratorSpec;
use crate::wire::{push_u32, read_u16, read_u32, u16_at, u32_at, u32_bytes};

verus! {

/// How far an endpoint has come.
#[derive(Clone, Copy, Debug, PartialEq, Eq, Structural)]
pub enum SocketState {
    Created,
    Bound,
    Listening,
}

/// The kinds of message that a client sends.
#[derive(Clone, Copy, Debug, PartialEq, Eq, Structural)]
pub enum MessageType {
    Connect,
    Send,
    Receive,
    Close,
    Accept,
    Listen,
    Bind,
    Socket,
}

/// Why a message was not carried out.
#[derive(Clone, Copy, Debug, PartialEq, Eq, Structural)]
pub enum ControlError {
    /// No endpoint has the descriptor that the message names.
    UnknownDescriptor,
    /// An endpoint has the port bound already.
    PortInUse,
    /// The type byte is none of the eight.
    InvalidMessageType,
    /// The payload is shorter than the message needs.
    Truncated,
    /// Every descriptor has been handed out.
    DescriptorsExhausted,
}

/// The record of one endpoint.
#[derive(Clone, Copy, Debug)]
pub struct ClientConnection {
    pub socket_state: SocketState,
    pub bound_port: Option<u16>,
}

/// The head of a message: its type, where the type byte is one of the
/// eight, and the length of the payload that follows.
#[derive(Clone, Copy, Debug)]
pub struct MessageHeader {
    pub message_type: Result<MessageType, ControlError>,
    pub payload_length: u32,
}

/// The registry of endpoints, and the counter that descriptors come from.
pub struct UnixSocketManager {
    connections: HashMap<u32, ClientConnection>,
    id_counter: u32,
}

/// What the registry holds: the record of each descriptor that an endpoint
/// has, and the last descriptor handed out.
pub struct RegistryView {
    pub records: Map<u32, ClientConnection>,
    pub counter: u32,
}

/// One message as the registry takes it.
pub struct Message {
    pub message_type: Result<MessageType, ControlError>,
    pub payload: Seq<u8>,
}

/// The message type that a type byte stands for.
pub open spec fn message_type_of(byte: u8) -> Result<MessageType, ControlError> {
    if byte == 1 {
        Ok(MessageType::Connect)
    } else if byte == 2 {
        Ok(MessageType::Send)
    } else if byte == 3 {
        Ok(MessageType::Receive)
    } else if byte == 4 {
        Ok(MessageType::Close)
    } else if byte == 5 {
        Ok(MessageType::Accept)
    } else if byte == 6 {
        Ok(MessageType::Listen)
    } else if byte == 7 {
        Ok(MessageType::Bind)
    } else if byte == 8 {
        Ok(MessageType::Socket)
    } else {
        Err(ControlError::InvalidMessageType)
    }
}

/// The status byte that reports an error to the client.
pub open spec fn status_of(error: ControlError) -> u8 {
    match error {
        ControlError::UnknownDescriptor => 1,
        ControlError::PortInUse => 2,
        ControlError::InvalidMessageType => 3,
        ControlError::Truncated => 4,
        ControlError::DescriptorsExhausted => 5,
    }
}

/// The bytes that answer a message.
pub open spec fn reply_to(result: Result<Option<u32>, ControlError>) -> Seq<u8> {
    match result {
        Ok(None) => seq![0u8],
        Ok(Some(descriptor)) => seq![0u8] + u32_bytes(descriptor),
        Err(error) => seq![status_of(error)],
    }
}

impl RegistryView {
    /// Descriptors start at one, and none is above the counter.
    pub open spec fn wf(self) -> bool {
        &&& self.records.dom().finite()
        &&& forall|descriptor: u32| #[trigger]
            self.records.contains_key(descriptor) ==> 1 <= descriptor <= self.counter
    }

    /// Whether an endpoint has the descriptor.
    pub open spec fn knows(self, descriptor: u32) -> bool {
        self.records.contains_key(descriptor)
    }

    /// Whether a record has the port bound.
    pub open spec fn port_bound(self, port: u16) -> bool {
        exists|descriptor: u32|
            self.records.contains_key(descriptor) && (#[trigger] self.records[descriptor]).bound_port
                == Some(port)
    }

    /// Whether a record has the port bound and listens.
    pub open spec fn port_open(self, port: u16) -> bool {
        exists|descriptor: u32|
            self.records.contains_key(descriptor) && (#[trigger] self.records[descriptor]).bound_port
                == Some(port) && self.records[descriptor].socket_state == SocketState::Listening
    }

    /// The registry after a new endpoint was made: it has the descriptor
    /// after the counter, and is created, not bound.
    pub open spec fn opened(self) -> RegistryView {
        RegistryView {
            records: self.records.insert(
                (self.counter + 1) as u32,
                ClientConnection { socket_state: SocketState::Created, bound_port: None },
            ),
            counter: (self.counter + 1) as u32,
        }
    }

    /// The registry after the endpoint with the descriptor was bound to the port.
    pub open spec fn bound(self, descriptor: u32, port: u16) -> RegistryView {
        RegistryView {
            records: self.records.insert(
                descriptor,
                ClientConnection { socket_state: SocketState::Bound, bound_port: Some(port) },
            ),
            ..self
        }
    }

    /// The registry after the endpoint with the descriptor began to listen.
    pub open spec fn listening(self, descriptor: u32) -> RegistryView {
        RegistryView {
            records: self.records.insert(
                descriptor,
                ClientConnection {
                    socket_state: SocketState::Listening,
                    ..self.records[descriptor]
                },
            ),
            ..self
        }
    }

    /// What SOCKET returns: the new descriptor, unless none is left.
    pub open spec fn socket_result(self) -> Result<u32, ControlError> {
        if self.counter == u32::MAX {
            Err(ControlError::DescriptorsExhausted)
        } else {
            Ok((self.counter + 1) as u32)
        }
    }

    /// What BIND returns for a payload of a descriptor and a port: the first
    /// error in this order, or success.
    pub open spec fn bind_result(self, payload: Seq<u8>) -> Result<(), ControlError> {
        if payload.len() < 6 {
            Err(ControlError::Truncated)
        } else if self.port_bound(u16_at(payload, 4)) {
            Err(ControlError::PortInUse)
        } else if !self.knows(u32_at(payload, 0)) {
            Err(ControlError::UnknownDescriptor)
        } else {
            Ok(())
        }
    }

    /// What LISTEN returns for a payload of a descriptor.
    pub open spec fn listen_result(self, payload: Seq<u8>) -> Result<(), ControlError> {
        if payload.len() < 4 {
            Err(ControlError::Truncated)
        } else if !self.knows(u32_at(payload, 0)) {
            Err(ControlError::UnknownDescriptor)
        } else {
            Ok(())
        }
    }

    /// What a message returns: the new descriptor for SOCKET, nothing for
    /// the others, or the error.
    pub open spec fn message_result(
        self,
        message_type: Result<MessageType, ControlError>,
        payload: Seq<u8>,
    ) -> Result<Option<u32>, ControlError> {
        match message_type {
            Ok(MessageType::Socket) => match self.socket_result() {
                Ok(descriptor) => Ok(Some(descriptor)),
                Err(error) => Err(error),
            },
            Ok(MessageType::Bind) => match self.bind_result(payload) {
                Ok(_) => Ok(None),
                Err(error) => Err(error),
            },
            Ok(MessageType::Listen) => match self.listen_result(payload) {
                Ok(_) => Ok(None),
                Err(error) => Err(error),
            },
            Ok(_) => Ok(None),
            Err(error) => Err(error),
        }
    }

    /// The registry after a message: changed where SOCKET, BIND or LISTEN
    /// succeeded, and as it was otherwise.
    pub open spec fn after_message(
        self,
        message_type: Result<MessageType, ControlError>,
        payload: Seq<u8>,
    ) -> RegistryView {
        if self.message_result(message_type, payload) is Err {
            self
        } else {
            match message_type {
                Ok(MessageType::Socket) => self.opened(),
                Ok(MessageType::Bind) => self.bound(u32_at(payload, 0), u16_at(payload, 4)),
                Ok(MessageType::Listen) => self.listening(u32_at(payload, 0)),
                _ => self,
            }
        }
    }

    /// The registry after the messages, taken in their order.
    pub open spec fn after_messages(self, messages: Seq<Message>) -> RegistryView
        decreases messages.len(),
    {
        if messages.len() == 0 {
            self
        } else {
            self.after_messages(messages.drop_last()).after_message(
                messages.last().message_type,
                messages.last().payload,
            )
        }
    }
}

impl ControlError {
    /// The status byte that reports the error to the client.
    pub fn status(&self) -> (status: u8)
        ensures
            status == status_of(*self),
            status != 0,
    {
        match self {
            ControlError::UnknownDescriptor => 1,
            ControlError::PortInUse => 2,
            ControlError::InvalidMessageType => 3,
            ControlError::Truncated => 4,
            ControlError::DescriptorsExhausted => 5,
        }
    }
}

impl MessageType {
    /// The message type that a type byte stands for: the bytes 1 to 8 are
    /// CONNECT, SEND, RECEIVE, CLOSE, ACCEPT, LISTEN, BIND and SOCKET.
    pub fn from_byte(byte: u8) -> (result: Result<MessageType, ControlError>)
        ensures
            result == message_type_of(byte),
    {
        match byte {
            1 => Ok(MessageType::Connect),
            2 => Ok(MessageType::Send),
            3 => Ok(MessageType::Receive),
            4 => Ok(MessageType::Close),
            5 => Ok(MessageType::Accept),
            6 => Ok(MessageType::Listen),
            7 => Ok(MessageType::Bind),
            8 => Ok(MessageType::Socket),
            _ => Err(ControlError::InvalidMessageType),
        }
    }
}

impl MessageHeader {
    /// Reads the five bytes that stand before a payload.
    pub fn parse(header: &[u8; 5]) -> (parsed: MessageHeader)
        ensures
            parsed.message_type == message_type_of(header@[0]),
            parsed.payload_length == u32_at(header@, 1),
    {
        MessageHeader {
            message_type: MessageType::from_byte(header[0]),
            payload_length: read_u32(header.as_slice(), 1),
        }
    }
}

impl View for UnixSocketManager {
    type V = RegistryView;

    closed spec fn view(&self) -> RegistryView {
        RegistryView { records: self.connections@, counter: self.id_counter }
    }
}

impl UnixSocketManager {
    #[verifier::type_invariant]
    spec fn well_formed(&self) -> bool {
        self@.wf()
    }

    /// A registry without endpoints; the first descriptor will be 1.
    pub fn new() -> (manager: UnixSocketManager)
        ensures
            manager@.records == Map::<u32, ClientConnection>::empty(),
            manager@.counter == 0,
            manager@.wf(),
    {
        broadcast use group_hash_axioms;

        UnixSocketManager { connections: HashMap::new(), id_counter: 0 }
    }

    /// Puts `record` under `descriptor`, which has been handed out.
    fn store(&mut self, descriptor: u32, record: ClientConnection)
        requires
            1 <= descriptor <= old(self)@.counter,
        ensures
            final(self)@ == (RegistryView {
                records: old(self)@.records.insert(descriptor, record),
                ..old(self)@
            }),
    {
        broadcast use group_hash_axioms;

        proof {
            use_type_invariant(&*self);
        }
        let mut connections: HashMap<u32, ClientConnection> = HashMap::new();
        core::mem::swap(&mut self.connections, &mut connections);
        connections.insert(descriptor, record);
        self.connections = connections;
    }

    /// Whether a record has the port bound.
    fn port_is_bound(&self, port: u16) -> (bound: bool)
        ensures
            bound == self@.port_bound(port),
    {
        broadcast use group_hash_axioms;

        for entry in entries: self.connections.iter()
            invariant
                entries.seq() == spec_hash_map_iter(&self.connections).remaining(),
                forall|i: int|
                    0 <= i < entries.index() ==> (#[trigger] entries.seq()[i]).1.bound_port
                        != Some(port),
        {
            if let Some(bound_port) = entry.1.bound_port {
                if bound_port == port {
                    proof {
                        let found = entries.seq()[entries.index()];
                        assert(found == entry);
                        assert(self@.records.contains_key(*found.0) && self@.records[*found.0]
                            == *found.1);
                    }
                    return true;
                }
            }
        }
        proof {
            let all = spec_hash_map_iter(&self.connections).remaining();
            if self@.port_bound(port) {
                let descriptor = choose|descriptor: u32|
                    self@.records.contains_key(descriptor) && (
                    #[trigger] self@.records[descriptor]).bound_port == Some(port);
                assert(all.contains((&descriptor, &self@.records[descriptor])));
                let i = choose|i: int|
                    0 <= i < all.len() && all[i] == (&descriptor, &self@.records[descriptor]);
                assert(all[i].1.bound_port == Some(port));
            }
        }
        false
    }

    /// Carries out one message and appends the reply to `response_buffer`.
    ///
    /// SOCKET, BIND and LISTEN change the registry where they succeed; the
    /// other five types are taken and change nothing. A type byte that was
    /// none of the eight changes nothing and is reported.
    pub fn handle_message(
        &mut self,
        message_type: Result<MessageType, ControlError>,
        payload: &[u8],
        response_buffer: &mut Vec<u8>,
    ) -> (result: Result<Option<u32>, ControlError>)
        ensures
            result == old(self)@.message_result(message_type, payload@),
            final(self)@ == old(self)@.after_message(message_type, payload@),
            final(self)@.wf(),
            final(response_buffer)@ == old(response_buffer)@ + reply_to(result),
    {
        let result: Result<Option<u32>, ControlError> = match message_type {
            Ok(MessageType::Listen) => match self.handle_listen_message(payload) {
                Ok(_) => Ok(None),
                Err(error) => Err(error),
            },
            Ok(MessageType::Bind) => match self.handle_bind_message(payload) {
                Ok(_) => Ok(None),
                Err(error) => Err(error),
            },
            Ok(MessageType::Socket) => match self.handle_socket_message(payload) {
                Ok(descriptor) => Ok(Some(descriptor)),
                Err(error) => Err(error),
            },
            Ok(_) => Ok(None),
            Err(error) => Err(error),
        };
        proof {
            use_type_invariant(&*self);
        }
        match result {
            Ok(None) => {
                response_buffer.push(0);
            },
            Ok(Some(descriptor)) => {
                response_buffer.push(0);
                push_u32(response_buffer, descriptor);
            },
            Err(error) => {
                response_buffer.push(error.status());
            },
        }
        assert(response_buffer@ =~= old(response_buffer)@ + reply_to(result));
        result
    }

    /// SOCKET: makes a new endpoint and returns its descriptor, the number
    /// after the last one handed out. The endpoint is created, not bound.
    /// The payload is not read.
    pub fn handle_socket_message(&mut self, payload: &[u8]) -> (result: Result<u32, ControlError>)
        ensures
            result == old(self)@.socket_result(),
            final(self)@ == if result is Ok {
                old(self)@.opened()
            } else {
                old(self)@
            },
            final(self)@.wf(),
    {
        proof {
            use_type_invariant(&*self);
        }
        if self.id_counter == u32::MAX {
            return Err(ControlError::DescriptorsExhausted);
        }
        let unique_fd = self.get_next_unique_fd_id();
        self.store(
            unique_fd,
            ClientConnection { socket_state: SocketState::Created, bound_port: None },
        );
        proof {
            use_type_invariant(&*self);
        }
        Ok(unique_fd)
    }

    /// BIND: binds the endpoint named by the first four bytes of the payload
    /// to the port in the two bytes after them. Fails where any endpoint has
    /// that port bound already, the same endpoint included.
    pub fn handle_bind_message(&mut self, payload: &[u8]) -> (result: Result<(), ControlError>)
        ensures
            result == old(self)@.bind_result(payload@),
            final(self)@ == if result is Ok {
                old(self)@.bound(u32_at(payload@, 0), u16_at(payload@, 4))
            } else {
                old(self)@
            },
            final(self)@.wf(),
    {
        broadcast use group_hash_axioms;

        proof {
            use_type_invariant(&*self);
        }
        if payload.len() < 6 {
            return Err(ControlError::Truncated);
        }
        let unique_fd: u32 = read_u32(payload, 0);
        let desired_port: u16 = read_u16(payload, 4);
        if self.port_is_bound(desired_port) {
            return Err(ControlError::PortInUse);
        }
        if !self.connections.contains_key(&unique_fd) {
            return Err(ControlError::UnknownDescriptor);
        }
        self.store(
            unique_fd,
            ClientConnection { socket_state: SocketState::Bound, bound_port: Some(desired_port) },
        );
        proof {
            use_type_invariant(&*self);
        }
        Ok(())
    }

    /// LISTEN: makes the endpoint named by the first four bytes of the
    /// payload listen.
    pub fn handle_listen_message(&mut self, payload: &[u8]) -> (result: Result<(), ControlError>)
        ensures
            result == old(self)@.listen_result(payload@),
            final(self)@ == if result is Ok {
                old(self)@.listening(u32_at(payload@, 0))
            } else {
                old(self)@
            },
            final(self)@.wf(),
    {
        broadcast use group_hash_axioms;

        proof {
            use_type_invariant(&*self);
        }
        if payload.len() < 4 {
            return Err(ControlError::Truncated);
        }
        let unique_fd: u32 = read_u32(payload, 0);
        let bound_port = match self.connections.get(&unique_fd) {
            Some(connection) => connection.bound_port,
            None => {
                return Err(ControlError::UnknownDescriptor);
            },
        };
        self.store(
            unique_fd,
            ClientConnection { socket_state: SocketState::Listening, bound_port },
        );
        proof {
            use_type_invariant(&*self);
        }
        Ok(())
    }

    /// Hands out the next descriptor: the number after the last one.
    pub fn get_next_unique_fd_id(&mut self) -> (descriptor: u32)
        requires
            old(self)@.counter < u32::MAX,
        ensures
            descriptor == old(self)@.counter + 1,
            final(self)@ == (RegistryView { counter: descriptor, ..old(self)@ }),
    {
        proof {
            use_type_invariant(&*self);
        }
        self.id_counter = self.id_counter + 1;
        self.id_counter
    }

    /// Whether segments for `port` are taken: some endpoint has the port
    /// bound and listens.
    pub fn port_is_open(&self, port: u16) -> (open: bool)
        ensures
            open == self@.port_open(port),
    {
        broadcast use group_hash_axioms;

        for entry in entries: self.connections.iter()
            invariant
                entries.seq() == spec_hash_map_iter(&self.connections).remaining(),
                forall|i: int|
                    0 <= i < entries.index() ==> !((#[trigger] entries.seq()[i]).1.bound_port
                        == Some(port) && entries.seq()[i].1.socket_state
                        == SocketState::Listening),
        {
            let connection = entry.1;
            if let Some(bound_port) = connection.bound_port {
                if bound_port == port && matches!(connection.socket_state, SocketState::Listening) {
                    proof {
                        let found = entries.seq()[entries.index()];
                        assert(found == entry);
                        assert(self@.records.contains_key(*found.0) && self@.records[*found.0]
                            == *found.1);
                    }
                    return true;
                }
            }
        }
        proof {
            let all = spec_hash_map_iter(&self.connections).remaining();
            if self@.port_open(port) {
                let descriptor = choose|descriptor: u32|
                    self@.records.contains_key(descriptor) && (
                    #[trigger] self@.records[descriptor]).bound_port == Some(port)
                        && self@.records[descriptor].socket_state == SocketState::Listening;
                assert(all.contains((&descriptor, &self@.records[descriptor])));
                let i = choose|i: int|
                    0 <= i < all.len() && all[i] == (&descriptor, &self@.records[descriptor]);
                assert(all[i].1.bound_port == Some(port));
            }
        }
        false
    }

    /// The number of endpoints.
    pub fn len(&self) -> (count: usize)
        ensures
            count == self@.records.len(),
    {
        broadcast use group_hash_axioms;

        self.connections.len()
    }

    /// The record of the endpoint with the descriptor, where there is one.
    pub fn get(&self, descriptor: u32) -> (record: Option<ClientConnection>)
        ensures
            record == if self@.knows(descriptor) {
                Some(self@.records[descriptor])
            } else {
                None
            },
    {
        broadcast use group_hash_axioms;

        match self.connections.get(&descriptor) {
            Some(connection) => Some(*connection),
            None => None,
        }
    }
}

/// No message breaks the registry, takes an endpoint away, or turns the
/// counter back.
pub proof fn lemma_message_keeps_registry(
    registry: RegistryView,
    message_type: Result<MessageType, ControlError>,
    payload: Seq<u8>,
)
    requires
        registry.wf(),
    ensures
        registry.after_message(message_type, payload).wf(),
        registry.after_message(message_type, payload).counter >= registry.counter,
        forall|descriptor: u32|
            registry.knows(descriptor) ==> #[trigger] registry.after_message(
                message_type,
                payload,
            ).knows(descriptor),
{
}

/// The same holds of any number of messages.
pub proof fn lemma_messages_keep_registry(registry: RegistryView, messages: Seq<Message>)
    requires
        registry.wf(),
    ensures
        registry.after_messages(messages).wf(),
        registry.after_messages(messages).counter >= registry.counter,
    decreases messages.len(),
{
    if messages.len() > 0 {
        lemma_messages_keep_registry(registry, messages.drop_last());
        lemma_message_keeps_registry(
            registry.after_messages(messages.drop_last()),
            messages.last().message_type,
            messages.last().payload,
        );
    }
}

/// Descriptors are handed out once and in increasing order: the descriptor
/// that SOCKET returns is larger than that of every endpoint there is, and
/// a SOCKET that comes later, whatever messages stand between the two,
/// returns a larger one still.
pub proof fn lemma_descriptors_increase(registry: RegistryView, between: Seq<Message>)
    requires
        registry.wf(),
        registry.socket_result() is Ok,
    ensures
        forall|descriptor: u32| #[trigger]
            registry.knows(descriptor) ==> descriptor < registry.socket_result()->Ok_0,
        registry.opened().after_messages(between).socket_result() matches Ok(later)
            ==> registry.socket_result()->Ok_0 < later,
{
    lemma_message_keeps_registry(registry, Ok(MessageType::Socket), Seq::empty());
    lemma_messages_keep_registry(registry.opened(), between);
}

/// BIND fails where a record has the port bound already, whichever
/// descriptor the message names.
pub proof fn lemma_bind_fails_on_bound_port(registry: RegistryView, payload: Seq<u8>)
    requires
        payload.len() >= 6,
        registry.port_bound(u16_at(payload, 4)),
    ensures
        registry.bind_result(payload) == Err::<(), ControlError>(ControlError::PortInUse),
        registry.after_message(Ok(MessageType::Bind), payload) == registry,
{
}

/// A port that was bound stays bound: after a BIND that succeeded, every
/// further BIND to that port fails.
pub proof fn lemma_bound_port_is_taken(registry: RegistryView, first: Seq<u8>, second: Seq<u8>)
    requires
        registry.bind_result(first) is Ok,
        second.len() >= 6,
        u16_at(second, 4) == u16_at(first, 4),
    ensures
        registry.after_message(Ok(MessageType::Bind), first).bind_result(second) == Err::<
            (),
            ControlError,
        >(ControlError::PortInUse),
{
    let descriptor = u32_at(first, 0);
    let port = u16_at(first, 4);
    let bound = registry.bound(descriptor, port);
    assert(bound.records.contains_key(descriptor) && bound.records[descriptor].bound_port == Some(
        port,
    ));
}

/// A port is open after the endpoint that has it bound was made to listen.
pub proof fn lemma_listening_opens_port(registry: RegistryView, descriptor: u32, port: u16)
    requires
        registry.knows(descriptor),
        registry.records[descriptor].bound_port == Some(port),
    ensures
        registry.listening(descriptor).port_open(port),
{
    let after = registry.listening(descriptor);
    assert(after.records.contains_key(descriptor) && after.records[descriptor].bound_port == Some(
        port,
    ) && after.records[descriptor].socket_state == SocketState::Listening);
}

} // verus!
