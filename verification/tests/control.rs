use tcpstack::unixsocket::{
    ControlError, MessageHeader, MessageType, SocketState, UnixSocketManager,
};

fn socket(manager: &mut UnixSocketManager) -> u32 {
    let mut reply = Vec::new();
    manager.handle_message(Ok(MessageType::Socket), &[], &mut reply).unwrap().unwrap()
}

fn bind_payload(descriptor: u32, port: u16) -> Vec<u8> {
    let mut payload = descriptor.to_be_bytes().to_vec();
    payload.extend_from_slice(&port.to_be_bytes());
    payload
}

fn bind(manager: &mut UnixSocketManager, descriptor: u32, port: u16) -> Result<(), ControlError> {
    manager.handle_bind_message(&bind_payload(descriptor, port))
}

fn listen(manager: &mut UnixSocketManager, descriptor: u32) -> Result<(), ControlError> {
    manager.handle_listen_message(&descriptor.to_be_bytes())
}

#[test]
fn message_type_from_byte_knows_eight_types() {
    assert_eq!(MessageType::from_byte(1), Ok(MessageType::Connect));
    assert_eq!(MessageType::from_byte(2), Ok(MessageType::Send));
    assert_eq!(MessageType::from_byte(3), Ok(MessageType::Receive));
    assert_eq!(MessageType::from_byte(4), Ok(MessageType::Close));
    assert_eq!(MessageType::from_byte(5), Ok(MessageType::Accept));
    assert_eq!(MessageType::from_byte(6), Ok(MessageType::Listen));
    assert_eq!(MessageType::from_byte(7), Ok(MessageType::Bind));
    assert_eq!(MessageType::from_byte(8), Ok(MessageType::Socket));
}

#[test]
fn message_type_from_byte_rejects_the_rest() {
    assert_eq!(MessageType::from_byte(0), Err(ControlError::InvalidMessageType));
    for byte in 9..=255u8 {
        assert_eq!(MessageType::from_byte(byte), Err(ControlError::InvalidMessageType));
    }
}

#[test]
fn message_header_is_type_and_big_endian_length() {
    let header = MessageHeader::parse(&[7, 0x00, 0x00, 0x01, 0x06]);
    assert_eq!(header.message_type, Ok(MessageType::Bind));
    assert_eq!(header.payload_length, 0x106);
    let header = MessageHeader::parse(&[8, 0x12, 0x34, 0x56, 0x78]);
    assert_eq!(header.message_type, Ok(MessageType::Socket));
    assert_eq!(header.payload_length, 0x12345678);
    let header = MessageHeader::parse(&[99, 0, 0, 0, 0]);
    assert_eq!(header.message_type, Err(ControlError::InvalidMessageType));
    assert_eq!(header.payload_length, 0);
}

#[test]
fn error_status_bytes_are_distinct_and_nonzero() {
    assert_eq!(ControlError::UnknownDescriptor.status(), 1);
    assert_eq!(ControlError::PortInUse.status(), 2);
    assert_eq!(ControlError::InvalidMessageType.status(), 3);
    assert_eq!(ControlError::Truncated.status(), 4);
    assert_eq!(ControlError::DescriptorsExhausted.status(), 5);
}

#[test]
fn new_registry_is_empty() {
    let manager = UnixSocketManager::new();
    assert_eq!(manager.len(), 0);
    assert!(manager.get(1).is_none());
    assert!(!manager.port_is_open(0));
    assert!(!manager.port_is_open(9000));
}

#[test]
fn socket_descriptors_start_at_one_and_increase() {
    let mut manager = UnixSocketManager::new();
    assert_eq!(manager.handle_socket_message(&[]), Ok(1));
    assert_eq!(manager.handle_socket_message(&[1, 2, 3]), Ok(2));
    bind(&mut manager, 1, 80).unwrap();
    listen(&mut manager, 1).unwrap();
    assert_eq!(bind(&mut manager, 9, 81), Err(ControlError::UnknownDescriptor));
    assert_eq!(manager.handle_socket_message(&[]), Ok(3));
    let mut last = 3;
    for _ in 0..100 {
        let next = socket(&mut manager);
        assert!(next > last);
        last = next;
    }
    assert_eq!(manager.len(), 103);
}

#[test]
fn get_next_unique_fd_id_counts_up() {
    let mut manager = UnixSocketManager::new();
    assert_eq!(manager.get_next_unique_fd_id(), 1);
    assert_eq!(manager.get_next_unique_fd_id(), 2);
    assert_eq!(manager.len(), 0);
    assert_eq!(manager.handle_socket_message(&[]), Ok(3));
}

#[test]
fn socket_makes_a_created_endpoint_without_port() {
    let mut manager = UnixSocketManager::new();
    let descriptor = socket(&mut manager);
    let record = manager.get(descriptor).unwrap();
    assert_eq!(record.socket_state, SocketState::Created);
    assert_eq!(record.bound_port, None);
}

#[test]
fn bind_sets_port_and_state() {
    let mut manager = UnixSocketManager::new();
    let first = socket(&mut manager);
    let second = socket(&mut manager);
    assert_eq!(bind(&mut manager, second, 9000), Ok(()));
    let record = manager.get(second).unwrap();
    assert_eq!(record.socket_state, SocketState::Bound);
    assert_eq!(record.bound_port, Some(9000));
    let untouched = manager.get(first).unwrap();
    assert_eq!(untouched.socket_state, SocketState::Created);
    assert_eq!(untouched.bound_port, None);
    assert!(!manager.port_is_open(9000));
}

#[test]
fn bind_collision_fails() {
    let mut manager = UnixSocketManager::new();
    assert_eq!(socket(&mut manager), 1);
    assert_eq!(socket(&mut manager), 2);
    assert_eq!(bind(&mut manager, 1, 80), Ok(()));
    assert_eq!(bind(&mut manager, 2, 80), Err(ControlError::PortInUse));
    let second = manager.get(2).unwrap();
    assert_eq!(second.socket_state, SocketState::Created);
    assert_eq!(second.bound_port, None);
    assert_eq!(bind(&mut manager, 2, 81), Ok(()));
}

#[test]
fn bind_fails_on_port_bound_by_the_same_endpoint() {
    let mut manager = UnixSocketManager::new();
    let descriptor = socket(&mut manager);
    assert_eq!(bind(&mut manager, descriptor, 80), Ok(()));
    assert_eq!(bind(&mut manager, descriptor, 80), Err(ControlError::PortInUse));
}

#[test]
fn bind_reports_collision_before_unknown_descriptor() {
    let mut manager = UnixSocketManager::new();
    let descriptor = socket(&mut manager);
    bind(&mut manager, descriptor, 80).unwrap();
    assert_eq!(bind(&mut manager, 77, 80), Err(ControlError::PortInUse));
    assert_eq!(bind(&mut manager, 77, 81), Err(ControlError::UnknownDescriptor));
}

#[test]
fn bind_rejects_short_payload() {
    let mut manager = UnixSocketManager::new();
    socket(&mut manager);
    assert_eq!(manager.handle_bind_message(&[0, 0, 0, 1, 0]), Err(ControlError::Truncated));
    assert_eq!(manager.handle_bind_message(&[]), Err(ControlError::Truncated));
    assert_eq!(manager.get(1).unwrap().bound_port, None);
}

#[test]
fn bind_moves_endpoint_to_another_port() {
    let mut manager = UnixSocketManager::new();
    let descriptor = socket(&mut manager);
    bind(&mut manager, descriptor, 80).unwrap();
    listen(&mut manager, descriptor).unwrap();
    assert!(manager.port_is_open(80));
    assert_eq!(bind(&mut manager, descriptor, 81), Ok(()));
    let record = manager.get(descriptor).unwrap();
    assert_eq!(record.socket_state, SocketState::Bound);
    assert_eq!(record.bound_port, Some(81));
    assert!(!manager.port_is_open(80));
    assert!(!manager.port_is_open(81));
}

#[test]
fn listen_sets_state() {
    let mut manager = UnixSocketManager::new();
    let descriptor = socket(&mut manager);
    bind(&mut manager, descriptor, 9000).unwrap();
    assert_eq!(listen(&mut manager, descriptor), Ok(()));
    let record = manager.get(descriptor).unwrap();
    assert_eq!(record.socket_state, SocketState::Listening);
    assert_eq!(record.bound_port, Some(9000));
}

#[test]
fn listen_fails_on_unknown_descriptor() {
    let mut manager = UnixSocketManager::new();
    assert_eq!(listen(&mut manager, 1), Err(ControlError::UnknownDescriptor));
    socket(&mut manager);
    assert_eq!(listen(&mut manager, 2), Err(ControlError::UnknownDescriptor));
    assert_eq!(listen(&mut manager, 0), Err(ControlError::UnknownDescriptor));
}

#[test]
fn listen_rejects_short_payload() {
    let mut manager = UnixSocketManager::new();
    socket(&mut manager);
    assert_eq!(manager.handle_listen_message(&[0, 0, 1]), Err(ControlError::Truncated));
    assert_eq!(manager.get(1).unwrap().socket_state, SocketState::Created);
}

#[test]
fn port_is_open_needs_port_and_listening() {
    let mut manager = UnixSocketManager::new();
    let bound_only = socket(&mut manager);
    let listening_only = socket(&mut manager);
    let both = socket(&mut manager);
    bind(&mut manager, bound_only, 8000).unwrap();
    listen(&mut manager, listening_only).unwrap();
    bind(&mut manager, both, 9000).unwrap();
    assert!(!manager.port_is_open(9000));
    listen(&mut manager, both).unwrap();
    assert!(manager.port_is_open(9000));
    assert!(!manager.port_is_open(8000));
    assert!(!manager.port_is_open(9001));
    assert!(!manager.port_is_open(0));
}

#[test]
fn handle_message_replies_with_status_and_descriptor() {
    let mut manager = UnixSocketManager::new();
    let mut reply = vec![0xAA];
    assert_eq!(manager.handle_message(Ok(MessageType::Socket), &[], &mut reply), Ok(Some(1)));
    assert_eq!(reply, vec![0xAA, 0, 0, 0, 0, 1]);

    let mut reply = Vec::new();
    assert_eq!(
        manager.handle_message(Ok(MessageType::Bind), &bind_payload(1, 9000), &mut reply),
        Ok(None)
    );
    assert_eq!(reply, vec![0]);

    let mut reply = Vec::new();
    assert_eq!(
        manager.handle_message(Ok(MessageType::Listen), &[0, 0, 0, 1], &mut reply),
        Ok(None)
    );
    assert_eq!(reply, vec![0]);
    assert!(manager.port_is_open(9000));
}

#[test]
fn handle_message_replies_with_error_status() {
    let mut manager = UnixSocketManager::new();
    socket(&mut manager);
    socket(&mut manager);
    bind(&mut manager, 1, 80).unwrap();

    let mut reply = Vec::new();
    assert_eq!(
        manager.handle_message(Ok(MessageType::Bind), &bind_payload(2, 80), &mut reply),
        Err(ControlError::PortInUse)
    );
    assert_eq!(reply, vec![2]);

    let mut reply = Vec::new();
    assert_eq!(
        manager.handle_message(Ok(MessageType::Listen), &[0, 0, 0, 9], &mut reply),
        Err(ControlError::UnknownDescriptor)
    );
    assert_eq!(reply, vec![1]);

    let mut reply = Vec::new();
    assert_eq!(
        manager.handle_message(Ok(MessageType::Bind), &[0, 0], &mut reply),
        Err(ControlError::Truncated)
    );
    assert_eq!(reply, vec![4]);

    let mut reply = Vec::new();
    assert_eq!(
        manager.handle_message(MessageType::from_byte(200), &[1, 2, 3], &mut reply),
        Err(ControlError::InvalidMessageType)
    );
    assert_eq!(reply, vec![3]);
    assert_eq!(manager.len(), 2);
}

#[test]
fn handle_message_takes_other_types_without_change() {
    let mut manager = UnixSocketManager::new();
    socket(&mut manager);
    bind(&mut manager, 1, 80).unwrap();
    for message_type in [
        MessageType::Connect,
        MessageType::Send,
        MessageType::Receive,
        MessageType::Close,
        MessageType::Accept,
    ] {
        let mut reply = Vec::new();
        assert_eq!(manager.handle_message(Ok(message_type), &[0, 0, 0, 1], &mut reply), Ok(None));
        assert_eq!(reply, vec![0]);
    }
    assert_eq!(manager.len(), 1);
    let record = manager.get(1).unwrap();
    assert_eq!(record.socket_state, SocketState::Bound);
    assert_eq!(record.bound_port, Some(80));
    assert_eq!(socket(&mut manager), 2);
}

#[test]
fn socket_fails_when_descriptors_are_exhausted() {
    let mut manager = UnixSocketManager::new();
    let mut last = 0;
    while last < u32::MAX {
        last = manager.get_next_unique_fd_id();
    }
    assert_eq!(manager.handle_socket_message(&[]), Err(ControlError::DescriptorsExhausted));
    let mut reply = Vec::new();
    assert_eq!(
        manager.handle_message(Ok(MessageType::Socket), &[], &mut reply),
        Err(ControlError::DescriptorsExhausted)
    );
    assert_eq!(reply, vec![5]);
    assert_eq!(manager.len(), 0);
}
