use tachyon::connection::Identity;
use tachyon::endpoint::{
    Tachyon, TachyonConfig, SEND_ERROR_CHANNEL, SEND_ERROR_IDENTITY, SEND_ERROR_LENGTH,
    SEND_ERROR_SOCKET,
};
use tachyon::header::MESSAGE_TYPE_RELIABLE;
use tachyon::network_address::NetworkAddress;
use tachyon::receive_result::ReceiveResult;

#[test]
fn test_connect() {
    let address = NetworkAddress::localhost(100);
    let changed_address = NetworkAddress::localhost(200);

    let config = TachyonConfig::default();
    let mut server = Tachyon::create(config);
    server.set_identity(1, 10);

    assert!(!server.try_link_identity(address, 1, 11, 0).0);

    assert!(server.try_link_identity(address, 1, 10, 0).0);
    assert!(server.get_connection(address).is_some());
    assert_eq!(2, server.get_channel_count(address));

    // connect when connected is valid
    assert!(server.try_link_identity(address, 1, 10, 0).0);
    assert!(server.get_connection(address).is_some());
    assert_eq!(2, server.get_channel_count(address));

    // connect with new address wipes out old connection
    assert!(server.try_link_identity(changed_address, 1, 10, 0).0);
    assert!(server.get_connection(changed_address).is_some());
    assert_eq!(2, server.get_channel_count(changed_address));

    assert!(server.get_connection(address).is_none());
    assert_eq!(0, server.get_channel_count(address));
}

#[test]
fn test_disconnect() {
    let address = NetworkAddress::localhost(100);

    let config = TachyonConfig::default();
    let mut server = Tachyon::create(config);
    server.set_identity(1, 10);
    server.try_link_identity(address, 1, 10, 0);

    assert!(!server.try_unlink_identity(address, 1, 11).0);

    assert!(server.try_unlink_identity(address, 1, 10).0);
    assert!(server.get_connection(address).is_none());
    assert_eq!(0, server.get_channel_count(address));
}

#[test]
fn test_validate_and_update_connection() {
    let address = NetworkAddress::localhost(100);

    let config = TachyonConfig::default();
    let mut server = Tachyon::create(config);
    server.set_identity(1, 10);

    assert!(!server.validate_and_update_linked_connection(address, 0));

    server.try_link_identity(address, 1, 10, 0);
    assert!(server.validate_and_update_linked_connection(address, 0));
}

#[test]
fn test_can_send() {
    let mut config = TachyonConfig::default();
    config.use_identity = 1;
    let mut tach = Tachyon::create(config);
    tach.is_server = true;
    assert!(tach.can_send());

    tach.is_server = false;
    assert!(!tach.can_send());
    tach.identity.linked = 1;
    assert!(tach.can_send());
}

#[test]
fn identity_gating_blocks_sends() {
    // a client under identity gating cannot send until the link with the
    // right session succeeds; the server refuses the wrong session
    let client_seen_by_server = NetworkAddress::localhost(300);
    let mut server_config = TachyonConfig::default();
    server_config.use_identity = 1;
    let mut server = Tachyon::create(server_config);
    server.is_server = true;
    server.has_socket = true;
    server.set_identity(1, 10);

    let mut client_config = TachyonConfig::default();
    client_config.use_identity = 1;
    let mut client = Tachyon::create(client_config);
    client.has_socket = true;
    client.identity = Identity { id: 1, session_id: 11, linked: 0 };

    let body: Vec<u8> = vec![1, 2];
    let (result, _) = client.send_reliable(1, NetworkAddress::default(), &body, 2, 0);
    assert_eq!(SEND_ERROR_IDENTITY, result.error);

    // link attempt with session 11 is refused
    let link = client.client_identity_update(400).unwrap();
    let (outcome, replies) = server.handle_datagram(client_seen_by_server, &link.data, link.data.len(), 0);
    assert!(matches!(outcome, ReceiveResult::Empty));
    assert_eq!(0, replies.len());
    assert!(!client.identity.is_linked());

    // with the right session the link goes through and sending works
    client.identity.session_id = 10;
    let link = client.client_identity_update(900).unwrap();
    let (_, replies) = server.handle_datagram(client_seen_by_server, &link.data, link.data.len(), 0);
    assert_eq!(1, replies.len());
    let reply = &replies[0];
    client.handle_datagram(NetworkAddress::default(), &reply.data, reply.data.len(), 0);
    assert!(client.identity.is_linked());

    client.create_connection(NetworkAddress::default(), Identity::default(), 0);
    let (result, datagrams) = client.send_reliable(1, NetworkAddress::default(), &body, 2, 0);
    assert_eq!(0, result.error);
    assert_eq!(1, datagrams.len());
}

#[test]
fn reliable_message_end_to_end() {
    // a client frames a two-byte body; the server's dispatcher admits it
    // and hands the body back through the published queue
    let client_addr = NetworkAddress::localhost(500);
    let mut server = Tachyon::create(TachyonConfig::default());
    server.is_server = true;
    server.has_socket = true;
    let mut client = Tachyon::create(TachyonConfig::default());
    client.has_socket = true;
    client.create_connection(NetworkAddress::default(), Identity::default(), 0);

    let mut body: Vec<u8> = vec![0; 64];
    body[0] = 4;
    let (result, datagrams) = client.send_reliable(1, NetworkAddress::default(), &body, 2, 0);
    assert_eq!(0, result.error);
    assert_eq!(2 + 4, result.sent_len);
    assert_eq!(1, datagrams.len());

    let wire = &datagrams[0];
    let (outcome, _) = server.handle_datagram(client_addr, &wire.data, wire.data.len(), 0);
    match outcome {
        ReceiveResult::Reliable { network_address, channel_id } => {
            assert_eq!(client_addr, network_address);
            assert_eq!(1, channel_id);
        },
        _ => panic!("expected a reliable delivery"),
    }

    let mut receive_buffer: Vec<u8> = vec![0; 4096];
    let res = server.receive_published_all_channels(&mut receive_buffer);
    assert_eq!(2, res.length);
    assert_eq!(4, receive_buffer[0]);
    assert_eq!(client_addr, res.address);
}

#[test]
fn fragmented_send_end_to_end() {
    // a 3497-byte body crosses as three fragments and reassembles exactly
    let client_addr = NetworkAddress::localhost(501);
    let mut server = Tachyon::create(TachyonConfig::default());
    server.is_server = true;
    server.has_socket = true;
    let mut client = Tachyon::create(TachyonConfig::default());
    client.has_socket = true;
    client.create_connection(NetworkAddress::default(), Identity::default(), 0);

    let body: Vec<u8> = (0..3497u32).map(|i| (i % 249) as u8).collect();
    let (result, datagrams) = client.send_reliable(2, NetworkAddress::default(), &body, 3497, 0);
    assert_eq!(0, result.error);
    assert_eq!(3, datagrams.len());

    for wire in &datagrams {
        server.handle_datagram(client_addr, &wire.data, wire.data.len(), 0);
    }
    let mut receive_buffer: Vec<u8> = vec![0; 8192];
    let res = server.receive_published_all_channels(&mut receive_buffer);
    assert_eq!(3497, res.length);
    assert_eq!(&receive_buffer[0..3497], &body[..]);
}

#[test]
fn unreliable_send_checks_length() {
    let mut client = Tachyon::create(TachyonConfig::default());
    client.has_socket = true;
    let body: Vec<u8> = vec![3, 4, 5, 6];
    let (result, datagram) = client.send_unreliable(NetworkAddress::default(), &body, 0);
    assert_eq!(SEND_ERROR_LENGTH, result.error);
    assert!(datagram.is_none());

    let (result, datagram) = client.send_unreliable(NetworkAddress::default(), &body, 4);
    assert_eq!(0, result.error);
    assert_eq!(5, result.sent_len);
    let datagram = datagram.unwrap();
    assert_eq!(5, datagram.data.len());
    assert_eq!(0, datagram.data[0]);
    assert_eq!(&datagram.data[1..5], &[3, 4, 5, 6]);
}

#[test]
fn unconfigured_channel_is_refused() {
    let mut client = Tachyon::create(TachyonConfig::default());
    client.has_socket = true;
    client.create_connection(NetworkAddress::default(), Identity::default(), 0);
    let body: Vec<u8> = vec![1];
    let (result, _) = client.send_reliable(3, NetworkAddress::default(), &body, 1, 0);
    assert_eq!(SEND_ERROR_CHANNEL, result.error);

    // configuring channel 3 before connecting makes it available
    let mut client2 = Tachyon::create(TachyonConfig::default());
    client2.has_socket = true;
    client2.configure_channel(3, tachyon::channel::ChannelConfig::default_ordered());
    client2.create_connection(NetworkAddress::default(), Identity::default(), 0);
    let (result, _) = client2.send_reliable(3, NetworkAddress::default(), &body, 1, 0);
    assert_eq!(0, result.error);

    // reserved ids cannot be configured
    assert!(!client2.configure_channel(2, tachyon::channel::ChannelConfig::default_ordered()));
}

#[test]
fn loss_and_recovery_over_lossy_wire() {
    // drop a slice of the reliable frames on the way in; the receiver nacks
    // the gaps, the sender answers from its retained buffers, and the
    // ordered channel ends up complete with no duplicates
    let client_addr = NetworkAddress::localhost(502);
    let mut server = Tachyon::create(TachyonConfig::default());
    server.is_server = true;
    server.has_socket = true;
    let mut client = Tachyon::create(TachyonConfig::default());
    client.has_socket = true;
    client.create_connection(NetworkAddress::default(), Identity::default(), 0);

    let total: u32 = 30;
    let mut delivered = 0u32;
    for i in 0..total {
        let mut body: Vec<u8> = vec![0; 32];
        body[0] = (i % 256) as u8;
        let (result, datagrams) = client.send_reliable(1, NetworkAddress::default(), &body, 32, 0);
        assert_eq!(0, result.error);
        // drop every seventh frame
        if i % 7 != 3 {
            for wire in &datagrams {
                server.handle_datagram(client_addr, &wire.data, wire.data.len(), 0);
            }
            delivered += 1;
        }
    }
    assert!(delivered < total);

    // a few nack/resend rounds recover the gaps
    for _ in 0..8 {
        let from_server = server.update(0);
        for wire in &from_server {
            if wire.data[0] == tachyon::header::MESSAGE_TYPE_NACK {
                client.handle_datagram(NetworkAddress::default(), &wire.data, wire.data.len(), 0);
            }
        }
        let from_client = client.update(0);
        for wire in &from_client {
            if wire.data[0] == MESSAGE_TYPE_RELIABLE
                || wire.data[0] == tachyon::header::MESSAGE_TYPE_NONE
            {
                server.handle_datagram(client_addr, &wire.data, wire.data.len(), 0);
            }
        }
    }

    let mut receive_buffer: Vec<u8> = vec![0; 4096];
    let mut published: Vec<u8> = Vec::new();
    loop {
        let res = server.receive_published_all_channels(&mut receive_buffer);
        if res.length == 0 {
            break;
        }
        published.push(receive_buffer[0]);
    }
    assert_eq!(total as usize, published.len());
    for (i, tag) in published.iter().enumerate() {
        assert_eq!((i % 256) as u8, *tag);
    }
}

#[test]
fn test_link_flow() {
    let client_seen_by_server = NetworkAddress::localhost(310);
    let mut server_config = TachyonConfig::default();
    server_config.use_identity = 1;
    let mut server = Tachyon::create(server_config);
    server.is_server = true;
    server.has_socket = true;

    let mut client_config = TachyonConfig::default();
    client_config.use_identity = 1;
    let mut client = Tachyon::create(client_config);
    client.has_socket = true;
    client.identity = Identity { id: 1, session_id: 11, linked: 0 };

    // linked once the server registers the matching session
    server.set_identity(1, 11);
    let link = client.client_identity_update(400).unwrap();
    let (_, replies) = server.handle_datagram(client_seen_by_server, &link.data, link.data.len(), 0);
    for reply in &replies {
        client.handle_datagram(NetworkAddress::default(), &reply.data, reply.data.len(), 0);
    }
    assert!(client.identity.is_linked());

    // unlinked again on request
    let unlink = client.send_unlink_identity(client.identity.id, client.identity.session_id);
    let (_, replies) =
        server.handle_datagram(client_seen_by_server, &unlink.data, unlink.data.len(), 0);
    for reply in &replies {
        client.handle_datagram(NetworkAddress::default(), &reply.data, reply.data.len(), 0);
    }
    assert!(!client.identity.is_linked());
}

#[test]
fn test_link_fail_flow() {
    let client_seen_by_server = NetworkAddress::localhost(311);
    let mut server_config = TachyonConfig::default();
    server_config.use_identity = 1;
    let mut server = Tachyon::create(server_config);
    server.is_server = true;
    server.has_socket = true;
    server.set_identity(1, 10);

    let mut client_config = TachyonConfig::default();
    client_config.use_identity = 1;
    let mut client = Tachyon::create(client_config);
    client.has_socket = true;
    client.identity = Identity { id: 1, session_id: 11, linked: 0 };

    // link fails: bad session id
    let link = client.client_identity_update(400).unwrap();
    let (_, replies) = server.handle_datagram(client_seen_by_server, &link.data, link.data.len(), 0);
    for reply in &replies {
        client.handle_datagram(NetworkAddress::default(), &reply.data, reply.data.len(), 0);
    }
    assert!(!client.identity.is_linked());
}

#[test]
fn send_without_socket_reports_socket_error() {
    let mut client = Tachyon::create(TachyonConfig::default());
    client.create_connection(NetworkAddress::default(), Identity::default(), 0);
    let body: Vec<u8> = vec![1];
    let (result, _) = client.send_reliable(1, NetworkAddress::default(), &body, 1, 0);
    assert_eq!(SEND_ERROR_SOCKET, result.error);
}

#[test]
fn unknown_channel_and_type_are_classified() {
    let peer = NetworkAddress::localhost(600);
    let mut server = Tachyon::create(TachyonConfig::default());
    server.is_server = true;
    server.has_socket = true;

    // a reliable frame for a channel the peer does not have
    let mut frame: Vec<u8> = vec![0; 8];
    frame[0] = MESSAGE_TYPE_RELIABLE;
    frame[1] = 9;
    let (outcome, _) = server.handle_datagram(peer, &frame, 8, 0);
    assert!(matches!(outcome, ReceiveResult::ChannelError));

    // an unknown message type on a known channel
    let mut frame: Vec<u8> = vec![0; 8];
    frame[0] = 200;
    frame[1] = 1;
    let (outcome, _) = server.handle_datagram(peer, &frame, 8, 0);
    assert!(matches!(outcome, ReceiveResult::Error));

    // a runt datagram
    let frame: Vec<u8> = vec![1; 2];
    let (outcome, _) = server.handle_datagram(peer, &frame, 2, 0);
    assert!(matches!(outcome, ReceiveResult::Error));
}
