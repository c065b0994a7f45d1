use tachyon::buffer_pool::BYTE_BUFFER_SIZE_DEFAULT;
use tachyon::channel::{Channel, ChannelConfig};
use tachyon::fragmentation::Fragmentation;
use tachyon::header::{
    Header, MESSAGE_TYPE_FRAGMENT, MESSAGE_TYPE_NONE, MESSAGE_TYPE_RELIABLE,
    MESSAGE_TYPE_RELIABLE_WITH_NACK,
};
use tachyon::nack::Nack;
use tachyon::network_address::NetworkAddress;
use tachyon::send_buffer_manager::SendBufferManager;

#[test]
fn test_create_buffer() {
    let mut manager = SendBufferManager::default();
    let sequence = manager.create_send_buffer(BYTE_BUFFER_SIZE_DEFAULT, 0).unwrap();
    let buffer = manager.buffers.get(sequence).unwrap();
    assert!(buffer.byte_buffer.pooled);

    let sequence = manager.create_send_buffer(BYTE_BUFFER_SIZE_DEFAULT + 1, 0).unwrap();
    let buffer = manager.buffers.get(sequence).unwrap();
    assert!(!buffer.byte_buffer.pooled);
}

#[test]
fn test_reused_buffer() {
    let mut manager = SendBufferManager::default();
    manager.current_sequence = 10;
    let sequence = manager.create_send_buffer(BYTE_BUFFER_SIZE_DEFAULT, 0).unwrap();
    let buffer = manager.buffers.get(sequence).unwrap();
    assert_eq!(11, buffer.sequence);
    assert_eq!(0, buffer.byte_buffer.version);

    // should get back same byte buffer with same version and new length
    manager.current_sequence = 10;
    let sequence = manager.create_send_buffer(BYTE_BUFFER_SIZE_DEFAULT - 1, 0).unwrap();
    let buffer = manager.buffers.get(sequence).unwrap();
    assert_eq!(11, buffer.sequence);
    assert_eq!(0, buffer.byte_buffer.version);
    assert!(buffer.byte_buffer.pooled);
    assert_eq!(BYTE_BUFFER_SIZE_DEFAULT - 1, buffer.byte_buffer.length);

    // should get new byte buffer
    manager.current_sequence = 10;
    let sequence = manager.create_send_buffer(BYTE_BUFFER_SIZE_DEFAULT + 10, 0).unwrap();
    let buffer = manager.buffers.get(sequence).unwrap();
    assert_eq!(11, buffer.sequence);
    assert_eq!(0, buffer.byte_buffer.version);
    assert!(!buffer.byte_buffer.pooled);
    assert_eq!(BYTE_BUFFER_SIZE_DEFAULT + 10, buffer.byte_buffer.length);
}

#[test]
fn test_expire() {
    let mut buffers = SendBufferManager::default();
    let sequence = buffers.create_send_buffer(32, 0).unwrap();

    assert!(buffers.buffers.is_some(sequence));
    // six seconds later the sweep reclaims it
    buffers.expire(6000);
    assert!(!buffers.buffers.is_some(sequence));
}

#[test]
fn frag_test_expire() {
    let mut frag = Fragmentation::default();
    frag.received_at.push((1, 10000));
    frag.expire_groups(10000);
    assert!(frag.group_seen_at(1).is_some());
    assert_eq!(1, frag.received_at.len());

    // a group first seen six seconds ago is dropped
    frag.received_at.push((2, 4000));
    frag.expire_groups(10000);
    assert!(frag.group_seen_at(2).is_none());
    assert_eq!(1, frag.received_at.len());
}

#[test]
fn test_create() {
    let mut frag = Fragmentation::default();
    let mut sender = SendBufferManager::default();

    let data: Vec<u8> = vec![0; 1400];
    assert_eq!(1400, data.len());

    let result = frag.create_fragments(&mut sender, 1, &data, data.len(), 0);
    assert_eq!(2, result.len());
    let buffer = sender.buffers.get(result[0]).unwrap();
    assert_eq!(1210, buffer.byte_buffer.length);
    let header = Header::read_fragmented(buffer.byte_buffer.get());
    assert_eq!(MESSAGE_TYPE_FRAGMENT, header.message_type);
    assert_eq!(1, header.sequence);
    assert_eq!(1, header.fragment_start_sequence);
    assert_eq!(2, header.fragment_count);

    let buffer = sender.buffers.get(result[1]).unwrap();
    assert_eq!(210, buffer.byte_buffer.length);

    let header = Header::read_fragmented(buffer.byte_buffer.get());
    assert_eq!(MESSAGE_TYPE_FRAGMENT, header.message_type);
    assert_eq!(2, header.sequence);
}

#[test]
fn test_receive() {
    let mut frag = Fragmentation::default();
    let mut sender = SendBufferManager::default();

    let data: Vec<u8> = vec![3; 2500];
    let created = frag.create_fragments(&mut sender, 1, &data, data.len(), 0);
    let send_buffer = sender.buffers.get(created[0]).unwrap();
    let bytes = send_buffer.byte_buffer.get().clone();
    let complete = frag.receive_fragment(&bytes, send_buffer.byte_buffer.length, 0);
    assert!(!complete.1);

    let send_buffer = sender.buffers.get(created[1]).unwrap();
    let bytes = send_buffer.byte_buffer.get().clone();
    let complete = frag.receive_fragment(&bytes, send_buffer.byte_buffer.length, 0);
    assert!(!complete.1);

    let send_buffer = sender.buffers.get(created[2]).unwrap();
    let bytes = send_buffer.byte_buffer.get().clone();
    let complete = frag.receive_fragment(&bytes, send_buffer.byte_buffer.length, 0);
    assert!(complete.1);

    let header = Header::read_fragmented(&bytes);
    let assembled = frag.assemble(header);
    assert!(assembled.is_ok());
    let assembled_data = assembled.unwrap();
    assert_eq!(2500, assembled_data.len());

    for i in 0..assembled_data.len() {
        assert_eq!(3, assembled_data[i]);
    }
}

#[test]
fn fragment_round_trip_any_order() {
    // a 3497-byte body survives fragmentation, out-of-order arrival and
    // reassembly byte for byte
    let mut frag = Fragmentation::default();
    let mut sender = SendBufferManager::default();
    let data: Vec<u8> = (0..3497u32).map(|i| (i % 251) as u8).collect();
    let created = frag.create_fragments(&mut sender, 2, &data, data.len(), 0);
    assert_eq!(3, created.len());

    let frames: Vec<(Vec<u8>, usize)> = created
        .iter()
        .map(|seq| {
            let sb = sender.buffers.get(*seq).unwrap();
            (sb.byte_buffer.get().clone(), sb.byte_buffer.length)
        })
        .collect();
    // deliver in a shuffled order
    for idx in [2usize, 0, 1] {
        let accepted = frag.receive_fragment(&frames[idx].0, frames[idx].1, 0);
        assert!(accepted.0);
    }
    let header = Header::read_fragmented(&frames[0].0);
    let assembled = frag.assemble(header).unwrap();
    assert_eq!(data, assembled);
}

#[test]
fn test_rewrite_nack_to_reliable() {
    let mut channel = Channel::create(1, NetworkAddress::default(), ChannelConfig::default_ordered());
    let mut send_buffer: Vec<u8> = vec![0; 1200];
    let mut header = Header::default();
    header.message_type = MESSAGE_TYPE_RELIABLE_WITH_NACK;
    header.channel = 13;
    header.sequence = 200;
    header.start_sequence = 12345;
    header.flags = 99;
    header.write(&mut send_buffer);
    send_buffer[10] = 3;
    send_buffer[1199] = 7;
    let send_len =
        Channel::rewrite_reliable_nack_to_reliable(&mut channel.resend_rewrite_buffer, &send_buffer);
    assert_eq!(1200 - 6, send_len);
    assert_eq!(3, channel.resend_rewrite_buffer[4]);
    assert_eq!(7, channel.resend_rewrite_buffer[1199 - 6]);

    let header = Header::read(&channel.resend_rewrite_buffer);
    assert_eq!(MESSAGE_TYPE_RELIABLE, header.message_type);
    assert_eq!(200, header.sequence);
    assert_eq!(13, header.channel);

    assert_eq!(0, header.start_sequence);
    assert_eq!(0, header.flags);
}

#[test]
fn piggyback_respects_redundancy() {
    // a pending NACK is piggybacked at most nack_redundancy times, then
    // leaves the queue
    let mut config = ChannelConfig::default_ordered();
    config.nack_redundancy = 2;
    let mut channel = Channel::create(1, NetworkAddress::default(), config);
    let mut nack = Nack::default();
    nack.start_sequence = 50;
    channel.receiver.nack_queue.push_back(nack);

    let first = channel.next_piggyback().unwrap();
    assert_eq!(50, first.start_sequence);
    assert_eq!(1, first.sent_count);
    assert_eq!(1, channel.receiver.nack_queue.len());

    let second = channel.next_piggyback().unwrap();
    assert_eq!(2, second.sent_count);
    assert_eq!(0, channel.receiver.nack_queue.len());

    assert!(channel.next_piggyback().is_none());
}

#[test]
fn send_reliable_frames_payload() {
    let mut channel = Channel::create(1, NetworkAddress::default(), ChannelConfig::default_ordered());
    let body: Vec<u8> = vec![4, 0];
    let (result, datagram) = channel.send_reliable(NetworkAddress::default(), &body, 2, 0);
    assert_eq!(0, result.error);
    assert_eq!(2 + 4, result.sent_len);
    assert_eq!(MESSAGE_TYPE_RELIABLE, result.header.message_type);
    assert_eq!(1, result.header.sequence);
    assert_eq!(datagram.data.len(), 6);
    assert_eq!(datagram.data[0], MESSAGE_TYPE_RELIABLE);
    assert_eq!(datagram.data[1], 1);
    assert_eq!(&datagram.data[4..6], &[4, 0]);

    // a pending NACK rides along exactly once and leaves the queue
    let mut nack = Nack::default();
    nack.start_sequence = 77;
    nack.flags = 5;
    channel.receiver.nack_queue.push_back(nack);
    let (result, _) = channel.send_reliable(NetworkAddress::default(), &body, 2, 0);
    assert_eq!(MESSAGE_TYPE_RELIABLE_WITH_NACK, result.header.message_type);
    assert_eq!(77, result.header.start_sequence);
    assert_eq!(5, result.header.flags);
    assert_eq!(2 + 10, result.sent_len);
    assert_eq!(0, channel.receiver.nack_queue.len());

    // with the queue drained the next frame is plain reliable again
    let (result, _) = channel.send_reliable(NetworkAddress::default(), &body, 2, 0);
    assert_eq!(MESSAGE_TYPE_RELIABLE, result.header.message_type);
}

#[test]
fn update_resends_nacked_frames() {
    // a live send buffer answers an inbound NACK with the retained frame,
    // a piggybacked one rewritten to plain reliable; an evicted sequence
    // gets a placeholder that advances the remote window
    let peer = NetworkAddress::localhost(7001);
    let mut channel = Channel::create(1, NetworkAddress::default(), ChannelConfig::default_ordered());

    // stage a piggybacked frame as sequence 1
    channel.receiver.nack_queue.push_back(Nack {
        start_sequence: 30,
        flags: 0,
        nacked_count: 1,
        sent_count: 0,
    });
    let body: Vec<u8> = vec![42, 43];
    let (result, _) = channel.send_reliable(peer, &body, 2, 0);
    assert_eq!(MESSAGE_TYPE_RELIABLE_WITH_NACK, result.header.message_type);

    // the remote nacks sequence 1 (live) and sequence 2 (never sent)
    channel.nacked_sequence_map.push((1, peer));
    channel.nacked_sequence_map.push((2, peer));
    let out = channel.update();

    // one NACK sweep may or may not lead; the two resends are last
    let n = out.len();
    assert!(n >= 2);
    let resent = &out[n - 2];
    assert_eq!(resent.address, peer);
    assert_eq!(resent.data[0], MESSAGE_TYPE_RELIABLE);
    assert_eq!(&resent.data[4..6], &[42, 43]);

    let filler = &out[n - 1];
    assert_eq!(filler.address, peer);
    assert_eq!(filler.data[0], MESSAGE_TYPE_NONE);
    assert_eq!(filler.data[1], 1);
    assert_eq!(filler.data[2], 2);
    assert_eq!(filler.data[3], 0);
    assert_eq!(0, channel.nacked_sequence_map.len());
}

#[test]
fn update_emits_nack_sweep() {
    let mut channel = Channel::create(1, NetworkAddress::localhost(7002), ChannelConfig::default_ordered());
    let data: Vec<u8> = vec![0; 32];
    channel.receiver.receive_packet(1, &data, 32);
    channel.receiver.receive_packet(5, &data, 32);
    let out = channel.update();
    assert_eq!(1, out.len());
    let sweep = &out[0];
    assert_eq!(sweep.address, NetworkAddress::localhost(7002));
    assert_eq!(sweep.data[0], tachyon::header::MESSAGE_TYPE_NACK);
    assert_eq!(sweep.data[1], 1);
    // the varint body expands back to the missing sequences 4, 3, 2
    let mut sequences: Vec<u16> = Vec::new();
    assert!(Nack::read_varint(&mut sequences, &sweep.data, 4));
    sequences.sort();
    assert_eq!(vec![2, 3, 4], sequences);
}

#[test]
fn receive_published_strips_header() {
    let mut channel = Channel::create(1, NetworkAddress::default(), ChannelConfig::default_ordered());
    // frame a reliable packet as the wire would carry it
    let mut frame: Vec<u8> = vec![0; 7];
    let mut header = Header::default();
    header.message_type = MESSAGE_TYPE_RELIABLE;
    header.channel = 1;
    header.sequence = 1;
    header.write(&mut frame);
    frame[4] = 10;
    frame[5] = 11;
    frame[6] = 12;
    assert!(channel.receiver.receive_packet(1, &frame, 7));
    let mut receive_buffer: Vec<u8> = vec![0; 64];
    let (length, _address) = channel.receive_published(&mut receive_buffer);
    assert_eq!(3, length);
    assert_eq!(&receive_buffer[0..3], &[10, 11, 12]);
}

#[test]
fn consumed_messages_return_buffers_to_pool() {
    // every consumed published message hands its buffer back to the pool:
    // consuming K messages raises the free count by K
    let mut channel = Channel::create(1, NetworkAddress::default(), ChannelConfig::default_ordered());
    let mut frame: Vec<u8> = vec![0; 12];
    let mut header = Header::default();
    header.message_type = MESSAGE_TYPE_RELIABLE;
    header.channel = 1;
    for seq in 1..=3u16 {
        header.sequence = seq;
        header.write(&mut frame);
        assert!(channel.receiver.receive_packet(seq, &frame, 12));
    }
    let before = channel.receiver.buffer_pool.len();
    let mut receive_buffer: Vec<u8> = vec![0; 64];
    for _ in 0..3 {
        let (length, _) = channel.receive_published(&mut receive_buffer);
        assert_eq!(8, length);
    }
    assert_eq!(before + 3, channel.receiver.buffer_pool.len());
    // nothing more to consume, and no further returns
    let (length, _) = channel.receive_published(&mut receive_buffer);
    assert_eq!(0, length);
    assert_eq!(before + 3, channel.receiver.buffer_pool.len());
}
