use tachyon::receiver::Receiver;
use tachyon::sequence::Sequence;

fn is_nacked(receiver: &Receiver, sequence: u16) -> bool {
    for nack in &receiver.nack_list {
        if nack.is_nacked(sequence) {
            return true;
        }
    }
    false
}

fn assert_nack(receiver: &mut Receiver, sequence: u16) {
    if receiver.is_received(sequence) || sequence >= receiver.last_sequence
        || sequence <= receiver.current_sequence
    {
        if is_nacked(receiver, sequence) {
            panic!("{0} is nacked", sequence);
        }
    } else {
        if !is_nacked(receiver, sequence) {
            panic!("{0} not nacked", sequence);
        }
    }
}

#[test]
fn test_all_nacked() {
    let mut channel = Receiver::default(true);
    channel.current_sequence = 0;
    channel.last_sequence = 512;

    let nack_count = channel.create_nacks();
    assert_eq!(16, channel.nack_list.len());
    assert_eq!(511, nack_count);

    for i in 0..512 {
        assert_nack(&mut channel, i);
    }
}

#[test]
fn test_some_nacked() {
    let mut channel = Receiver::default(true);
    channel.current_sequence = 0;
    channel.last_sequence = 64;

    channel.set_received(63);
    channel.set_received(63 - 32);
    channel.set_received(63 - 33);
    channel.set_received(1);
    let nacked_count = channel.create_nacks();

    assert_eq!(2, channel.nack_list.len());
    assert_eq!(63 - 4, nacked_count);

    for i in 0..66 {
        assert_nack(&mut channel, i);
    }
}

#[test]
fn test_skipped() {
    let mut channel = Receiver::default(true);
    let data: Vec<u8> = vec![0; 1024];
    channel.current_sequence = 0;
    channel.last_sequence = 512 + 10;

    // should skip and take received
    channel.set_received(0);
    assert!(!channel.receive_packet(1, &data, 32));
    assert!(!channel.is_received(0));
    assert_eq!(1, channel.current_sequence);

    assert!(!channel.receive_packet(1, &data, 32));
    assert_eq!(2, channel.current_sequence);
}

#[test]
fn test_reset_receive_window() {
    assert_eq!(65530, Receiver::calculate_current_in_window(65530, 100));
    assert_eq!(0, Receiver::calculate_current_in_window(0, 512));
    assert_eq!(10, Receiver::calculate_current_in_window(0, 512 + 10));
    assert_eq!(1, Receiver::calculate_current_in_window(0, 513));
    assert_eq!(0, Receiver::calculate_current_in_window(65533, 512));
}

#[test]
fn wrapping_in_order() {
    let mut channel = Receiver::default(true);
    channel.current_sequence = 65533;
    let data: Vec<u8> = vec![0; 1024];

    let receive_result = channel.receive_packet(65534, &data, 32);
    assert!(receive_result);

    assert_eq!(65534, channel.current_sequence);
    assert_eq!(1, channel.published.len());

    let receive_result = channel.receive_packet(0, &data, 32);
    assert!(receive_result);
    assert_eq!(0, channel.current_sequence);
    assert_eq!(0, channel.last_sequence);
    assert!(channel.take_published().is_some());

    let receive_result = channel.receive_packet(1, &data, 32);
    assert!(receive_result);
    assert_eq!(1, channel.current_sequence);
    assert!(channel.take_published().is_some());

    let receive_result = channel.receive_packet(2, &data, 32);
    assert!(receive_result);
    assert_eq!(2, channel.last_sequence);
    assert_eq!(2, channel.current_sequence);
    assert!(channel.take_published().is_some());
}

#[test]
fn wrapping_out_of_order() {
    let mut channel = Receiver::default(true);
    channel.current_sequence = 65533;
    let data: Vec<u8> = vec![0; 1024];
    let receive_result = channel.receive_packet(65534, &data, 32);
    assert!(receive_result);
    assert_eq!(65534, channel.current_sequence);
    let receive_result = channel.receive_packet(2, &data, 32);
    assert!(receive_result);
    assert_eq!(65534, channel.current_sequence);
    assert_eq!(2, channel.last_sequence);
    let receive_result = channel.receive_packet(1, &data, 32);
    assert!(receive_result);
    assert_eq!(65534, channel.current_sequence);

    let receive_result = channel.receive_packet(0, &data, 32);
    assert!(receive_result);
    assert_eq!(2, channel.last_sequence);
    assert_eq!(2, channel.current_sequence);
}

#[test]
fn full_wrap() {
    let mut channel = Receiver::default(true);
    let data: Vec<u8> = vec![0; 1024];

    let mut sequence = 1;
    for _ in 1..200000 {
        let _receive_result = channel.receive_packet(sequence, &data, 32);
        if channel.current_sequence != sequence {
            println!(
                "{0} {1} {2}",
                sequence, channel.current_sequence, channel.last_sequence
            );
            panic!();
        }
        assert!(channel.take_published().is_some());

        sequence = Sequence::next_sequence(sequence);
    }
}

#[test]
fn publish_consume_publish() {
    let mut channel = Receiver::default(true);
    let data: Vec<u8> = vec![0; 1024];
    let _receive_result = channel.receive_packet(1, &data, 32);
    let _receive_result = channel.receive_packet(2, &data, 32);
    assert!(channel.take_published().is_some());
    assert!(channel.take_published().is_some());
    assert!(channel.take_published().is_none());

    let _receive_result = channel.receive_packet(4, &data, 32);
    let _receive_result = channel.receive_packet(3, &data, 32);
    assert!(channel.take_published().is_some());
    assert!(channel.take_published().is_some());
    assert!(channel.take_published().is_none());

    let _receive_result = channel.receive_packet(5, &data, 32);
    assert!(channel.take_published().is_some());
    assert!(channel.take_published().is_none());

    assert_eq!(0, channel.published.len());
}

#[test]
fn receive_older_fails() {
    let mut channel = Receiver::default(true);
    let data: Vec<u8> = vec![0; 1024];
    let receive_result = channel.receive_packet(1, &data, 32);
    assert!(receive_result);
    let receive_result = channel.receive_packet(1, &data, 32);
    assert!(!receive_result);
    let receive_result = channel.receive_packet(0, &data, 32);
    assert!(!receive_result);
}

#[test]
fn ordered_flow_test() {
    let mut channel = Receiver::default(true);
    let data: Vec<u8> = vec![0; 1024];
    let receive_result = channel.receive_packet(1, &data, 32);
    assert!(receive_result);
    assert_eq!(1, channel.published.len());

    let receive_result = channel.receive_packet(5, &data, 32);
    assert!(receive_result);
    assert_eq!(1, channel.published.len());
    assert_eq!(1, channel.current_sequence);
    assert_eq!(5, channel.last_sequence);

    let receive_result = channel.receive_packet(3, &data, 32);
    assert!(receive_result);
    assert_eq!(1, channel.current_sequence);

    let _receive_result = channel.receive_packet(2, &data, 32);
    assert_eq!(3, channel.current_sequence);
    assert_eq!(3, channel.published.len());

    let _receive_result = channel.receive_packet(4, &data, 32);
    assert_eq!(5, channel.current_sequence);
    assert_eq!(5, channel.last_sequence);

    assert_eq!(5, channel.published.len());

    assert!(channel.take_published().is_some());
    assert!(channel.take_published().is_some());
    assert!(channel.take_published().is_some());
    assert!(channel.take_published().is_some());
    assert!(channel.take_published().is_some());

    assert!(channel.take_published().is_none());
    assert_eq!(0, channel.published.len());
}

#[test]
fn unordered_flow_test() {
    let mut channel = Receiver::default(false);
    let data: Vec<u8> = vec![0; 1024];
    let _receive_result = channel.receive_packet(1, &data, 32);
    assert_eq!(1, channel.published.len());
    let _receive_result = channel.receive_packet(5, &data, 32);
    assert_eq!(2, channel.published.len());
    assert_eq!(1, channel.current_sequence);
    assert_eq!(5, channel.last_sequence);

    let _receive_result = channel.receive_packet(3, &data, 32);
    assert_eq!(1, channel.current_sequence);

    let _receive_result = channel.receive_packet(2, &data, 32);
    assert_eq!(3, channel.current_sequence);
    assert_eq!(4, channel.published.len());

    let _receive_result = channel.receive_packet(4, &data, 32);
    assert_eq!(5, channel.current_sequence);
    assert_eq!(5, channel.last_sequence);

    assert_eq!(5, channel.published.len());

    assert!(channel.take_published().is_some());
    assert!(channel.take_published().is_some());
    assert!(channel.take_published().is_some());
    assert!(channel.take_published().is_some());
    assert!(channel.take_published().is_some());

    assert!(channel.take_published().is_none());
    assert_eq!(0, channel.published.len());
}

#[test]
fn ordered_publish_reorders_arrivals() {
    // bodies tagged A..E arrive as B, D, E, A, C; an ordered receiver
    // publishes exactly A, B, C, D, E
    let mut channel = Receiver::default(true);
    let mk = |tag: u8| -> Vec<u8> { vec![tag; 8] };
    assert!(channel.receive_packet(2, &mk(b'B'), 8));
    assert!(channel.receive_packet(4, &mk(b'D'), 8));
    assert!(channel.receive_packet(5, &mk(b'E'), 8));
    assert!(channel.receive_packet(1, &mk(b'A'), 8));
    assert!(channel.receive_packet(3, &mk(b'C'), 8));
    let mut tags: Vec<u8> = Vec::new();
    while let Some(buffer) = channel.take_published() {
        tags.push(buffer.get()[0]);
    }
    assert_eq!(tags, vec![b'A', b'B', b'C', b'D', b'E']);
}

#[test]
fn unordered_publish_keeps_arrival_order() {
    // the same wire order on an unordered receiver publishes B, D, A, C, E:
    // arrivals drain as they come, gaps resolved when filled
    let mut channel = Receiver::default(false);
    let mk = |tag: u8| -> Vec<u8> { vec![tag; 8] };
    assert!(channel.receive_packet(2, &mk(b'B'), 8));
    assert!(channel.receive_packet(4, &mk(b'D'), 8));
    assert!(channel.receive_packet(5, &mk(b'E'), 8));
    assert!(channel.receive_packet(1, &mk(b'A'), 8));
    assert!(channel.receive_packet(3, &mk(b'C'), 8));
    let mut tags: Vec<u8> = Vec::new();
    while let Some(buffer) = channel.take_published() {
        tags.push(buffer.get()[0]);
    }
    assert_eq!(tags, vec![b'B', b'D', b'E', b'A', b'C']);
}

#[test]
fn duplicate_never_republished() {
    // a sequence is published at most once however often it arrives
    let mut channel = Receiver::default(true);
    let data: Vec<u8> = vec![7; 16];
    assert!(channel.receive_packet(1, &data, 16));
    assert!(!channel.receive_packet(1, &data, 16));
    assert!(!channel.receive_packet(1, &data, 16));
    assert_eq!(1, channel.published.len());
    assert!(channel.take_published().is_some());
    assert!(channel.take_published().is_none());
    assert!(!channel.receive_packet(1, &data, 16));
    assert!(channel.take_published().is_none());
}

#[test]
fn window_forced_advance_counts_skips() {
    // with a window of 8, feeding sequences 9..=32 (1..=8 lost) forces the
    // window forward one skip per admission past the gap
    let mut channel = Receiver::create(true, 8);
    let data: Vec<u8> = vec![0; 64];
    for seq in 9..=32u16 {
        channel.receive_packet(seq, &data, 32);
    }
    assert!(channel.skipped_sequences >= 8);
    let mut published = 0;
    while channel.take_published().is_some() {
        published += 1;
    }
    println!(
        "published {} skipped {} current {}",
        published, channel.skipped_sequences, channel.current_sequence
    );
    assert!(published >= 8);
}

#[test]
fn resend_list_collects_gaps() {
    let mut channel = Receiver::default(true);
    let data: Vec<u8> = vec![0; 64];
    channel.receive_packet(1, &data, 32);
    channel.receive_packet(4, &data, 32);
    channel.set_resend_list();
    assert_eq!(vec![3, 2], channel.resend_list);
}
