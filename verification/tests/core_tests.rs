use tachyon::buffer_pool::{ByteBuffer, ByteBufferPool, BYTE_BUFFER_SIZE_DEFAULT, POOL_SIZE_DEFAULT};
use tachyon::header::{ConnectionHeader, Header, MESSAGE_TYPE_LINK_IDENTITY, MESSAGE_TYPE_RELIABLE};
use tachyon::int_buffer::{IntBuffer, LengthPrefixed};
use tachyon::network_address::NetworkAddress;
use tachyon::pool::OutBuffer;
use tachyon::sequence::Sequence;
use tachyon::sequence_buffer::SequenceBuffer;

#[test]
fn test_nack_rotation() {
    println!("{0}", 4 % 5);
}

#[test]
fn test_basic() {
    assert_eq!(65534, Sequence::next_sequence(65533));
    assert_eq!(0, Sequence::next_sequence(65534));
    assert_eq!(1, Sequence::next_sequence(0));

    assert_eq!(65533, Sequence::previous_sequence(65534));
    assert_eq!(65534, Sequence::previous_sequence(0));
    assert_eq!(0, Sequence::previous_sequence(1));

    assert!(Sequence::is_greater_then(0, 65534));
}

#[test]
fn basic_test() {
    let data: Vec<u8> = vec![0; 32];
    let mut buffer: SequenceBuffer<Vec<u8>> = SequenceBuffer {
        values: (0..1024).map(|_| None).collect(),
        partition_by: 1024,
    };

    buffer.insert(1, data);
    let option = buffer.get(1);
    assert!(option.is_some());
}

#[test]
fn get_return_within_limits() {
    let mut pool = ByteBufferPool::default();

    let buffer = pool.get_buffer(BYTE_BUFFER_SIZE_DEFAULT);
    assert!(pool.return_buffer(buffer));
    assert_eq!(1, pool.len());
}

#[test]
fn get_allocates_over_max() {
    let mut pool = ByteBufferPool::default();

    let buffer = pool.get_buffer(BYTE_BUFFER_SIZE_DEFAULT);
    pool.return_buffer(buffer);
    pool.get_buffer(BYTE_BUFFER_SIZE_DEFAULT + 1);
    assert_eq!(1, pool.len());
}

#[test]
fn will_not_return_over_max_buffer_size() {
    let mut pool = ByteBufferPool::default();

    let buffer = pool.get_buffer(BYTE_BUFFER_SIZE_DEFAULT + 1);
    assert!(!pool.return_buffer(buffer));
    assert_eq!(0, pool.len());
}

#[test]
fn will_not_return_if_full() {
    let mut pool = ByteBufferPool::default();

    for _ in 0..POOL_SIZE_DEFAULT {
        let buffer = ByteBuffer::create(1024);
        assert!(pool.return_buffer(buffer));
    }

    let buffer = ByteBuffer::create(1024);
    assert!(!pool.return_buffer(buffer));
}

#[test]
fn pool_free_count_restored() {
    // taking a buffer out and handing it back leaves the free count as it was
    let mut pool = ByteBufferPool::default();
    let seed = pool.get_buffer(64);
    pool.return_buffer(seed);
    let before = pool.len();
    let buffer = pool.get_buffer(100);
    assert_eq!(before - 1, pool.len());
    assert!(pool.return_buffer(buffer));
    assert_eq!(before, pool.len());
}

#[test]
fn test_4bit() {
    let mut low = 3;
    let mut high = 15;
    let byte = IntBuffer::u4_to_u8(low, high);
    let res = IntBuffer::u8_to_u4(byte);
    low = res.0;
    high = res.1;

    println!("{0}", byte);
    println!("{0} {1}", low, high);
}

#[test]
fn test_header_readwrite() {
    let mut bytes: Vec<u8> = vec![0; 128];

    let mut buffer = IntBuffer { index: 0 };
    buffer.write_u32(234, &mut bytes);
    buffer.write_u16(44, &mut bytes);
    buffer.write_u8(99, &mut bytes);
    buffer.write_u32(1, &mut bytes);
    buffer.index = 0;
    assert_eq!(234, buffer.read_u32(&bytes));
    assert_eq!(44, buffer.read_u16(&bytes));
    assert_eq!(99, buffer.read_u8(&bytes));
    assert_eq!(1, buffer.read_u32(&bytes));
}

#[test]
fn header_fixed_layout() {
    let mut bytes: Vec<u8> = vec![0; 16];
    let mut header = Header::default();
    header.message_type = MESSAGE_TYPE_RELIABLE;
    header.channel = 7;
    header.sequence = 0x1234;
    header.write(&mut bytes);
    assert_eq!(bytes[0], 1);
    assert_eq!(bytes[1], 7);
    assert_eq!(bytes[2], 0x34);
    assert_eq!(bytes[3], 0x12);
    let back = Header::read(&bytes);
    assert_eq!(back.message_type, 1);
    assert_eq!(back.channel, 7);
    assert_eq!(back.sequence, 0x1234);
}

#[test]
fn fragmented_header_roundtrip() {
    let mut bytes: Vec<u8> = vec![0; 16];
    let header = Header::create_fragmented(300, 2, 9, 298, 3);
    header.write_fragmented(&mut bytes);
    let back = Header::read_fragmented(&bytes);
    assert_eq!(back.sequence, 300);
    assert_eq!(back.channel, 2);
    assert_eq!(back.fragment_group, 9);
    assert_eq!(back.fragment_start_sequence, 298);
    assert_eq!(back.fragment_count, 3);
}

#[test]
fn connection_header_roundtrip() {
    let mut bytes: Vec<u8> = vec![0; 16];
    let header = ConnectionHeader {
        message_type: MESSAGE_TYPE_LINK_IDENTITY,
        id: 77,
        session_id: 12345,
    };
    header.write(&mut bytes);
    let back = ConnectionHeader::read(&bytes);
    assert_eq!(back.message_type, MESSAGE_TYPE_LINK_IDENTITY);
    assert_eq!(back.id, 77);
    assert_eq!(back.session_id, 12345);
}

#[test]
fn length_prefixed_roundtrip() {
    let mut dst: Vec<u8> = vec![0; 256];
    let body: Vec<u8> = vec![9, 8, 7, 6, 5];
    let mut framed = LengthPrefixed::default();
    framed.write(3, NetworkAddress::localhost(8200), &body, &mut dst);
    let (channel, address, start, end) = framed.read(&dst);
    assert_eq!(channel, 3);
    assert_eq!(address, NetworkAddress::localhost(8200));
    assert_eq!(&dst[start..end], &body[..]);
}

#[test]
fn out_buffer_append_and_drain() {
    let mut out = OutBuffer::create(256);
    let body: Vec<u8> = vec![1, 2, 3, 4];
    assert!(out.append(1, NetworkAddress::localhost(9000), &body, 4));
    assert_eq!(out.count, 1);
    assert_eq!(out.bytes_written, 18 + 4);
    let mut receive: Vec<u8> = vec![0; 256];
    let counts = out.drain_into(&mut receive);
    assert_eq!(counts.count, 1);
    assert_eq!(counts.bytes_written, 22);
    assert_eq!(out.count, 0);
    assert_eq!(out.bytes_written, 0);
    // the staged record ends with the body bytes
    assert_eq!(&receive[18..22], &body[..]);
}

#[test]
fn address_helpers() {
    assert!(NetworkAddress::default().is_default());
    assert!(!NetworkAddress::localhost(1).is_default());
    assert!(NetworkAddress::broadcast(3).is_broadcast());
    let mut a = NetworkAddress::default();
    a.copy_from(NetworkAddress::test_address());
    assert_eq!(a, NetworkAddress::test_address());
}
