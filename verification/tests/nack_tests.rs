use std::io::Cursor;

use varuint::{ReadVarint, WriteVarint};

use tachyon::nack::Nack;
use tachyon::sequence::Sequence;

fn create_full_nack(start: u16) -> Nack {
    let mut nack = Nack::default();
    nack.start_sequence = start;
    let mut seq = Sequence::previous_sequence(nack.start_sequence);
    for _ in 0..32 {
        nack.set_flagged(seq);
        seq = Sequence::previous_sequence(seq);
    }
    nack
}

#[test]
fn test_flagged() {
    let mut nack = Nack::default();
    nack.start_sequence = 33;
    nack.set_flagged(32);
    assert!(nack.is_flagged(32));
    assert!(nack.get_bits(0));

    nack.set_flagged(1);
    assert!(nack.get_bits(31));
    assert!(nack.is_flagged(1));

    nack.set_flagged(34);
    assert!(!nack.is_flagged(34));
}

#[test]
fn test_flagged_wrapped() {
    let mut nack = Nack::default();
    nack.start_sequence = 0;
    nack.set_flagged(65534);
    assert!(nack.is_flagged(65534));

    nack.set_flagged(65534 - 31);
    assert!(nack.is_flagged(65534 - 31));

    nack.set_flagged(2);
    assert!(!nack.is_flagged(2));
}

#[test]
fn test_get_nacked() {
    let mut nack = create_full_nack(1);

    let mut sequences: Vec<u16> = Vec::new();
    nack.get_nacked(&mut sequences);
    assert_eq!(33, sequences.len());

    nack.set_bits(4, false);
    nack.set_bits(31, false);

    let mut sequences: Vec<u16> = Vec::new();
    nack.get_nacked(&mut sequences);
    assert_eq!(31, sequences.len());
}

#[test]
fn test_write_read() {
    let mut data: Vec<u8> = vec![0; 1024];
    let mut sequences_out: Vec<u16> = Vec::new();
    let mut nacks: Vec<Nack> = Vec::new();
    nacks.push(create_full_nack(1));
    nacks.push(create_full_nack(34));

    Nack::write_varint(&nacks, &mut data, 0);
    assert!(Nack::read_varint(&mut sequences_out, &data, 0));
    assert_eq!(66, sequences_out.len());
    // every expanded sequence is unique
    let mut seen = sequences_out.clone();
    seen.sort();
    seen.dedup();
    assert_eq!(66, seen.len());
}

#[test]
fn fixed_write_read() {
    let mut data: Vec<u8> = vec![0; 1024];
    let mut nacks: Vec<Nack> = Vec::new();
    nacks.push(create_full_nack(40));
    let end = Nack::write(&nacks, &mut data, 2);
    assert_eq!(end, 2 + 1 + 6);
    let mut sequences: Vec<u16> = Vec::new();
    Nack::read(&mut sequences, &data, 2);
    assert_eq!(33, sequences.len());
    assert_eq!(40, sequences[0]);
}

#[test]
fn single_write_read() {
    let mut data: Vec<u8> = vec![0; 64];
    let mut nack = Nack::default();
    nack.start_sequence = 900;
    nack.set_flagged(899);
    let end = Nack::write_single(&nack, &mut data, 4);
    assert_eq!(end, 10);
    let mut sequences: Vec<u16> = Vec::new();
    Nack::read_single(&mut sequences, &data, 4);
    assert_eq!(vec![900, 899], sequences);
}

#[test]
fn varint_scalar_interop_with_reference_encoder() {
    // our encoder, the reference decoder
    for v in [0u16, 1, 100, 240, 241, 1000, 2031, 2032, 30000, 65535] {
        let mut data: Vec<u8> = vec![0; 8];
        let end = tachyon::nack::write_varint_u16(v, &mut data, 0);
        let mut cursor = Cursor::new(&data[..end]);
        let back: u16 = ReadVarint::<u16>::read_varint(&mut cursor).unwrap();
        assert_eq!(v, back);
    }
    for v in [0u32, 240, 241, 2031, 2032, 67567, 67568, 16777215, 16777216, u32::MAX] {
        let mut data: Vec<u8> = vec![0; 8];
        let end = tachyon::nack::write_varint_u32(v, &mut data, 0);
        let mut cursor = Cursor::new(&data[..end]);
        let back: u32 = ReadVarint::<u32>::read_varint(&mut cursor).unwrap();
        assert_eq!(v, back);
    }

    // the reference encoder, our decoder
    for v in [0u16, 77, 240, 241, 2031, 2032, 4000, 65535] {
        let mut data: Vec<u8> = vec![0; 8];
        let mut cursor = Cursor::new(&mut data[..]);
        cursor.write_varint(v).unwrap();
        let (back, _) = tachyon::nack::read_varint_u16(&data, 0).unwrap();
        assert_eq!(v, back);
    }
    for v in [0u32, 250, 2100, 67567, 70000, 16777215, 99999999, u32::MAX] {
        let mut data: Vec<u8> = vec![0; 8];
        let mut cursor = Cursor::new(&mut data[..]);
        cursor.write_varint(v).unwrap();
        let (back, _) = tachyon::nack::read_varint_u32(&data, 0).unwrap();
        assert_eq!(v, back);
    }
}

#[test]
fn varint_rejects_malformed() {
    // a truncated two-byte encoding fails to parse
    let data: Vec<u8> = vec![241];
    assert!(tachyon::nack::read_varint_u16(&data, 0).is_none());
    // the 249 prefix is not a valid 16-bit encoding
    let data: Vec<u8> = vec![249, 1, 2, 3, 4];
    assert!(tachyon::nack::read_varint_u16(&data, 0).is_none());
    // a message whose record list is cut short changes nothing
    let mut sequences: Vec<u16> = vec![5];
    let data: Vec<u8> = vec![2, 10];
    assert!(!Nack::read_varint(&mut sequences, &data, 0));
    assert_eq!(vec![5], sequences);
}
