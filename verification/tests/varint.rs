use dexter_ipfs_car::error::CarError;
use dexter_ipfs_car::stream::ByteStream;
use dexter_ipfs_car::varint::decode_varint;
use dexter_ipfs_car::varint::read_varint;
use dexter_ipfs_car::varint::write_varint_to_vec;

#[test]
fn varint_of_small_numbers_is_one_byte() {
    assert_eq!(write_varint_to_vec(0), vec![0x00]);
    assert_eq!(write_varint_to_vec(1), vec![0x01]);
    assert_eq!(write_varint_to_vec(127), vec![0x7f]);
}

#[test]
fn varint_of_larger_numbers_continues() {
    assert_eq!(write_varint_to_vec(128), vec![0x80, 0x01]);
    assert_eq!(write_varint_to_vec(300), vec![0xac, 0x02]);
    assert_eq!(write_varint_to_vec(16383), vec![0xff, 0x7f]);
    assert_eq!(write_varint_to_vec(16384), vec![0x80, 0x80, 0x01]);
}

#[test]
fn varint_of_the_largest_number_is_ten_bytes() {
    let bytes = write_varint_to_vec(u64::MAX);
    assert_eq!(
        bytes,
        vec![0xff, 0xff, 0xff, 0xff, 0xff, 0xff, 0xff, 0xff, 0xff, 0x01]
    );
}

#[test]
fn varint_round_trip_on_chosen_values() {
    let values: [u64; 12] = [
        0,
        1,
        127,
        128,
        255,
        300,
        16383,
        16384,
        1 << 32,
        (1 << 56) - 1,
        1 << 63,
        u64::MAX,
    ];
    for value in values {
        let bytes = write_varint_to_vec(value);
        let len = bytes.len() as u64;
        assert_eq!(decode_varint(&bytes, 0).unwrap(), (value, len));
        let mut reader = ByteStream::new(bytes);
        assert_eq!(read_varint(&mut reader).unwrap(), value);
        assert_eq!(reader.position(), len);
    }
}

#[test]
fn varint_is_read_at_a_position_and_leaves_the_rest() {
    let bytes = vec![0xaa, 0xac, 0x02, 0x55];
    assert_eq!(decode_varint(&bytes, 1).unwrap(), (300, 3));
    assert_eq!(decode_varint(&bytes, 3).unwrap(), (0x55, 4));
}

#[test]
fn varint_that_ends_early_is_unexpected_eof() {
    assert!(matches!(decode_varint(&[], 0), Err(CarError::UnexpectedEof)));
    assert!(matches!(decode_varint(&[0x80], 0), Err(CarError::UnexpectedEof)));
    assert!(matches!(
        decode_varint(&[0xff, 0xff, 0xff], 0),
        Err(CarError::UnexpectedEof)
    ));
    assert!(matches!(decode_varint(&[0x01], 1), Err(CarError::UnexpectedEof)));
    assert!(matches!(decode_varint(&[0x01], 5), Err(CarError::UnexpectedEof)));
}

#[test]
fn varint_of_ten_continued_bytes_is_overflow() {
    let ten = vec![0x80; 10];
    assert!(matches!(decode_varint(&ten, 0), Err(CarError::VarintOverflow)));
    let eleven = vec![0xff; 11];
    assert!(matches!(decode_varint(&eleven, 0), Err(CarError::VarintOverflow)));
}

#[test]
fn varint_of_nine_continued_bytes_needs_a_tenth() {
    let nine = vec![0x80; 9];
    assert!(matches!(decode_varint(&nine, 0), Err(CarError::UnexpectedEof)));
}

#[test]
fn varint_tenth_byte_keeps_its_lowest_bit_only() {
    let mut bytes = vec![0xff; 9];
    bytes.push(0x7f);
    assert_eq!(decode_varint(&bytes, 0).unwrap(), (u64::MAX, 10));
    let mut bytes = vec![0x80; 9];
    bytes.push(0x02);
    assert_eq!(decode_varint(&bytes, 0).unwrap(), (0, 10));
    let mut bytes = vec![0x80; 9];
    bytes.push(0x03);
    assert_eq!(decode_varint(&bytes, 0).unwrap(), (1 << 63, 10));
}

#[test]
fn varint_that_is_not_minimal_is_still_read() {
    assert_eq!(decode_varint(&[0x80, 0x00], 0).unwrap(), (0, 2));
    assert_eq!(decode_varint(&[0x81, 0x80, 0x00], 0).unwrap(), (1, 3));
}

#[test]
fn read_varint_leaves_the_position_on_failure() {
    let mut reader = ByteStream::new(vec![0x05, 0x80]);
    reader.seek(1);
    assert!(matches!(read_varint(&mut reader), Err(CarError::UnexpectedEof)));
    assert_eq!(reader.position(), 1);
    reader.seek(9);
    assert!(matches!(read_varint(&mut reader), Err(CarError::UnexpectedEof)));
    assert_eq!(reader.position(), 9);
}

#[test]
fn stream_reads_exactly_or_not_at_all() {
    let mut stream = ByteStream::new(vec![1, 2, 3, 4, 5]);
    assert_eq!(stream.len(), 5);
    assert_eq!(stream.read_exact(2).unwrap(), vec![1, 2]);
    assert_eq!(stream.position(), 2);
    assert!(matches!(stream.read_exact(4), Err(CarError::UnexpectedEof)));
    assert_eq!(stream.position(), 2);
    assert_eq!(stream.read_exact(3).unwrap(), vec![3, 4, 5]);
    assert_eq!(stream.position(), 5);
    assert_eq!(stream.read_exact(0).unwrap(), Vec::<u8>::new());
    stream.seek(7);
    assert!(matches!(stream.read_exact(0), Err(CarError::UnexpectedEof)));
    assert!(matches!(stream.read_exact(u64::MAX), Err(CarError::UnexpectedEof)));
    assert_eq!(stream.as_slice(), &[1, 2, 3, 4, 5]);
    assert_eq!(stream.into_inner(), vec![1, 2, 3, 4, 5]);
}
