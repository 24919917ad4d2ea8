use dexter_ipfs_car::cbor::cbor_decode;
use dexter_ipfs_car::cbor::cbor_encode;
use dexter_ipfs_car::cbor::encode_item;
use dexter_ipfs_car::cbor::is_encodable;
use dexter_ipfs_car::cbor::CborValue;
use dexter_ipfs_car::content_id::identifier_within;
use dexter_ipfs_car::content_id::ContentId;
use dexter_ipfs_car::content_id::DAG_CBOR;
use dexter_ipfs_car::content_id::DAG_PB;
use dexter_ipfs_car::content_id::SHA2_256;
use dexter_ipfs_car::encoding::decode_row;
use dexter_ipfs_car::encoding::encode_row;
use dexter_ipfs_car::error::CarError;
use dexter_ipfs_car::header::encode_header;
use dexter_ipfs_car::header::parse_header;

const SHA256_OF_NOTHING: [u8; 32] = [
    0xe3, 0xb0, 0xc4, 0x42, 0x98, 0xfc, 0x1c, 0x14, 0x9a, 0xfb, 0xf4, 0xc8, 0x99, 0x6f, 0xb9, 0x24,
    0x27, 0xae, 0x41, 0xe4, 0x64, 0x9b, 0x93, 0x4c, 0xa4, 0x95, 0x99, 0x1b, 0x78, 0x52, 0xb8, 0x55,
];

const KNOWN_DIGEST: [u8; 32] = [
    41, 119, 46, 195, 0, 149, 81, 168, 63, 176, 40, 43, 118, 60, 191, 149, 226, 240, 10, 35, 152,
    172, 31, 178, 232, 48, 180, 238, 36, 196, 112, 55,
];

const KNOWN_TEXT: &str = "bafyreibjo4xmgaevkgud7mbifn3dzp4v4lyaui4yvqp3f2bqwtxcjrdqg4";

#[test]
fn row_bytes_are_a_table_of_key_and_data() {
    let (_, bytes) = encode_row(&"a".to_string(), &b"1".to_vec()).unwrap();
    assert_eq!(
        bytes,
        vec![
            0xa2, 0x63, b'k', b'e', b'y', 0x61, b'a', 0x64, b'd', b'a', b't', b'a', 0x81, 0x18,
            0x31
        ]
    );
}

#[test]
fn row_bytes_of_an_empty_payload() {
    let (_, bytes) = encode_row(&"k".to_string(), &Vec::new()).unwrap();
    assert_eq!(
        bytes,
        vec![0xa2, 0x63, b'k', b'e', b'y', 0x61, b'k', 0x64, b'd', b'a', b't', b'a', 0x80]
    );
}

#[test]
fn row_bytes_hold_small_bytes_in_one_byte_each() {
    let (_, bytes) = encode_row(&"".to_string(), &vec![0, 23, 24, 255]).unwrap();
    assert_eq!(
        bytes,
        vec![
            0xa2, 0x63, b'k', b'e', b'y', 0x60, 0x64, b'd', b'a', b't', b'a', 0x84, 0x00, 0x17,
            0x18, 0x18, 0x18, 0xff
        ]
    );
}

#[test]
fn row_round_trip_on_chosen_rows() {
    let rows: Vec<(String, Vec<u8>)> = vec![
        ("a".to_string(), b"1".to_vec()),
        ("key".to_string(), Vec::new()),
        ("data".to_string(), vec![0, 1, 2, 253, 254, 255]),
        ("".to_string(), b"empty key".to_vec()),
        ("\u{00e9}\u{4e2d}\u{1f600}".to_string(), (0..=255).collect()),
        ("long".to_string(), vec![7; 70_000]),
    ];
    for (key, data) in rows {
        let (_, bytes) = encode_row(&key, &data).unwrap();
        assert_eq!(decode_row(&bytes).unwrap(), (key, data));
    }
}

#[test]
fn encoding_twice_gives_the_same_identifier_and_bytes() {
    let key = "same".to_string();
    let data = b"payload".to_vec();
    let (first_id, first_bytes) = encode_row(&key, &data).unwrap();
    let (second_id, second_bytes) = encode_row(&key, &data).unwrap();
    assert_eq!(first_bytes, second_bytes);
    assert!(first_id.same_as(&second_id));
    assert_eq!(first_id.to_bytes(), second_id.to_bytes());
    assert_eq!(first_id.to_text(), second_id.to_text());
}

#[test]
fn different_rows_have_different_identifiers() {
    let (first, _) = encode_row(&"a".to_string(), &b"1".to_vec()).unwrap();
    let (second, _) = encode_row(&"a".to_string(), &b"2".to_vec()).unwrap();
    assert!(!first.same_as(&second));
}

#[test]
fn identifier_of_a_row_is_version_one_dag_cbor_sha2_256() {
    let (id, bytes) = encode_row(&"a".to_string(), &b"1".to_vec()).unwrap();
    assert_eq!(id.version(), 1);
    assert_eq!(id.codec(), 0x71);
    assert_eq!(id.hash_code(), 0x12);
    assert_eq!(id.digest().len(), 32);
    let again = ContentId::of_row_bytes(&bytes);
    assert!(id.same_as(&again));
}

#[test]
fn identifier_digest_is_sha2_256() {
    let id = ContentId::of_row_bytes(&[]);
    assert_eq!(id.digest(), &SHA256_OF_NOTHING);
    let other = ContentId::of_row_bytes(b"abc");
    assert_eq!(
        other.digest(),
        &[
            0xba, 0x78, 0x16, 0xbf, 0x8f, 0x01, 0xcf, 0xea, 0x41, 0x41, 0x40, 0xde, 0x5d, 0xae,
            0x22, 0x23, 0xb0, 0x03, 0x61, 0xa3, 0x96, 0x17, 0x7a, 0x9c, 0xb4, 0x10, 0xff, 0x61,
            0xf2, 0x00, 0x15, 0xad
        ]
    );
}

#[test]
fn identifier_binary_form_of_version_one() {
    let id = ContentId::new(1, DAG_CBOR, SHA2_256, KNOWN_DIGEST.to_vec()).unwrap();
    let mut expected = vec![0x01, 0x71, 0x12, 0x20];
    expected.extend_from_slice(&KNOWN_DIGEST);
    assert_eq!(id.to_bytes(), expected);
}

#[test]
fn identifier_binary_form_with_long_tags() {
    let id = ContentId::new(1, 300, 0xb220, vec![9, 8, 7]).unwrap();
    assert_eq!(id.to_bytes(), vec![0x01, 0xac, 0x02, 0xa0, 0xe4, 0x02, 0x03, 9, 8, 7]);
}

#[test]
fn identifier_binary_form_of_version_zero() {
    let id = ContentId::new(0, DAG_PB, SHA2_256, KNOWN_DIGEST.to_vec()).unwrap();
    let mut expected = vec![0x12, 0x20];
    expected.extend_from_slice(&KNOWN_DIGEST);
    assert_eq!(id.to_bytes(), expected);
}

#[test]
fn identifier_text_form_of_a_known_identifier() {
    let id = ContentId::new(1, DAG_CBOR, SHA2_256, KNOWN_DIGEST.to_vec()).unwrap();
    assert_eq!(id.to_text(), KNOWN_TEXT);
    let back = ContentId::from_text(KNOWN_TEXT).unwrap();
    assert!(back.same_as(&id));
    assert_eq!(back.version(), 1);
    assert_eq!(back.codec(), 0x71);
    assert_eq!(back.hash_code(), 0x12);
    assert_eq!(back.digest(), &KNOWN_DIGEST);
}

#[test]
fn identifier_text_form_agrees_with_the_cid_crate() {
    let (id, _) = encode_row(&"a".to_string(), &b"1".to_vec()).unwrap();
    let outside = cid::Cid::try_from(id.to_bytes()).unwrap();
    assert_eq!(id.to_text(), outside.to_string());
    assert_eq!(id.to_bytes(), outside.to_bytes());
    assert_eq!(outside.codec(), 0x71);
    assert_eq!(outside.hash().code(), 0x12);
    assert_eq!(outside.hash().digest(), id.digest());
}

#[test]
fn identifier_text_form_of_version_zero() {
    let id = ContentId::new(0, DAG_PB, SHA2_256, SHA256_OF_NOTHING.to_vec()).unwrap();
    let text = id.to_text();
    assert_eq!(text, "QmdfTbBqBPQ7VNxZEYEj14VmRuZBkqFbiwReogJgS1zR1n");
    let back = ContentId::from_text(&text).unwrap();
    assert!(back.same_as(&id));
    assert_eq!(back.version(), 0);
}

#[test]
fn identifier_text_round_trip() {
    let (id, _) = encode_row(&"round".to_string(), &b"trip".to_vec()).unwrap();
    let back = ContentId::from_text(&id.to_text()).unwrap();
    assert!(back.same_as(&id));
}

#[test]
fn identifier_text_that_is_none_is_refused() {
    assert!(ContentId::from_text("").is_none());
    assert!(ContentId::from_text("b").is_none());
    assert!(ContentId::from_text("not a cid").is_none());
    assert!(ContentId::from_text("bafyreibjo4xmgaevkgud7mbifn3dzp4v4lyaui4yvqp3f2bqw").is_none());
}

#[test]
fn identifier_is_read_from_the_front_of_a_block() {
    let id = ContentId::new(1, DAG_CBOR, SHA2_256, KNOWN_DIGEST.to_vec()).unwrap();
    let mut block = id.to_bytes();
    block.extend_from_slice(b"the row bytes");
    let (found, used) = ContentId::read_prefix(&block).unwrap();
    assert!(found.same_as(&id));
    assert_eq!(used, 36);
    let (alone, all) = ContentId::read_prefix(&id.to_bytes()).unwrap();
    assert!(alone.same_as(&id));
    assert_eq!(all, 36);
}

#[test]
fn identifier_of_version_zero_is_read_from_a_block() {
    let id = ContentId::new(0, DAG_PB, SHA2_256, KNOWN_DIGEST.to_vec()).unwrap();
    let mut block = id.to_bytes();
    block.push(0xaa);
    let (found, used) = ContentId::read_prefix(&block).unwrap();
    assert!(found.same_as(&id));
    assert_eq!(found.version(), 0);
    assert_eq!(found.codec(), DAG_PB);
    assert_eq!(used, 34);
}

#[test]
fn identifier_is_not_read_from_bytes_that_hold_none() {
    assert!(ContentId::read_prefix(&[]).is_none());
    assert!(ContentId::read_prefix(&[0x01]).is_none());
    assert!(ContentId::read_prefix(&[0x01, 0x71, 0x12, 0x20, 1, 2, 3]).is_none());
    assert!(ContentId::read_prefix(&[0x02, 0x71, 0x12, 0x00]).is_none());
    assert!(ContentId::read_prefix(&[0x01, 0x71, 0x12, 0x41]).is_none());
}

#[test]
fn identifier_parts_are_held_to_what_exists() {
    assert!(ContentId::new(1, 0x55, 0x12, vec![0; 64]).is_some());
    assert!(ContentId::new(1, 0x55, 0x12, Vec::new()).is_some());
    assert!(ContentId::new(1, 0x55, 0x12, vec![0; 65]).is_none());
    assert!(ContentId::new(2, 0x55, 0x12, vec![0; 32]).is_none());
    assert!(ContentId::new(0, DAG_PB, SHA2_256, vec![0; 32]).is_some());
    assert!(ContentId::new(0, DAG_CBOR, SHA2_256, vec![0; 32]).is_none());
    assert!(ContentId::new(0, DAG_PB, 0x13, vec![0; 32]).is_none());
    assert!(ContentId::new(0, DAG_PB, SHA2_256, vec![0; 31]).is_none());
}

#[test]
fn identifier_duplicate_has_the_same_parts() {
    let id = ContentId::new(1, 0x55, 0x13, vec![1, 2, 3]).unwrap();
    let copy = id.duplicate();
    assert!(copy.same_as(&id));
    assert_eq!(copy.version(), 1);
    assert_eq!(copy.codec(), 0x55);
    assert_eq!(copy.hash_code(), 0x13);
    assert_eq!(copy.digest(), &[1, 2, 3]);
    let other = ContentId::new(1, 0x55, 0x13, vec![1, 2, 4]).unwrap();
    assert!(!other.same_as(&id));
    let shorter = ContentId::new(1, 0x55, 0x13, vec![1, 2]).unwrap();
    assert!(!shorter.same_as(&id));
    let tagged = ContentId::new(1, 0x56, 0x13, vec![1, 2, 3]).unwrap();
    assert!(!tagged.same_as(&id));
}

#[test]
fn decoding_bytes_that_hold_no_row_is_malformed() {
    assert!(matches!(decode_row(&[]), Err(CarError::MalformedRow)));
    assert!(matches!(decode_row(&[0xff, 0x00, 0x13]), Err(CarError::MalformedRow)));
    assert!(matches!(decode_row(b"plain text"), Err(CarError::MalformedRow)));
    // a text alone
    assert!(matches!(decode_row(&[0x61, b'a']), Err(CarError::MalformedRow)));
    // an empty table
    assert!(matches!(decode_row(&[0xa0]), Err(CarError::MalformedRow)));
    // a table with the key only
    assert!(matches!(
        decode_row(&[0xa1, 0x63, b'k', b'e', b'y', 0x61, b'a']),
        Err(CarError::MalformedRow)
    ));
}

#[test]
fn decoding_a_row_cut_short_is_malformed() {
    let (_, bytes) = encode_row(&"a".to_string(), &b"123".to_vec()).unwrap();
    for keep in 0..bytes.len() {
        assert!(matches!(decode_row(&bytes[..keep]), Err(CarError::MalformedRow)));
    }
    let mut longer = bytes.clone();
    longer.push(0x00);
    assert!(matches!(decode_row(&longer), Err(CarError::MalformedRow)));
}

#[test]
fn decoding_a_row_with_a_payload_item_that_is_no_byte_is_malformed() {
    // data: [256]
    let bytes = vec![
        0xa2, 0x63, b'k', b'e', b'y', 0x61, b'a', 0x64, b'd', b'a', b't', b'a', 0x81, 0x19, 0x01,
        0x00,
    ];
    assert!(matches!(decode_row(&bytes), Err(CarError::MalformedRow)));
    // data: [-1]
    let bytes = vec![
        0xa2, 0x63, b'k', b'e', b'y', 0x61, b'a', 0x64, b'd', b'a', b't', b'a', 0x81, 0x20,
    ];
    assert!(matches!(decode_row(&bytes), Err(CarError::MalformedRow)));
    // data: a byte string
    let bytes = vec![
        0xa2, 0x63, b'k', b'e', b'y', 0x61, b'a', 0x64, b'd', b'a', b't', b'a', 0x41, 0x31,
    ];
    assert!(matches!(decode_row(&bytes), Err(CarError::MalformedRow)));
    // key: an integer
    let bytes = vec![
        0xa2, 0x63, b'k', b'e', b'y', 0x01, 0x64, b'd', b'a', b't', b'a', 0x81, 0x18, 0x31,
    ];
    assert!(matches!(decode_row(&bytes), Err(CarError::MalformedRow)));
}

#[test]
fn decoding_a_row_looks_at_key_and_data_only() {
    // { "data": [49], "key": "a", "more": null }
    let bytes = vec![
        0xa3, 0x64, b'd', b'a', b't', b'a', 0x81, 0x18, 0x31, 0x63, b'k', b'e', b'y', 0x61, b'a',
        0x64, b'm', b'o', b'r', b'e', 0xf6,
    ];
    assert_eq!(decode_row(&bytes).unwrap(), ("a".to_string(), b"1".to_vec()));
}

#[test]
fn header_bytes_are_a_table_of_roots_and_version() {
    let bytes = encode_header(&vec!["ab".to_string(), "c".to_string()]);
    assert_eq!(
        bytes,
        vec![
            0xa2, 0x65, b'r', b'o', b'o', b't', b's', 0x82, 0x62, b'a', b'b', 0x61, b'c', 0x67,
            b'v', b'e', b'r', b's', b'i', b'o', b'n', 0x01
        ]
    );
    let none = encode_header(&Vec::new());
    assert_eq!(
        none,
        vec![
            0xa2, 0x65, b'r', b'o', b'o', b't', b's', 0x80, 0x67, b'v', b'e', b'r', b's', b'i',
            b'o', b'n', 0x01
        ]
    );
}

#[test]
fn header_round_trip() {
    let roots = vec![KNOWN_TEXT.to_string(), "second".to_string(), "".to_string()];
    let bytes = encode_header(&roots);
    assert_eq!(parse_header(&bytes).unwrap(), (roots, 1));
    let none = encode_header(&Vec::new());
    assert_eq!(parse_header(&none).unwrap(), (Vec::new(), 1));
}

#[test]
fn header_with_another_version_is_read() {
    // { "roots": ["c"], "version": 2^64 - 1 }
    let bytes = vec![
        0xa2, 0x65, b'r', b'o', b'o', b't', b's', 0x81, 0x61, b'c', 0x67, b'v', b'e', b'r', b's',
        b'i', b'o', b'n', 0x1b, 0xff, 0xff, 0xff, 0xff, 0xff, 0xff, 0xff, 0xff,
    ];
    assert_eq!(parse_header(&bytes).unwrap(), (vec!["c".to_string()], u64::MAX));
}

#[test]
fn header_bytes_that_hold_no_header_are_malformed() {
    assert!(matches!(parse_header(&[]), Err(CarError::MalformedHeader)));
    assert!(matches!(parse_header(&[0x01]), Err(CarError::MalformedHeader)));
    assert!(matches!(parse_header(&[0xa0]), Err(CarError::MalformedHeader)));
    // roots only
    assert!(matches!(
        parse_header(&[0xa1, 0x65, b'r', b'o', b'o', b't', b's', 0x80]),
        Err(CarError::MalformedHeader)
    ));
    // a root that is no text
    let bytes = vec![
        0xa2, 0x65, b'r', b'o', b'o', b't', b's', 0x81, 0x01, 0x67, b'v', b'e', b'r', b's', b'i',
        b'o', b'n', 0x01,
    ];
    assert!(matches!(parse_header(&bytes), Err(CarError::MalformedHeader)));
    // a version below zero
    let bytes = vec![
        0xa2, 0x65, b'r', b'o', b'o', b't', b's', 0x80, 0x67, b'v', b'e', b'r', b's', b'i', b'o',
        b'n', 0x20,
    ];
    assert!(matches!(parse_header(&bytes), Err(CarError::MalformedHeader)));
    // the bytes of a row
    let (_, row) = encode_row(&"a".to_string(), &b"1".to_vec()).unwrap();
    assert!(matches!(parse_header(&row), Err(CarError::MalformedHeader)));
}

#[test]
fn cbor_items_are_encoded_in_canonical_order() {
    let item = CborValue::Table(vec![
        (CborValue::Text("bb".to_string()), CborValue::Integer(-1)),
        (CborValue::Text("a".to_string()), CborValue::Bytes(vec![1, 2])),
    ]);
    let bytes = cbor_encode(&item);
    assert_eq!(bytes, vec![0xa2, 0x61, b'a', 0x42, 1, 2, 0x62, b'b', b'b', 0x20]);
    match cbor_decode(&bytes).unwrap() {
        CborValue::Table(entries) => {
            assert_eq!(entries.len(), 2);
            assert!(matches!(&entries[0].0, CborValue::Text(t) if t == "a"));
            assert!(matches!(&entries[0].1, CborValue::Bytes(b) if b == &[1u8, 2]));
            assert!(matches!(&entries[1].0, CborValue::Text(t) if t == "bb"));
            assert!(matches!(&entries[1].1, CborValue::Integer(-1)));
        }
        _ => panic!("a table was encoded"),
    }
}

#[test]
fn cbor_items_that_the_format_does_not_use_are_unsupported() {
    assert!(matches!(cbor_decode(&[0xf6]).unwrap(), CborValue::Unsupported));
    assert!(matches!(cbor_decode(&[0xf5]).unwrap(), CborValue::Unsupported));
    assert!(matches!(
        cbor_decode(&[0xfb, 0x3f, 0xf0, 0, 0, 0, 0, 0, 0]).unwrap(),
        CborValue::Unsupported
    ));
    match cbor_decode(&[0x82, 0xf6, 0x05]).unwrap() {
        CborValue::Array(items) => {
            assert!(matches!(items[0], CborValue::Unsupported));
            assert!(matches!(items[1], CborValue::Integer(5)));
        }
        _ => panic!("an array was decoded"),
    }
    assert!(cbor_decode(&[0x82, 0x01]).is_none());
    assert!(cbor_decode(&[]).is_none());
}

#[test]
fn cbor_integers_at_the_limits_are_encoded() {
    let most = CborValue::Integer(u64::MAX as i128);
    assert_eq!(
        cbor_encode(&most),
        vec![0x1b, 0xff, 0xff, 0xff, 0xff, 0xff, 0xff, 0xff, 0xff]
    );
    let least = CborValue::Integer(-(u64::MAX as i128) - 1);
    assert_eq!(
        cbor_encode(&least),
        vec![0x3b, 0xff, 0xff, 0xff, 0xff, 0xff, 0xff, 0xff, 0xff]
    );
}

#[test]
fn cbor_items_that_cannot_be_encoded_are_told_apart() {
    let fine = CborValue::Array(vec![
        CborValue::Integer(0),
        CborValue::Table(vec![(CborValue::Bytes(vec![1]), CborValue::Text("t".to_string()))]),
    ]);
    assert!(is_encodable(&fine));
    assert_eq!(
        encode_item(&fine).unwrap(),
        vec![0x82, 0x00, 0xa1, 0x41, 0x01, 0x61, b't']
    );
    let too_large = CborValue::Integer(u64::MAX as i128 + 1);
    assert!(!is_encodable(&too_large));
    assert!(encode_item(&too_large).is_none());
    let too_small = CborValue::Integer(-(u64::MAX as i128) - 2);
    assert!(!is_encodable(&too_small));
    let inside = CborValue::Array(vec![CborValue::Integer(1), CborValue::Unsupported]);
    assert!(!is_encodable(&inside));
    assert!(encode_item(&inside).is_none());
    let as_key = CborValue::Table(vec![(CborValue::Unsupported, CborValue::Integer(1))]);
    assert!(!is_encodable(&as_key));
    let as_value = CborValue::Table(vec![(CborValue::Integer(1), too_large)]);
    assert!(!is_encodable(&as_value));
    assert!(encode_item(&as_value).is_none());
    assert!(is_encodable(&CborValue::Array(Vec::new())));
    assert!(is_encodable(&CborValue::Table(Vec::new())));
    assert_eq!(encode_item(&CborValue::Table(Vec::new())).unwrap(), vec![0xa0]);
}

#[test]
fn identifier_must_lie_within_the_bytes_it_was_read_from() {
    let id = ContentId::new(1, DAG_CBOR, SHA2_256, KNOWN_DIGEST.to_vec()).unwrap();
    let (kept, used) = identifier_within(id.duplicate(), 36, 36).unwrap();
    assert!(kept.same_as(&id));
    assert_eq!(used, 36);
    assert!(identifier_within(id.duplicate(), 36, 40).is_some());
    assert!(identifier_within(id.duplicate(), 0, 0).is_some());
    assert!(identifier_within(id.duplicate(), 37, 36).is_none());
    assert!(identifier_within(id, u64::MAX, 36).is_none());
}

#[test]
fn decoding_a_row_in_another_form_is_malformed() {
    // ["a", [49]]
    assert!(matches!(
        decode_row(&[0x82, 0x61, b'a', 0x81, 0x18, 0x31]),
        Err(CarError::MalformedRow)
    ));
    // { 0: "a", 1: [49] }
    assert!(matches!(
        decode_row(&[0xa2, 0x00, 0x61, b'a', 0x01, 0x81, 0x18, 0x31]),
        Err(CarError::MalformedRow)
    ));
    // { h'6b6579': "a", h'64617461': [49] }
    let bytes = vec![
        0xa2, 0x43, b'k', b'e', b'y', 0x61, b'a', 0x44, b'd', b'a', b't', b'a', 0x81, 0x18, 0x31,
    ];
    assert!(matches!(decode_row(&bytes), Err(CarError::MalformedRow)));
    // { "key": h'61', "data": [49] }
    let bytes = vec![
        0xa2, 0x63, b'k', b'e', b'y', 0x41, b'a', 0x64, b'd', b'a', b't', b'a', 0x81, 0x18, 0x31,
    ];
    assert!(matches!(decode_row(&bytes), Err(CarError::MalformedRow)));
}

#[test]
fn decoding_a_row_with_a_key_held_twice_reads_the_last_entry() {
    // { "key": "a", "key": "b", "data": [49] }
    let bytes = vec![
        0xa3, 0x63, b'k', b'e', b'y', 0x61, b'a', 0x63, b'k', b'e', b'y', 0x61, b'b', 0x64, b'd',
        b'a', b't', b'a', 0x81, 0x18, 0x31,
    ];
    assert_eq!(decode_row(&bytes).unwrap(), ("b".to_string(), b"1".to_vec()));
}

#[test]
fn decoding_a_row_passes_over_tags() {
    let (_, row) = encode_row(&"a".to_string(), &b"1".to_vec()).unwrap();
    let mut tagged = vec![0xc1];
    tagged.extend_from_slice(&row);
    assert_eq!(decode_row(&tagged).unwrap(), ("a".to_string(), b"1".to_vec()));
    // { "key": 1("a"), "data": 2([49]) }
    let bytes = vec![
        0xa2, 0x63, b'k', b'e', b'y', 0xc1, 0x61, b'a', 0x64, b'd', b'a', b't', b'a', 0xc2, 0x81,
        0x18, 0x31,
    ];
    assert_eq!(decode_row(&bytes).unwrap(), ("a".to_string(), b"1".to_vec()));
}

#[test]
fn header_in_another_form_is_malformed() {
    // [["c"], 1]
    assert!(matches!(
        parse_header(&[0x82, 0x81, 0x61, b'c', 0x01]),
        Err(CarError::MalformedHeader)
    ));
    // { 0: ["c"], 1: 1 }
    assert!(matches!(
        parse_header(&[0xa2, 0x00, 0x81, 0x61, b'c', 0x01, 0x01]),
        Err(CarError::MalformedHeader)
    ));
    // { "roots": [h'63'], "version": 1 }
    let bytes = vec![
        0xa2, 0x65, b'r', b'o', b'o', b't', b's', 0x81, 0x41, b'c', 0x67, b'v', b'e', b'r', b's',
        b'i', b'o', b'n', 0x01,
    ];
    assert!(matches!(parse_header(&bytes), Err(CarError::MalformedHeader)));
}

#[test]
fn header_with_more_entries_or_a_key_held_twice_is_read() {
    // { "roots": ["c"], "version": 1, "version": 2, "x": null }
    let bytes = vec![
        0xa4, 0x65, b'r', b'o', b'o', b't', b's', 0x81, 0x61, b'c', 0x67, b'v', b'e', b'r', b's',
        b'i', b'o', b'n', 0x01, 0x67, b'v', b'e', b'r', b's', b'i', b'o', b'n', 0x02, 0x61, b'x',
        0xf6,
    ];
    assert_eq!(parse_header(&bytes).unwrap(), (vec!["c".to_string()], 2));
}

#[test]
fn cbor_tables_are_laid_out_by_key_and_keep_the_last_of_equal_keys() {
    let item = CborValue::Table(vec![
        (CborValue::Text("k".to_string()), CborValue::Integer(1)),
        (CborValue::Integer(7), CborValue::Integer(2)),
        (CborValue::Text("k".to_string()), CborValue::Integer(3)),
    ]);
    assert_eq!(cbor_encode(&item), vec![0xa2, 0x07, 0x02, 0x61, b'k', 0x03]);
}
