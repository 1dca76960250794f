use packstore::blob::header::{
    decode_header, encode_entry, encode_header, locate_header, read_header, u32_from_le,
    u32_to_le, HeaderError,
};
use packstore::blob::BlobType;
use packstore::crypto::{hash, CryptoError, CryptoKey};
use packstore::id::Id;
use packstore::repo::IndexBlob;

struct XorKey(u8);

impl CryptoKey for XorKey {
    fn encrypt_data(&self, data: &[u8]) -> Result<Vec<u8>, CryptoError> {
        let mut out = vec![0xEE];
        out.extend(data.iter().map(|b| b ^ self.0));
        Ok(out)
    }

    fn decrypt_data(&self, data: &[u8]) -> Result<Vec<u8>, CryptoError> {
        match data.split_first() {
            Some((0xEE, rest)) => Ok(rest.iter().map(|b| b ^ self.0).collect()),
            _ => Err(CryptoError),
        }
    }
}

fn blob(n: u8, tpe: BlobType, offset: u32, length: u32, uncompressed: Option<u32>) -> IndexBlob {
    IndexBlob { id: Id::new([n; 32]), tpe, offset, length, uncompressed_length: uncompressed }
}

fn four_blobs() -> Vec<IndexBlob> {
    vec![
        blob(1, BlobType::Data, 0, 10, None),
        blob(2, BlobType::Tree, 10, 300, Some(1000)),
        blob(3, BlobType::Data, 310, 0x01020304, Some(0xfffffffe)),
        blob(4, BlobType::Tree, 310 + 0x01020304, 1, None),
    ]
}

#[test]
fn little_endian_numbers() {
    assert_eq!(u32_to_le(0), [0, 0, 0, 0]);
    assert_eq!(u32_to_le(1), [1, 0, 0, 0]);
    assert_eq!(u32_to_le(0x01020304), [4, 3, 2, 1]);
    assert_eq!(u32_to_le(u32::MAX), [255, 255, 255, 255]);
    assert_eq!(u32_from_le(&[9, 4, 3, 2, 1, 9], 1), 0x01020304);
    assert_eq!(u32_from_le(&[255, 255, 255, 255], 0), u32::MAX);
    for x in [0u32, 255, 256, 65535, 65536, 1 << 24, 0xdeadbeef] {
        assert_eq!(u32_from_le(&u32_to_le(x), 0), x);
        assert_eq!(u32_to_le(x), x.to_le_bytes());
    }
}

#[test]
fn entry_layout_without_uncompressed_length() {
    let mut out = vec![0xaa];
    encode_entry(&mut out, &blob(7, BlobType::Data, 5, 0x0a0b0c0d, None));
    let mut expected = vec![0xaa, 0b00, 0x0d, 0x0c, 0x0b, 0x0a];
    expected.extend_from_slice(&[7; 32]);
    assert_eq!(out, expected);

    let mut out = Vec::new();
    encode_entry(&mut out, &blob(8, BlobType::Tree, 5, 1, None));
    let mut expected = vec![0b01, 1, 0, 0, 0];
    expected.extend_from_slice(&[8; 32]);
    assert_eq!(out, expected);
}

#[test]
fn entry_layout_with_uncompressed_length() {
    let mut out = Vec::new();
    encode_entry(&mut out, &blob(7, BlobType::Data, 5, 2, Some(0x0100)));
    let mut expected = vec![0b10, 2, 0, 0, 0, 0, 1, 0, 0];
    expected.extend_from_slice(&[7; 32]);
    assert_eq!(out, expected);

    let mut out = Vec::new();
    encode_entry(&mut out, &blob(9, BlobType::Tree, 5, 2, Some(3)));
    let mut expected = vec![0b11, 2, 0, 0, 0, 3, 0, 0, 0];
    expected.extend_from_slice(&[9; 32]);
    assert_eq!(out, expected);
}

#[test]
fn header_round_trip_two_entries() {
    let blobs = vec![
        blob(1, BlobType::Data, 0, 10, None),
        blob(2, BlobType::Tree, 10, 300, Some(1000)),
    ];
    let bytes = encode_header(&blobs);
    assert_eq!(bytes.len(), 37 + 41);
    assert_eq!(bytes[0], 0);
    assert_eq!(&bytes[1..5], &[10, 0, 0, 0]);
    assert_eq!(bytes[37], 3);
    assert_eq!(&bytes[38..42], &[44, 1, 0, 0]);
    assert_eq!(&bytes[42..46], &[232, 3, 0, 0]);
    assert_eq!(decode_header(&bytes), Some(blobs));
}

#[test]
fn header_round_trip_keeps_the_order() {
    let blobs = four_blobs();
    assert_eq!(decode_header(&encode_header(&blobs)), Some(blobs));
}

#[test]
fn empty_header_has_no_blobs() {
    assert_eq!(encode_header(&Vec::new()), Vec::<u8>::new());
    assert_eq!(decode_header(&[]), Some(Vec::new()));
}

#[test]
fn decoding_gives_the_offsets_that_the_lengths_imply() {
    let mut blobs = four_blobs();
    let bytes = encode_header(&blobs);
    for b in blobs.iter_mut() {
        b.offset = 77;
    }
    // the offsets are not part of the header
    assert_eq!(encode_header(&blobs), bytes);
    assert_eq!(decode_header(&bytes), Some(four_blobs()));
}

#[test]
fn decoding_refuses_what_is_no_header() {
    let bytes = encode_header(&four_blobs());
    // a cut entry
    assert_eq!(decode_header(&bytes[..bytes.len() - 1]), None);
    assert_eq!(decode_header(&bytes[..1]), None);
    assert_eq!(decode_header(&bytes[..36]), None);
    assert_eq!(decode_header(&bytes[..37 + 40]), None);
    // an unknown tag
    let mut bad = bytes.clone();
    bad[0] = 4;
    assert_eq!(decode_header(&bad), None);
    // an uncompressed length of zero
    let mut bad = bytes.clone();
    bad[42..46].copy_from_slice(&[0, 0, 0, 0]);
    assert_eq!(decode_header(&bad), None);
}

#[test]
fn decoding_refuses_blobs_that_end_beyond_the_limit() {
    let blobs = vec![
        blob(1, BlobType::Data, 0, u32::MAX, None),
        blob(2, BlobType::Data, 0, 1, None),
    ];
    assert_eq!(decode_header(&encode_header(&blobs)), None);
    let blobs = vec![blob(1, BlobType::Data, 0, u32::MAX, None)];
    assert_eq!(decode_header(&encode_header(&blobs)), Some(blobs));
}

#[test]
fn xor_key_round_trip() {
    let key = XorKey(0x5a);
    let c = key.encrypt_data(b"abc").unwrap();
    assert_eq!(key.decrypt_data(&c).unwrap(), b"abc".to_vec());
}

#[test]
fn header_is_found_by_the_last_four_bytes() {
    assert_eq!(locate_header(&[1, 2, 3, 2, 0, 0, 0]), Some((1, 3)));
    assert_eq!(locate_header(&[0, 0, 0, 0]), Some((0, 0)));
    assert_eq!(locate_header(&[9, 9, 9, 3, 0, 0, 0]), Some((0, 3)));
    assert_eq!(locate_header(&[9, 9, 9, 4, 0, 0, 0]), None);
    assert_eq!(locate_header(&[9, 9, 9, 0, 0, 0, 1]), None);
    assert_eq!(locate_header(&[0, 0, 0]), None);
    assert_eq!(locate_header(&[]), None);
}

#[test]
fn read_header_of_a_pack_built_by_hand() {
    let key = XorKey(0x33);
    let blobs = vec![
        blob(1, BlobType::Tree, 0, 3, None),
        blob(2, BlobType::Tree, 3, 2, Some(9)),
    ];
    let encrypted = key.encrypt_data(&encode_header(&blobs)).unwrap();
    let mut pack = vec![1, 2, 3, 4, 5];
    pack.extend_from_slice(&encrypted);
    pack.extend_from_slice(&u32_to_le(encrypted.len() as u32));
    assert_eq!(locate_header(&pack), Some((5, 5 + encrypted.len())));
    assert_eq!(read_header(&key, &pack), Ok(blobs));
}

#[test]
fn read_header_says_what_went_wrong() {
    let key = XorKey(0x33);
    assert_eq!(read_header(&key, &[1, 2, 3]), Err(HeaderError::Missing));
    assert_eq!(read_header(&key, &[1, 2, 3, 9, 0, 0, 0]), Err(HeaderError::Missing));
    // not a ciphertext of this key
    assert_eq!(read_header(&key, &[1, 2, 3, 3, 0, 0, 0]), Err(HeaderError::Crypto));
    // a ciphertext of something that is no header
    let encrypted = key.encrypt_data(&[0, 1, 2]).unwrap();
    let mut pack = encrypted.clone();
    pack.extend_from_slice(&u32_to_le(encrypted.len() as u32));
    assert_eq!(read_header(&key, &pack), Err(HeaderError::Malformed));
}

#[test]
fn sha256_of_empty_input() {
    assert_eq!(
        hash(b"").to_hex(),
        "e3b0c44298fc1c149afbf4c8996fb92427ae41e4649b934ca495991b7852b855"
    );
}

#[test]
fn sha256_of_abc() {
    assert_eq!(
        hash(b"abc").to_hex(),
        "ba7816bf8f01cfea414140de5dae2223b00361a396177a9cb410ff61f20015ad"
    );
}
