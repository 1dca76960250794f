use packstore::blob::header::{read_header, u32_from_le};
use packstore::blob::file_writer::FileWriter;
use packstore::blob::model::FinishedPack;
use packstore::blob::packer::{size_limit_from_size, PackError, Packer, DEFAULT_TREE_SIZE};
use packstore::blob::repacker::Repacker;
use packstore::blob::BlobType;
use packstore::crypto::{hash, CryptoError, CryptoKey};
use packstore::id::Id;
use packstore::index::Indexer;
use packstore::repo::{IndexBlob, IndexPack};
use std::time::{Duration, SystemTime};

/// A toy key: a marker byte, then the data with every byte flipped by a
/// mask. It refuses plaintexts of one length, to make encryption fail.
#[derive(Clone)]
struct MaskKey {
    mask: u8,
    refuse_len: Option<usize>,
}

fn key() -> MaskKey {
    MaskKey { mask: 0x5a, refuse_len: None }
}

impl CryptoKey for MaskKey {
    fn encrypt_data(&self, data: &[u8]) -> Result<Vec<u8>, CryptoError> {
        if self.refuse_len == Some(data.len()) {
            return Err(CryptoError);
        }
        let mut out = vec![0xEE];
        out.extend(data.iter().map(|b| b ^ self.mask));
        Ok(out)
    }

    fn decrypt_data(&self, data: &[u8]) -> Result<Vec<u8>, CryptoError> {
        match data.split_first() {
            Some((0xEE, rest)) => Ok(rest.iter().map(|b| b ^ self.mask).collect()),
            _ => Err(CryptoError),
        }
    }
}

fn id(n: u32) -> Id {
    let mut bytes = [0u8; 32];
    bytes[..4].copy_from_slice(&n.to_le_bytes());
    bytes[31] = 1;
    Id::new(bytes)
}

fn take_all(packer: &mut Packer<MaskKey>) -> Vec<FinishedPack> {
    let mut packs = Vec::new();
    while let Some(pack) = packer.take_finished() {
        packs.push(pack);
    }
    packs
}

#[test]
fn new_packer_is_empty() {
    let packer = Packer::new(key(), BlobType::Data, None, 1000, 77);
    assert_eq!(packer.size(), 0);
    assert_eq!(packer.count(), 0);
    assert_eq!(packer.total_size(), 77);
    assert_eq!(packer.finished_count(), 0);
    assert!(!packer.has(&id(1)));
}

#[test]
fn add_counts_what_it_writes() {
    let indexer = Indexer::new();
    let mut packer = Packer::new(key(), BlobType::Data, None, 1000, 0);
    assert_eq!(packer.add(b"hello", &id(1), &indexer), Ok(6));
    assert_eq!(packer.size(), 6);
    assert_eq!(packer.count(), 1);
    assert_eq!(packer.add(b"", &id(2), &indexer), Ok(1));
    assert_eq!(packer.add(b"worlds", &id(3), &indexer), Ok(7));
    assert_eq!(packer.size(), 6 + 1 + 7);
    assert_eq!(packer.count(), 3);
    assert!(packer.has(&id(1)) && packer.has(&id(2)) && packer.has(&id(3)));
    assert!(!packer.has(&id(4)));
    assert_eq!(packer.finished_count(), 0);
}

#[test]
fn saved_pack_reads_back() {
    let indexer = Indexer::new();
    let key = key();
    let mut packer = Packer::new(key.clone(), BlobType::Tree, None, 1000, 0);
    let blobs: [&[u8]; 4] = [b"first", b"", b"the third blob", b"4"];
    for (n, data) in blobs.iter().enumerate() {
        assert_eq!(packer.add(data, &id(n as u32), &indexer), Ok(data.len() as u64 + 1));
    }
    assert_eq!(packer.save(), Ok(()));
    assert_eq!(packer.size(), 0);
    assert_eq!(packer.count(), 0);
    let pack = packer.take_finished().unwrap();
    assert!(packer.take_finished().is_none());

    // the layout: blobs, encrypted header, length of the encrypted header
    let body: usize = blobs.iter().map(|b| b.len() + 1).sum();
    let header_len = 1 + 4 * 37;
    assert_eq!(pack.data.len(), body + header_len + 4);
    assert_eq!(u32_from_le(&pack.data, pack.data.len() - 4) as usize, header_len);

    // the name: the digest of all the bytes
    assert_eq!(pack.index.id, hash(&pack.data));
    assert_eq!(pack.index.time, None);

    // the header describes the blobs in the order in which they were added
    let read = read_header(&key, &pack.data).unwrap();
    assert_eq!(read, pack.index.blobs);
    assert_eq!(read.len(), 4);
    let mut offset = 0u32;
    for (n, data) in blobs.iter().enumerate() {
        assert_eq!(
            read[n],
            IndexBlob {
                id: id(n as u32),
                tpe: BlobType::Tree,
                offset,
                length: data.len() as u32 + 1,
                uncompressed_length: None,
            }
        );
        let start = offset as usize;
        let end = start + read[n].length as usize;
        assert_eq!(key.decrypt_data(&pack.data[start..end]).unwrap(), data.to_vec());
        offset += read[n].length;
    }
    assert_eq!(offset as usize, body);
}

#[test]
fn second_add_of_a_blob_returns_zero() {
    let indexer = Indexer::new();
    let mut packer = Packer::new(key(), BlobType::Data, None, 1000, 0);
    assert_eq!(packer.add(b"blob", &id(1), &indexer), Ok(5));
    assert_eq!(packer.add(b"blob", &id(1), &indexer), Ok(0));
    assert_eq!(packer.add(b"other data, same name", &id(1), &indexer), Ok(0));
    assert_eq!(packer.size(), 5);
    assert_eq!(packer.count(), 1);
    assert_eq!(packer.total_size(), 0);
    assert_eq!(packer.finished_count(), 0);
}

#[test]
fn second_add_after_the_pack_was_registered_returns_zero() {
    let mut indexer = Indexer::new();
    // a size limit of 1: every blob finishes a pack
    let mut packer = Packer::new(key(), BlobType::Data, None, 1, 0);
    assert_eq!(packer.add_with_sizelimit(b"blob", &id(1), 1, &indexer), Ok(5));
    assert!(!packer.has(&id(1)));
    let pack = packer.take_finished().unwrap();
    indexer.add(pack.index);
    assert_eq!(packer.add_with_sizelimit(b"blob", &id(1), 1, &indexer), Ok(0));
    assert_eq!(packer.size(), 0);
    assert_eq!(packer.count(), 0);
    assert_eq!(packer.finished_count(), 0);
}

#[test]
fn second_add_while_the_pack_is_being_stored_adds_again() {
    let indexer = Indexer::new();
    let mut packer = Packer::new(key(), BlobType::Data, None, 1, 0);
    assert_eq!(packer.add_with_sizelimit(b"blob", &id(1), 1, &indexer), Ok(5));
    // the pack is finished and not registered: the blob is in neither place
    assert_eq!(packer.finished_count(), 1);
    assert_eq!(packer.add_with_sizelimit(b"blob", &id(1), 1, &indexer), Ok(5));
    assert_eq!(packer.finished_count(), 2);
}

#[test]
fn add_with_the_answer_of_the_index() {
    let mut packer = Packer::new(key(), BlobType::Data, None, 1000, 0);
    // the index has the blob: nothing is added
    assert_eq!(packer.add_given(b"blob", &id(1), true), Ok(0));
    assert_eq!(packer.add_with_sizelimit_given(b"blob", &id(1), 1000, true), Ok(0));
    assert_eq!(packer.size(), 0);
    assert_eq!(packer.count(), 0);
    // the index does not have it: it is added once
    assert_eq!(packer.add_given(b"blob", &id(1), false), Ok(5));
    assert_eq!(packer.add_given(b"blob", &id(1), false), Ok(0));
    assert_eq!(packer.add_with_sizelimit_given(b"more", &id(2), 1000, false), Ok(5));
    assert_eq!(packer.add_with_sizelimit_given(b"more", &id(2), 1000, false), Ok(0));
    assert_eq!(packer.size(), 10);
    assert_eq!(packer.count(), 2);
    // the size limit is that of the call
    assert_eq!(packer.add_with_sizelimit_given(b"x", &id(3), 12, false), Ok(2));
    assert_eq!(packer.finished_count(), 1);
}

#[test]
fn clock_is_asked_only_for_a_new_blob() {
    let indexer = Indexer::new();
    let mut packer = Packer::new(key(), BlobType::Data, None, 1000, 0);
    assert_eq!(packer.add(b"blob", &id(1), &indexer), Ok(5));
    packer.set_created(SystemTime::now() + Duration::from_secs(10_000));
    // a known blob: no clock error
    assert_eq!(packer.add(b"blob", &id(1), &indexer), Ok(0));
    assert_eq!(packer.add_given(b"other", &id(2), true), Ok(0));
    // a new blob with which the size decides: no clock error
    assert_eq!(packer.add_with_sizelimit(b"x", &id(2), 7, &indexer), Ok(2));
    assert_eq!(packer.finished_count(), 1);
    // a new blob with which the clock decides
    packer.set_created(SystemTime::now() + Duration::from_secs(10_000));
    assert_eq!(packer.add(b"y", &id(3), &indexer), Err(PackError::Clock));
    assert_eq!(packer.add_payload(b"y", &id(3), None, 1000), Err(PackError::Clock));
    assert_eq!(packer.size(), 0);
    assert_eq!(packer.count(), 0);
}

#[test]
fn empty_blob_in_an_empty_pack_is_not_saved() {
    let mut packer = Packer::new(key(), BlobType::Data, None, 1000, 0);
    // the pack is old, and nothing has been written: there is nothing to save
    assert_eq!(packer.add_raw_aged(b"", &id(1), None, 1000, 301), Ok(()));
    assert_eq!(packer.finished_count(), 0);
    assert_eq!(packer.count(), 1);
    assert_eq!(packer.size(), 0);
    assert_eq!(packer.add_raw_aged(b"x", &id(2), None, 1000, 301), Ok(()));
    assert_eq!(packer.finished_count(), 1);
    let pack = packer.take_finished().unwrap();
    assert_eq!(pack.index.blobs.len(), 2);
    assert_eq!(pack.index.blobs[0].length, 0);
    assert_eq!(pack.index.blobs[1].offset, 0);
}

#[test]
fn empty_pack_is_not_saved() {
    let indexer = Indexer::new();
    let mut packer = Packer::new(key(), BlobType::Data, None, 1000, 5);
    assert_eq!(packer.finalize(), Ok(()));
    assert_eq!(packer.finished_count(), 0);
    assert!(packer.take_finished().is_none());
    assert_eq!(packer.total_size(), 5);
    assert_eq!(indexer.packs.len(), 0);
    assert_eq!(packer.save(), Ok(()));
    assert!(packer.take_finished().is_none());
}

#[test]
fn ten_thousand_blobs_make_one_pack() {
    let indexer = Indexer::new();
    let key = key();
    let mut packer = Packer::new(key.clone(), BlobType::Data, None, DEFAULT_TREE_SIZE, 0);
    for n in 0..9_999u32 {
        assert_eq!(packer.add(&[n as u8], &id(n), &indexer), Ok(2));
    }
    assert_eq!(packer.count(), 9_999);
    assert_eq!(packer.size(), 2 * 9_999);
    assert_eq!(packer.finished_count(), 0);
    assert_eq!(packer.add(&[0], &id(9_999), &indexer), Ok(2));
    assert_eq!(packer.count(), 0);
    assert_eq!(packer.size(), 0);
    assert_eq!(packer.finished_count(), 1);
    let pack = packer.take_finished().unwrap();
    assert_eq!(pack.index.blobs.len(), 10_000);
    assert_eq!(pack.data.len(), 20_000 + 1 + 37 * 10_000 + 4);
    assert_eq!(read_header(&key, &pack.data).unwrap(), pack.index.blobs);
    for (n, blob) in pack.index.blobs.iter().enumerate() {
        assert_eq!(blob.id, id(n as u32));
        assert_eq!(blob.offset, 2 * n as u32);
    }
    assert_eq!(packer.finalize(), Ok(()));
    assert_eq!(packer.finished_count(), 0);
}

#[test]
fn oversized_blob_makes_one_pack() {
    let size_limit = 100u32;
    let mut packer = Packer::new(key(), BlobType::Data, None, size_limit, 0);
    let data = vec![7u8; size_limit as usize + 1];
    assert_eq!(packer.add_raw(&data, &id(1), None, size_limit), Ok(()));
    assert_eq!(packer.finished_count(), 1);
    let pack = packer.take_finished().unwrap();
    assert_eq!(
        pack.index.blobs,
        vec![IndexBlob {
            id: id(1),
            tpe: BlobType::Data,
            offset: 0,
            length: 101,
            uncompressed_length: None,
        }]
    );
    assert_eq!(&pack.data[..101], &data[..]);
    assert_eq!(packer.size(), 0);
    assert_eq!(packer.finalize(), Ok(()));
    assert!(packer.take_finished().is_none());
}

#[test]
fn blob_that_reaches_the_limit_triggers_a_save() {
    let mut packer = Packer::new(key(), BlobType::Data, None, 0, 0);
    assert_eq!(packer.add_raw(&[1; 99], &id(1), None, 100), Ok(()));
    assert_eq!(packer.finished_count(), 0);
    assert_eq!(packer.add_raw(&[2; 1], &id(2), None, 100), Ok(()));
    assert_eq!(packer.finished_count(), 1);
    assert_eq!(packer.take_finished().unwrap().index.blobs.len(), 2);
}

#[test]
fn old_pack_is_saved() {
    let indexer = Indexer::new();
    let mut packer = Packer::new(key(), BlobType::Data, None, 1000, 0);
    packer.set_created(SystemTime::now() - Duration::from_secs(301));
    assert_eq!(packer.add(b"x", &id(1), &indexer), Ok(2));
    assert_eq!(packer.finished_count(), 1);
    assert_eq!(packer.size(), 0);
    // the new pack is young
    assert_eq!(packer.add(b"y", &id(2), &indexer), Ok(2));
    assert_eq!(packer.finished_count(), 1);
    assert_eq!(packer.size(), 2);
}

#[test]
fn age_decides_at_300_seconds() {
    let mut packer = Packer::new(key(), BlobType::Data, None, 1000, 0);
    assert_eq!(packer.add_raw_aged(b"x", &id(1), None, 1000, 299), Ok(()));
    assert_eq!(packer.finished_count(), 0);
    assert_eq!(packer.add_raw_aged(b"x", &id(2), None, 1000, 300), Ok(()));
    assert_eq!(packer.finished_count(), 1);
    assert_eq!(packer.add_raw_aged(b"x", &id(3), None, 1000, 301), Ok(()));
    assert_eq!(packer.finished_count(), 2);
}

#[test]
fn clock_that_was_set_back_is_an_error() {
    let mut packer = Packer::new(key(), BlobType::Data, None, 1000, 0);
    packer.set_created(SystemTime::now() + Duration::from_secs(10_000));
    assert_eq!(packer.add_raw(b"x", &id(1), None, 1000), Err(PackError::Clock));
    assert_eq!(packer.size(), 0);
    assert_eq!(packer.count(), 0);
    // where the size decides, the clock is not asked
    assert_eq!(packer.add_raw(b"x", &id(1), None, 1), Ok(()));
    assert_eq!(packer.finished_count(), 1);
}

#[test]
fn dedup_across_packers() {
    let mut indexer = Indexer::new();
    let mut a = Packer::new(key(), BlobType::Data, None, 1000, 0);
    let mut b = Packer::new(key(), BlobType::Data, None, 1000, 0);
    assert_eq!(a.add(b"X", &id(42), &indexer), Ok(2));
    assert_eq!(a.finalize(), Ok(()));
    let pack = a.take_finished().unwrap();
    indexer.add_stored_at(pack.index, 1_700_000_000);
    assert!(indexer.has(&id(42)));
    assert_eq!(b.add(b"X", &id(42), &indexer), Ok(0));
    assert_eq!(b.size(), 0);
    assert_eq!(b.count(), 0);
    assert_eq!(b.add(b"Y", &id(43), &indexer), Ok(2));
}

#[test]
fn failing_key_fails_the_add() {
    let indexer = Indexer::new();
    let failing = MaskKey { mask: 1, refuse_len: Some(3) };
    let mut packer = Packer::new(failing, BlobType::Data, None, 1000, 0);
    assert_eq!(packer.add(b"abc", &id(1), &indexer), Err(PackError::Crypto));
    assert_eq!(packer.size(), 0);
    assert_eq!(packer.count(), 0);
    assert!(!packer.has(&id(1)));
    assert_eq!(packer.add(b"abcd", &id(1), &indexer), Ok(5));
}

#[test]
fn failing_key_fails_the_save() {
    // the header of one blob has 37 bytes
    let failing = MaskKey { mask: 1, refuse_len: Some(37) };
    let mut packer = Packer::new(failing, BlobType::Data, None, 1000, 0);
    assert_eq!(packer.add_raw_aged(b"abc", &id(1), None, 1000, 0), Ok(()));
    assert_eq!(packer.save(), Err(PackError::Crypto));
    assert_eq!(packer.size(), 3);
    assert_eq!(packer.count(), 1);
    assert_eq!(packer.finished_count(), 0);
    assert_eq!(packer.write_header(), Err(PackError::Crypto));
    assert_eq!(packer.size(), 3);
}

#[test]
fn payload_is_encrypted_and_added() {
    let key = key();
    let mut packer = Packer::new(key.clone(), BlobType::Tree, None, 1000, 0);
    assert_eq!(packer.add_payload(b"abc", &id(1), Some(9), 1000), Ok(4));
    assert_eq!(packer.size(), 4);
    // known or not, the payload is added
    assert_eq!(packer.add_payload(b"abc", &id(1), None, 1000), Ok(4));
    assert_eq!(packer.count(), 2);
    assert_eq!(packer.save(), Ok(()));
    let pack = packer.take_finished().unwrap();
    assert_eq!(pack.index.blobs[0].uncompressed_length, Some(9));
    assert_eq!(pack.index.blobs[1].uncompressed_length, None);
    assert_eq!(key.decrypt_data(&pack.data[4..8]).unwrap(), b"abc".to_vec());
}

#[test]
fn sealing_names_the_pack() {
    let mut packer = Packer::new(key(), BlobType::Data, None, 1000, 10);
    assert_eq!(packer.add_raw_aged(&[1, 2, 3], &id(1), None, 1000, 0), Ok(()));
    assert_eq!(packer.write_encrypted_header(&[7, 7]), Ok(()));
    packer.seal(id(99));
    assert_eq!(packer.size(), 0);
    assert_eq!(packer.count(), 0);
    assert_eq!(packer.total_size(), 10 + 3 + 37 + 4);
    let pack = packer.take_finished().unwrap();
    assert_eq!(pack.index.id, id(99));
    assert_eq!(pack.data, vec![1, 2, 3, 7, 7, 2, 0, 0, 0]);
    assert_eq!(pack.index.blobs.len(), 1);
}

#[test]
fn write_data_and_header() {
    let key = key();
    let mut packer = Packer::new(key.clone(), BlobType::Data, None, 1000, 0);
    assert_eq!(packer.write_data(b"abc"), Ok(3));
    assert_eq!(packer.size(), 3);
    assert_eq!(packer.count(), 0);
    assert_eq!(packer.write_encrypted_header(&[9, 8]), Ok(()));
    assert_eq!(packer.size(), 3 + 2 + 4);
    assert_eq!(packer.write_header(), Ok(()));
    // the header of no blobs is empty; its encryption has one byte
    assert_eq!(packer.size(), 9 + 1 + 4);
    assert_eq!(packer.save(), Ok(()));
    let pack = packer.take_finished().unwrap();
    assert_eq!(&pack.data[..3 + 2 + 4 + 1 + 4], &[97, 98, 99, 9, 8, 2, 0, 0, 0, 0xEE, 1, 0, 0, 0]);
}

#[test]
fn saving_counts_the_size_of_the_pack() {
    let mut packer = Packer::new(key(), BlobType::Data, None, 1000, 1_000_000);
    assert_eq!(packer.add_raw_aged(&[0; 10], &id(1), None, 1000, 0), Ok(()));
    assert_eq!(packer.add_raw_aged(&[0; 20], &id(2), Some(99), 1000, 0), Ok(()));
    assert_eq!(packer.total_size(), 1_000_000);
    assert_eq!(packer.save(), Ok(()));
    assert_eq!(packer.total_size(), 1_000_000 + 10 + 20 + 37 + 41 + 4);
    let pack = packer.take_finished().unwrap();
    assert_eq!(pack.index.pack_size(), 10 + 20 + 37 + 41 + 4);

    let mut full = Packer::new(key(), BlobType::Data, None, 1000, u64::MAX - 5);
    assert_eq!(full.add_raw_aged(&[0; 10], &id(1), None, 1000, 0), Ok(()));
    assert_eq!(full.save(), Ok(()));
    assert_eq!(full.total_size(), u64::MAX);
}

#[test]
fn size_limit_follows_the_repository_size() {
    let indexer = Indexer::new();
    // 256 * sqrt(100) = 2560 is the limit
    assert_eq!(size_limit_from_size(100, 10), 2560);
    let mut packer = Packer::new(key(), BlobType::Data, None, 10, 100);
    assert_eq!(packer.add(&[0; 2000], &id(1), &indexer), Ok(2001));
    assert_eq!(packer.finished_count(), 0);
    assert_eq!(packer.add(&[0; 558], &id(2), &indexer), Ok(559));
    assert_eq!(packer.finished_count(), 1);
}

#[test]
fn compressed_blobs_record_their_length() {
    let indexer = Indexer::new();
    let key = key();
    let mut packer = Packer::new(key.clone(), BlobType::Data, Some(3), 100_000, 0);
    let data = vec![b'a'; 5000];
    let added = packer.add(&data, &id(1), &indexer).unwrap();
    assert!(added < 200);
    assert_eq!(packer.add(b"", &id(2), &indexer).map(|n| n > 0), Ok(true));
    assert_eq!(packer.save(), Ok(()));
    let pack = packer.take_finished().unwrap();
    let first = pack.index.blobs[0];
    assert_eq!(first.length as u64, added);
    assert_eq!(first.uncompressed_length, Some(5000));
    // an empty blob has no uncompressed length to record
    assert_eq!(pack.index.blobs[1].uncompressed_length, None);
    let compressed = key.decrypt_data(&pack.data[..first.length as usize]).unwrap();
    assert_ne!(compressed, data);
    assert_eq!(zstd::decode_all(&compressed[..]).unwrap(), data);
    assert_eq!(read_header(&key, &pack.data).unwrap(), pack.index.blobs);
}

#[test]
fn finished_packs_are_taken_oldest_first() {
    let mut packer = Packer::new(key(), BlobType::Data, None, 1, 0);
    for n in 0..3u32 {
        assert_eq!(packer.add_raw(&[n as u8; 4], &id(n), None, 1), Ok(()));
    }
    let packs = take_all(&mut packer);
    assert_eq!(packs.len(), 3);
    for (n, pack) in packs.iter().enumerate() {
        assert_eq!(pack.index.blobs[0].id, id(n as u32));
        assert_eq!(pack.index.blobs[0].offset, 0);
    }
}

#[test]
fn repacker_adds_fast_and_anew() {
    let indexer = Indexer::new();
    let key = key();
    let mut repacker = Repacker::new(key.clone(), BlobType::Data, None, 50, 0);
    assert_eq!(repacker.size_limit(), 50);
    let old = IndexBlob {
        id: id(1),
        tpe: BlobType::Data,
        offset: 1234,
        length: 20,
        uncompressed_length: Some(64),
    };
    assert_eq!(repacker.add_fast(&[5; 20], &old), Ok(()));
    let other = IndexBlob { id: id(2), ..old };
    assert_eq!(repacker.add(&[6; 29], &other, &indexer), Ok(()));
    // 20 + 30 bytes reach the limit
    let pack = repacker.take_finished().unwrap();
    assert_eq!(
        pack.index.blobs,
        vec![
            IndexBlob { offset: 0, ..old },
            IndexBlob { id: id(2), offset: 20, length: 30, uncompressed_length: None, ..old },
        ]
    );
    assert_eq!(&pack.data[..20], &[5; 20]);
    assert_eq!(key.decrypt_data(&pack.data[20..50]).unwrap(), vec![6; 29]);
    // a known blob is not added anew
    let mut indexer = indexer;
    indexer.add(pack.index);
    assert_eq!(repacker.add(&[6; 29], &other, &indexer), Ok(()));
    assert_eq!(repacker.add_given(&[7; 5], &IndexBlob { id: id(3), ..old }, true), Ok(()));
    assert_eq!(repacker.add_given(&[7; 5], &IndexBlob { id: id(4), ..old }, false), Ok(()));
    assert_eq!(repacker.finalize(), Ok(()));
    let pack = repacker.take_finished().unwrap();
    assert_eq!(pack.index.blobs.len(), 1);
    assert_eq!(pack.index.blobs[0].id, id(4));
    assert_eq!(pack.index.blobs[0].length, 6);
    assert_eq!(repacker.finalize(), Ok(()));
    assert!(repacker.take_finished().is_none());
}

#[test]
fn repacker_limit_comes_from_the_repository_size() {
    let repacker = Repacker::new(key(), BlobType::Tree, None, DEFAULT_TREE_SIZE, 1 << 40);
    assert_eq!(repacker.size_limit(), 268_435_456);
}

#[test]
fn file_writer_holds_one_task() {
    let mut writer: FileWriter<&str> = FileWriter::new();
    assert_eq!(writer.add("first"), None);
    assert_eq!(writer.add("second"), Some("first"));
    assert_eq!(writer.add("third"), Some("second"));
    assert_eq!(writer.finalize(), Some("third"));
    assert_eq!(writer.finalize(), None);
    assert_eq!(writer.add("fourth"), None);
}

#[test]
fn indexer_knows_the_blobs_of_its_packs() {
    let mut indexer = Indexer::new();
    assert!(!indexer.has(&id(1)));
    let mut pack = IndexPack::new();
    pack.add(id(1), BlobType::Data, 0, 5, None);
    pack.add(id(2), BlobType::Data, 5, 6, Some(10));
    pack.set_id(id(100));
    assert!(pack.has(&id(2)) && !pack.has(&id(3)));
    indexer.add_stored_at(pack.clone(), 1_700_000_000);
    assert!(indexer.has(&id(1)) && indexer.has(&id(2)));
    assert!(!indexer.has(&id(3)) && !indexer.has(&id(100)));
    assert_eq!(indexer.packs[0].time, Some(1_700_000_000));
    assert_eq!(indexer.packs[0].blobs, pack.blobs);

    let mut other = IndexPack::default();
    other.add(id(3), BlobType::Tree, 0, 1, None);
    indexer.add_stored_at(other, chrono::Local::now().timestamp());
    assert!(indexer.has(&id(3)) && indexer.has(&id(1)));
    assert_eq!(indexer.packs.len(), 2);
    // the time is that of the system clock: after 2020
    assert!(indexer.packs[1].time.unwrap() > 1_577_836_800);
}
