use packstore::blob::packer::{
    size_limit_from_size, DEFAULT_TREE_SIZE, MAX_AGE_SECS, MAX_COUNT, MAX_SIZE, SIZE_GROW_FACTOR,
};
use packstore::blob::repacker::Repacker;
use packstore::crypto::{CryptoError, CryptoKey};

struct NoKey;

impl CryptoKey for NoKey {
    fn encrypt_data(&self, data: &[u8]) -> Result<Vec<u8>, CryptoError> {
        Ok(data.to_vec())
    }

    fn decrypt_data(&self, data: &[u8]) -> Result<Vec<u8>, CryptoError> {
        Ok(data.to_vec())
    }
}

#[test]
fn constants_have_their_values() {
    assert_eq!(DEFAULT_TREE_SIZE, 4 * 1024 * 1024);
    assert_eq!(MAX_SIZE, 4_273_995_776);
    assert_eq!(SIZE_GROW_FACTOR, 256);
    assert_eq!(MAX_COUNT, 10_000);
    assert_eq!(MAX_AGE_SECS, 300);
}

#[test]
fn empty_repository_gets_the_default() {
    assert_eq!(size_limit_from_size(0, DEFAULT_TREE_SIZE), DEFAULT_TREE_SIZE);
    assert_eq!(size_limit_from_size(0, 0), 0);
    assert_eq!(size_limit_from_size(0, MAX_SIZE), MAX_SIZE);
}

#[test]
fn limit_is_256_times_the_square_root() {
    assert_eq!(size_limit_from_size(1 << 40, DEFAULT_TREE_SIZE), 268_435_456);
    assert_eq!(size_limit_from_size(1_000_000_000_000, 0), 256_000_000);
    assert_eq!(size_limit_from_size(999_999_999_999, 0), 255_999_744);
    assert_eq!(size_limit_from_size(1, 0), 256);
    assert_eq!(size_limit_from_size(3, 0), 256);
    assert_eq!(size_limit_from_size(4, 0), 512);
}

#[test]
fn small_repository_stays_at_the_default() {
    // 256 * sqrt(268_435_455) = 256 * 16_383 is just below 4 MiB
    assert_eq!(size_limit_from_size(268_435_455, DEFAULT_TREE_SIZE), DEFAULT_TREE_SIZE);
    assert_eq!(size_limit_from_size(268_435_456, DEFAULT_TREE_SIZE), DEFAULT_TREE_SIZE);
    assert_eq!(size_limit_from_size(268_468_225, DEFAULT_TREE_SIZE), 256 * 16_385);
}

#[test]
fn huge_repository_is_capped() {
    let root: u64 = 16_695_296;
    assert_eq!(size_limit_from_size(root * root, 0), MAX_SIZE);
    assert_eq!(size_limit_from_size(root * root - 1, 0), MAX_SIZE - 256);
    assert_eq!(size_limit_from_size((root + 1) * (root + 1), 0), MAX_SIZE);
    assert_eq!(size_limit_from_size(u64::MAX, 0), MAX_SIZE);
    assert_eq!(size_limit_from_size(u64::MAX, MAX_SIZE), MAX_SIZE);
}

#[test]
fn limit_stays_within_its_bounds() {
    let sizes = [0u64, 1, 1000, 1 << 20, 1 << 33, 1 << 50, u64::MAX];
    let defaults = [0u32, 1, DEFAULT_TREE_SIZE, 1 << 30, MAX_SIZE];
    for size in sizes {
        for default_size in defaults {
            let limit = size_limit_from_size(size, default_size);
            assert!(default_size <= limit);
            assert!(limit <= MAX_SIZE);
        }
    }
}

#[test]
fn limit_grows_with_the_repository() {
    let mut last = 0u32;
    let mut size = 0u64;
    for step in 0..2000u64 {
        let limit = size_limit_from_size(size, 1000);
        assert!(limit >= last);
        last = limit;
        size += step * step * 1_000_003;
    }
}

#[test]
fn repacker_computes_the_same_limit() {
    assert_eq!(
        Repacker::<NoKey>::size_limit_from_size(1 << 40, DEFAULT_TREE_SIZE),
        size_limit_from_size(1 << 40, DEFAULT_TREE_SIZE)
    );
}
