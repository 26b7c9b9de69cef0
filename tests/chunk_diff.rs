use chunkdiff::diff::diff;
use chunkdiff::fingerprint::{num_chunks, rolling_hash, ChunkError, DIGEST_SEED};

#[test]
fn test_diff() {
    let original = [1, 2, 3, 4, 5, 6, 7, 8, 9];
    let updated = [1, 2, 3, 4, 5, 6, 8, 9, 10];

    let (reused_chunks, synchronized_chunks) = diff(&original, &updated, 3).unwrap();

    // Chunks 0 and 1 match; chunk 2 differs, so it is sent and not reused.
    assert_eq!(reused_chunks, [0, 1]);
    assert_eq!(synchronized_chunks, [8, 9, 10]);
}

#[test]
fn empty_original_changes_everything() {
    let original: [i32; 0] = [];
    let updated = [1, 2, 3, 4];
    let (reused, changed) = diff(&original, &updated, 2).unwrap();
    assert!(reused.is_empty());
    assert_eq!(changed, [1, 2, 3, 4]);
}

#[test]
fn empty_updated_gives_empty_result() {
    let original = [1, 2, 3];
    let updated: [i32; 0] = [];
    let (reused, changed) = diff(&original, &updated, 2).unwrap();
    assert!(reused.is_empty());
    assert!(changed.is_empty());
}

#[test]
fn zero_chunk_size_is_rejected() {
    let data = [1u64, 2, 3];
    assert_eq!(rolling_hash(&data, 0), Err(ChunkError::InvalidArgument));
    assert_eq!(diff(&data, &data, 0), Err(ChunkError::InvalidArgument));
    let empty: [u64; 0] = [];
    assert_eq!(rolling_hash(&empty, 0), Err(ChunkError::InvalidArgument));
    assert_eq!(diff(&empty, &data, 0), Err(ChunkError::InvalidArgument));
}

#[test]
fn fingerprinting_is_deterministic() {
    let data = [9i64, -4, 17, 0, 3, 3, 8];
    let first = rolling_hash(&data, 3).unwrap();
    let second = rolling_hash(&data, 3).unwrap();
    assert_eq!(first, second);
    assert_eq!(first.len(), 3);
}

#[test]
fn fingerprint_exact_values() {
    assert_eq!(rolling_hash(&[5u64], 4).unwrap(), vec![12638147618137026400u64]);
    assert_eq!(rolling_hash(&[1u64, 2, 3], 3).unwrap(), vec![15035938162879559083u64]);
    assert_eq!(rolling_hash(&[-1i32], 1).unwrap(), vec![5808589858502755950u64]);
    assert_eq!(DIGEST_SEED, 14695981039346656037u64);
}

#[test]
fn empty_sequence_has_no_fingerprints() {
    let empty: [u8; 0] = [];
    assert!(rolling_hash(&empty, 5).unwrap().is_empty());
}

#[test]
fn no_state_carries_between_chunks() {
    // The same items give the same fingerprint wherever their chunk stands.
    let data = [1u32, 2, 7, 7, 1, 2];
    let fps = rolling_hash(&data, 2).unwrap();
    assert_eq!(fps.len(), 3);
    assert_eq!(fps[0], fps[2]);
    assert_ne!(fps[0], fps[1]);
    assert_eq!(rolling_hash(&[1u32, 2], 2).unwrap(), vec![fps[0]]);
}

#[test]
fn last_chunk_may_be_short() {
    let data = [1u16, 2, 3, 4, 5, 6, 7];
    assert_eq!(num_chunks(7, 3), 3);
    assert_eq!(num_chunks(6, 3), 2);
    assert_eq!(num_chunks(0, 3), 0);
    assert_eq!(num_chunks(2, 5), 1);
    let fps = rolling_hash(&data, 3).unwrap();
    assert_eq!(fps.len(), 3);
    assert_eq!(fps[2], rolling_hash(&[7u16], 3).unwrap()[0]);
}

#[test]
fn longer_updated_sends_extra_chunks() {
    let original = [1, 2];
    let updated = [1, 2, 3, 4, 5];
    let (reused, changed) = diff(&original, &updated, 2).unwrap();
    assert_eq!(reused, [0]);
    assert_eq!(changed, [3, 4, 5]);
}

#[test]
fn shifted_chunks_are_not_realigned() {
    let original = [1u8, 2, 3, 4];
    let updated = [3u8, 4, 1, 2];
    let (reused, changed) = diff(&original, &updated, 2).unwrap();
    assert!(reused.is_empty());
    assert_eq!(changed, [3, 4, 1, 2]);
}

#[test]
fn short_last_chunks_compare_by_length() {
    // The last chunks are [5] and [5, 6]: different lengths, so not reused.
    let original = [1i64, 2, 3, 4, 5];
    let updated = [1i64, 2, 3, 4, 5, 6];
    let (reused, changed) = diff(&original, &updated, 2).unwrap();
    assert_eq!(reused, [0, 1]);
    assert_eq!(changed, [5, 6]);
}

#[test]
fn chunk_size_larger_than_input() {
    let original = [1usize, 2, 3];
    let same = [1usize, 2, 3];
    let (reused, changed) = diff(&original, &same, 100).unwrap();
    assert_eq!(reused, [0]);
    assert!(changed.is_empty());
    let other = [1usize, 2, 4];
    let (reused, changed) = diff(&original, &other, usize::MAX).unwrap();
    assert!(reused.is_empty());
    assert_eq!(changed, [1, 2, 4]);
}

#[test]
fn changed_chunks_keep_their_order() {
    let original = [0i16, 0, 0, 0, 0, 0];
    let updated = [1i16, 2, 0, 0, 3, 4];
    let (reused, changed) = diff(&original, &updated, 2).unwrap();
    assert_eq!(reused, [1]);
    assert_eq!(changed, [1, 2, 3, 4]);
}
