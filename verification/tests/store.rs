use cubesat_protocols::entry::{same_text, FileEntry};
use cubesat_protocols::error::{Cause, ErrorKind, StoreError};
use cubesat_protocols::parsers::Malformation;
use cubesat_protocols::ranges::are_well_formed;
use cubesat_protocols::store::ContentStore;

fn sorted(mut v: Vec<u32>) -> Vec<u32> {
    v.sort();
    v
}

#[test]
fn a_fresh_entry_knows_nothing() {
    let entry = FileEntry::new();
    assert_eq!(entry.num_chunks(), None);
    assert_eq!(entry.mode(), None);
    assert_eq!(entry.have_chunks(), Vec::<u32>::new());
    assert!(!entry.is_complete());
    assert_eq!(entry.contents(), None);
    assert_eq!(entry.chunk(0), None);
}

#[test]
fn chunks_do_not_count_before_the_count_is_known() {
    let mut entry = FileEntry::new();
    assert_eq!(entry.put_chunk(2, vec![1]), Ok(()));
    assert_eq!(entry.chunk(2), Some(&vec![1]));
    assert!(!entry.holds(2));
    assert_eq!(entry.have_chunks(), Vec::<u32>::new());
    assert_eq!(entry.missing_ranges(4), vec![(0, 3)]);
    assert_eq!(entry.describe(4, None), Ok(()));
    assert!(entry.holds(2));
    assert_eq!(entry.have_chunks(), vec![2]);
    assert_eq!(entry.missing_ranges(4), vec![(0, 1), (3, 3)]);
}

#[test]
fn put_chunk_checks_the_index() {
    let mut entry = FileEntry::new();
    assert_eq!(entry.describe(3, Some(0o600)), Ok(()));
    assert_eq!(entry.put_chunk(3, vec![1]), Err(StoreError::IndexOutOfRange));
    assert_eq!(entry.put_chunk(u32::MAX, vec![1]), Err(StoreError::IndexOutOfRange));
    assert_eq!(entry.put_chunk(2, vec![1]), Ok(()));
    assert_eq!(entry.have_chunks(), vec![2]);
}

#[test]
fn put_chunk_is_idempotent_and_detects_collisions() {
    let mut entry = FileEntry::new();
    assert_eq!(entry.describe(1, None), Ok(()));
    assert_eq!(entry.put_chunk(0, vec![1, 2, 3]), Ok(()));
    assert_eq!(entry.put_chunk(0, vec![1, 2, 3]), Ok(()));
    assert_eq!(entry.put_chunk(0, vec![1, 2, 4]), Err(StoreError::HashCollision));
    assert_eq!(entry.put_chunk(0, vec![1, 2]), Err(StoreError::HashCollision));
    assert_eq!(entry.chunk(0), Some(&vec![1, 2, 3]));
    assert_eq!(entry.have_chunks(), vec![0]);
}

#[test]
fn the_count_changes_only_before_the_first_chunk() {
    let mut entry = FileEntry::new();
    assert_eq!(entry.describe(3, Some(0o600)), Ok(()));
    assert_eq!(entry.describe(5, Some(0o644)), Ok(()));
    assert_eq!(entry.num_chunks(), Some(5));
    assert_eq!(entry.mode(), Some(0o644));
    assert_eq!(entry.put_chunk(4, vec![9]), Ok(()));
    assert_eq!(entry.describe(5, None), Ok(()));
    assert_eq!(entry.mode(), Some(0o644));
    assert_eq!(entry.describe(6, None), Err(StoreError::CountChanged));
    assert_eq!(entry.num_chunks(), Some(5));
}

#[test]
fn the_first_count_must_cover_the_chunks_stored() {
    let mut entry = FileEntry::new();
    assert_eq!(entry.put_chunk(7, vec![9]), Ok(()));
    assert_eq!(entry.describe(7, None), Err(StoreError::IndexOutOfRange));
    assert_eq!(entry.num_chunks(), None);
    assert_eq!(entry.describe(8, None), Ok(()));
    assert_eq!(entry.num_chunks(), Some(8));
}

#[test]
fn missing_ranges_are_the_coalesced_complement() {
    let mut entry = FileEntry::new();
    assert_eq!(entry.describe(10, None), Ok(()));
    assert_eq!(entry.missing_ranges(10), vec![(0, 9)]);
    for i in [0u32, 1, 4, 7, 8] {
        assert_eq!(entry.put_chunk(i, vec![i as u8]), Ok(()));
    }
    assert_eq!(entry.missing_ranges(10), vec![(2, 3), (5, 6), (9, 9)]);
    assert_eq!(entry.missing_ranges(9), vec![(2, 3), (5, 6)]);
    assert_eq!(entry.missing_ranges(2), Vec::<(u32, u32)>::new());
    assert_eq!(entry.missing_ranges(0), Vec::<(u32, u32)>::new());
    assert!(are_well_formed(&entry.missing_ranges(10), 10));
    for i in [2u32, 3, 5, 6, 9] {
        assert_eq!(entry.put_chunk(i, vec![i as u8]), Ok(()));
    }
    assert_eq!(entry.missing_ranges(10), Vec::<(u32, u32)>::new());
    assert!(entry.is_complete());
    assert_eq!(sorted(entry.have_chunks()), (0..10).collect::<Vec<u32>>());
}

#[test]
fn nak_ranges_must_ascend_within_the_file() {
    assert!(are_well_formed(&vec![], 0));
    assert!(are_well_formed(&vec![(0, 0)], 1));
    assert!(are_well_formed(&vec![(1, 1), (3, 3)], 5));
    assert!(are_well_formed(&vec![(0, 1), (2, 4)], 5));
    assert!(!are_well_formed(&vec![(0, 5)], 5));
    assert!(!are_well_formed(&vec![(2, 1)], 5));
    assert!(!are_well_formed(&vec![(3, 3), (1, 1)], 5));
    assert!(!are_well_formed(&vec![(0, 2), (2, 4)], 5));
    assert!(!are_well_formed(&vec![(0, 0)], 0));
}

#[test]
fn the_order_of_arrival_does_not_matter() {
    let chunks: Vec<(u32, Vec<u8>)> =
        vec![(0, vec![0]), (1, vec![1, 1]), (2, vec![2]), (3, vec![3, 3, 3])];
    let mut in_order = FileEntry::new();
    assert_eq!(in_order.describe(4, None), Ok(()));
    for (i, b) in chunks.iter() {
        assert_eq!(in_order.put_chunk(*i, b.clone()), Ok(()));
    }
    let mut shuffled = FileEntry::new();
    assert_eq!(shuffled.describe(4, None), Ok(()));
    for k in [2usize, 0, 3, 2, 1, 0, 3] {
        assert_eq!(shuffled.put_chunk(chunks[k].0, chunks[k].1.clone()), Ok(()));
    }
    assert_eq!(shuffled.put_chunk(4, vec![4]), Err(StoreError::IndexOutOfRange));
    assert_eq!(sorted(shuffled.have_chunks()), sorted(in_order.have_chunks()));
    for i in 0..5 {
        assert_eq!(shuffled.chunk(i), in_order.chunk(i));
    }
    assert_eq!(shuffled.contents(), in_order.contents());
    assert_eq!(shuffled.contents(), Some(vec![0, 1, 1, 2, 3, 3, 3]));
}

#[test]
fn split_cuts_a_file_into_chunks() {
    let data: Vec<u8> = (0..10).collect();
    let entry = FileEntry::split(&data, 4, Some(0o644)).unwrap();
    assert_eq!(entry.num_chunks(), Some(3));
    assert_eq!(entry.mode(), Some(0o644));
    assert_eq!(entry.chunk(0), Some(&vec![0, 1, 2, 3]));
    assert_eq!(entry.chunk(1), Some(&vec![4, 5, 6, 7]));
    assert_eq!(entry.chunk(2), Some(&vec![8, 9]));
    assert_eq!(entry.chunk(3), None);
    assert!(entry.is_complete());
    assert_eq!(entry.contents(), Some(data));
}

#[test]
fn the_number_of_chunks_is_the_size_rounded_up() {
    let count = |len: usize, size: u32| {
        FileEntry::split(&vec![7u8; len], size, None).unwrap().num_chunks()
    };
    assert_eq!(count(0, 4), Some(0));
    assert_eq!(count(1, 4), Some(1));
    assert_eq!(count(4, 4), Some(1));
    assert_eq!(count(5, 4), Some(2));
    assert_eq!(count(8, 4), Some(2));
    assert_eq!(count(9, 1), Some(9));
    assert_eq!(count(3, 4096), Some(1));
}

#[test]
fn the_empty_file_is_complete_without_chunks() {
    let entry = FileEntry::split(&[], 4, None).unwrap();
    assert_eq!(entry.num_chunks(), Some(0));
    assert!(entry.is_complete());
    assert_eq!(entry.contents(), Some(vec![]));
    assert_eq!(entry.missing_ranges(0), Vec::<(u32, u32)>::new());
    assert_eq!(entry.check("e3b0", "e3b0"), Ok(()));
}

#[test]
fn assemble_wants_every_chunk_and_the_right_digest() {
    let mut entry = FileEntry::new();
    assert_eq!(entry.describe(2, None), Ok(()));
    assert_eq!(entry.put_chunk(1, vec![3, 4]), Ok(()));
    assert_eq!(entry.assemble("abcd", "abcd"), Err(StoreError::MissingChunk));
    assert_eq!(entry.check("abcd", "abcd"), Err(StoreError::MissingChunk));
    assert_eq!(entry.put_chunk(0, vec![1, 2]), Ok(()));
    assert_eq!(entry.assemble("abcd", "abce"), Err(StoreError::HashMismatch));
    assert_eq!(entry.check("abcd", "abce"), Err(StoreError::HashMismatch));
    assert_eq!(entry.check("abcd", "abcd"), Ok(()));
    assert_eq!(entry.assemble("abcd", "abcd"), Ok(vec![1, 2, 3, 4]));
}

#[test]
fn same_text_compares_strings() {
    assert!(same_text("", ""));
    assert!(same_text("abcd", "abcd"));
    assert!(!same_text("abcd", "abce"));
    assert!(!same_text("abcd", "abc"));
}

#[test]
fn the_store_keeps_files_apart() {
    let mut store = ContentStore::new();
    assert_eq!(store.have_chunks("a"), Vec::<u32>::new());
    assert_eq!(store.missing_ranges("a", 3), vec![(0, 2)]);
    assert_eq!(store.num_chunks("a"), None);
    assert!(!store.is_complete("a"));
    assert_eq!(store.describe("a", 3, None), Ok(()));
    assert_eq!(store.describe("b", 2, Some(0o600)), Ok(()));
    assert_eq!(store.put_chunk("a", 1, vec![1]), Ok(()));
    assert_eq!(store.put_chunk("b", 1, vec![2]), Ok(()));
    assert_eq!(store.put_chunk("b", 2, vec![2]), Err(StoreError::IndexOutOfRange));
    assert_eq!(store.put_chunk("a", 2, vec![3]), Ok(()));
    assert_eq!(sorted(store.have_chunks("a")), vec![1, 2]);
    assert_eq!(store.have_chunks("b"), vec![1]);
    assert_eq!(store.have_chunks("c"), Vec::<u32>::new());
    assert_eq!(store.missing_ranges("a", 3), vec![(0, 0)]);
    assert_eq!(store.missing_ranges("b", 2), vec![(0, 0)]);
    assert_eq!(store.chunk("a", 1), Some(&vec![1]));
    assert_eq!(store.chunk("b", 1), Some(&vec![2]));
    assert_eq!(store.chunk("c", 1), None);
    assert!(store.holds("a", 2));
    assert!(!store.holds("b", 0));
    assert_eq!(store.num_chunks("b"), Some(2));
    assert_eq!(store.entry("b").unwrap().mode(), Some(0o600));
    assert!(store.entry("c").is_none());
}

#[test]
fn two_payloads_under_one_hash_collide() {
    let mut store = ContentStore::new();
    assert_eq!(store.describe("h", 1, None), Ok(()));
    assert_eq!(store.put_chunk("h", 0, vec![1, 2, 3]), Ok(()));
    assert_eq!(store.put_chunk("h", 0, vec![3, 2, 1]), Err(StoreError::HashCollision));
    assert_eq!(store.chunk("h", 0), Some(&vec![1, 2, 3]));
    assert_eq!(StoreError::HashCollision.kind(), ErrorKind::HashCollision);
}

#[test]
fn stage_stores_a_file_once() {
    let mut store = ContentStore::new();
    let data: Vec<u8> = (0..9).collect();
    assert_eq!(store.stage("h", &data, Some(0o644), 4), Ok(3));
    assert_eq!(store.num_chunks("h"), Some(3));
    assert!(store.is_complete("h"));
    assert_eq!(store.contents("h"), Some(data.clone()));
    assert_eq!(store.chunk("h", 2), Some(&vec![8]));
    assert_eq!(store.assemble("h", "h"), Ok(data.clone()));
    assert_eq!(store.check("h", "x"), Err(StoreError::HashMismatch));
    // staged again with as many chunks: nothing is written
    let other: Vec<u8> = (10..19).collect();
    assert_eq!(store.stage("h", &other, None, 4), Ok(3));
    assert_eq!(store.contents("h"), Some(data.clone()));
    assert_eq!(store.entry("h").unwrap().mode(), Some(0o644));
    // staged again with another number of chunks: turned down
    assert_eq!(store.stage("h", &data, None, 2), Err(StoreError::CountChanged));
    assert_eq!(store.contents("h"), Some(data));
}

#[test]
fn stage_takes_the_empty_file() {
    let mut store = ContentStore::new();
    assert_eq!(store.stage("e", &[], None, 4096), Ok(0));
    assert!(store.is_complete("e"));
    assert_eq!(store.contents("e"), Some(vec![]));
    assert_eq!(store.missing_ranges("e", 0), Vec::<(u32, u32)>::new());
}

#[test]
fn unknown_files_cannot_be_assembled() {
    let store = ContentStore::new();
    assert_eq!(store.contents("h"), None);
    assert_eq!(store.assemble("h", "h"), Err(StoreError::MissingChunk));
    assert_eq!(store.check("h", "h"), Err(StoreError::MissingChunk));
}

#[test]
fn errors_have_kinds_and_reasons() {
    assert_eq!(StoreError::IndexOutOfRange.kind(), ErrorKind::ProtocolViolation);
    assert_eq!(StoreError::CountChanged.kind(), ErrorKind::ProtocolViolation);
    assert_eq!(StoreError::HashMismatch.kind(), ErrorKind::HashMismatch);
    assert_eq!(StoreError::MissingChunk.kind(), ErrorKind::IoFault);
    assert_eq!(StoreError::TooLarge.kind(), ErrorKind::IoFault);
    assert_eq!(Cause::BadMessage(Malformation::ChunkInvalidData).reason(), "bad chunk");
    assert_eq!(Cause::BadMessage(Malformation::NakUnpairedIndex).reason(), "bad nak");
    assert_eq!(Cause::BadMessage(Malformation::NakInvalidIndex).reason(), "bad nak");
    assert_eq!(Cause::BadMessage(Malformation::ExportNoHash).reason(), "bad message");
    assert_eq!(Cause::BadMessage(Malformation::ExportNoHash).kind(), ErrorKind::Malformed);
    assert_eq!(Cause::ProtocolViolation.reason(), "protocol violation");
    assert_eq!(Cause::HashMismatch.reason(), "hash mismatch");
    assert_eq!(Cause::HashCollision.reason(), "hash collision");
    assert_eq!(Cause::IoFault.reason(), "io fault");
    assert_eq!(Cause::Timeout.reason(), "timeout");
    assert_eq!(Cause::Canceled.reason(), "canceled");
    assert_eq!(Cause::Canceled.kind(), ErrorKind::Canceled);
    assert_eq!(Cause::Timeout.kind(), ErrorKind::Timeout);
}
