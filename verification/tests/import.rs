use mononoke::blobimport::{
    bookmark_step, is_import_from_beginning, select_changesets, stale_step, BookmarkStep,
    BOOKMARK_CHUNK_SIZE,
};
use mononoke::hash::NodeHash;
use mononoke::streaming::{decimal_text, file_header, response_header};

fn hash(n: u8) -> NodeHash {
    NodeHash { bytes: [n; 20] }
}

fn source() -> Vec<NodeHash> {
    (1..=6).map(hash).collect()
}

#[test]
fn import_takes_all_changesets_by_default() {
    assert_eq!(select_changesets(&source(), None, None, None), source());
}

#[test]
fn import_skips_and_limits() {
    assert_eq!(
        select_changesets(&source(), None, Some(2), None),
        vec![hash(3), hash(4), hash(5), hash(6)]
    );
    assert_eq!(
        select_changesets(&source(), None, None, Some(2)),
        vec![hash(1), hash(2)]
    );
    assert_eq!(
        select_changesets(&source(), None, Some(1), Some(3)),
        vec![hash(2), hash(3), hash(4)]
    );
    assert_eq!(
        select_changesets(&source(), None, Some(4), Some(10)),
        vec![hash(5), hash(6)]
    );
    assert_eq!(select_changesets(&source(), None, Some(6), None), vec![]);
    assert_eq!(select_changesets(&source(), None, Some(7), Some(1)), vec![]);
    assert_eq!(select_changesets(&source(), None, Some(0), Some(0)), vec![]);
}

#[test]
fn import_of_a_named_changeset() {
    assert_eq!(select_changesets(&source(), Some(hash(9)), None, None), vec![hash(9)]);
    assert_eq!(select_changesets(&source(), Some(hash(9)), Some(1), None), vec![]);
    assert_eq!(select_changesets(&source(), Some(hash(9)), None, Some(0)), vec![]);
    assert_eq!(select_changesets(&source(), Some(hash(9)), Some(0), Some(5)), vec![hash(9)]);
}

#[test]
fn import_from_the_beginning() {
    assert!(is_import_from_beginning(None, None));
    assert!(!is_import_from_beginning(Some(hash(1)), None));
    assert!(!is_import_from_beginning(None, Some(0)));
    assert!(!is_import_from_beginning(Some(hash(1)), Some(3)));
}

#[test]
fn bookmark_falls_back_to_its_stale_target() {
    assert_eq!(bookmark_step(hash(1), true, Some(hash(2))), BookmarkStep::Point(hash(1)));
    assert_eq!(bookmark_step(hash(1), true, None), BookmarkStep::Point(hash(1)));
    assert_eq!(bookmark_step(hash(1), false, Some(hash(2))), BookmarkStep::CheckStale(hash(2)));
    assert_eq!(bookmark_step(hash(1), false, None), BookmarkStep::Skip);
    assert_eq!(stale_step(hash(2), true), BookmarkStep::Point(hash(2)));
    assert_eq!(stale_step(hash(2), false), BookmarkStep::Skip);
    assert_eq!(BOOKMARK_CHUNK_SIZE, 100);
}

#[test]
fn numbers_in_decimal() {
    assert_eq!(decimal_text(0), b"0".to_vec());
    assert_eq!(decimal_text(7), b"7".to_vec());
    assert_eq!(decimal_text(10), b"10".to_vec());
    assert_eq!(decimal_text(1234567890), b"1234567890".to_vec());
    assert_eq!(decimal_text(u64::MAX as u128), b"18446744073709551615".to_vec());
    assert_eq!(
        decimal_text(u128::MAX),
        b"340282366920938463463374607431768211455".to_vec()
    );
}

#[test]
fn head_of_a_streaming_clone() {
    assert_eq!(
        response_header(100, 2345),
        vec![b"0\n".to_vec(), b"2 2445\n".to_vec()]
    );
    assert_eq!(response_header(0, 0), vec![b"0\n".to_vec(), b"2 0\n".to_vec()]);
    if usize::MAX as u128 == u64::MAX as u128 {
        assert_eq!(
            response_header(usize::MAX, usize::MAX)[1],
            b"2 36893488147419103230\n".to_vec()
        );
    }
    assert_eq!(
        file_header(&b"00changelog.i".to_vec(), 100),
        b"00changelog.i\x00100\n".to_vec()
    );
    assert_eq!(file_header(&b"00changelog.d".to_vec(), 0), b"00changelog.d\x000\n".to_vec());
}
