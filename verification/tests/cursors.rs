use comparer_rust::cursor::{chunk_offset, chunk_starts, InterleaveCursor, SharedCursor};

#[test]
fn interleave_cursor_walks_its_own_progression() {
    let mut cursor = InterleaveCursor::new(1, 4);
    assert_eq!(cursor.claim(), 1);
    assert_eq!(cursor.claim(), 5);
    assert_eq!(cursor.claim(), 9);

    let mut lone = InterleaveCursor::new(0, 1);
    assert_eq!(lone.claim(), 0);
    assert_eq!(lone.claim(), 1);
    assert_eq!(lone.claim(), 2);
}

#[test]
fn chunk_offset_maps_index_to_offset() {
    assert_eq!(chunk_offset(0, 50000), Some(0));
    assert_eq!(chunk_offset(3, 50000), Some(150000));
    assert_eq!(chunk_offset(usize::MAX, 2), None);
}

#[test]
fn shared_cursor_hands_out_consecutive_ranges() {
    let mut cursor = SharedCursor::new();
    assert_eq!(cursor.claim(50000), (0, 50000));
    assert_eq!(cursor.claim(50000), (50000, 100000));
    assert_eq!(cursor.claim(10), (100000, 100010));
}

#[test]
fn chunk_starts_cover_the_identifier_space() {
    assert_eq!(chunk_starts(100000, 50000), vec![0, 50000, 100000]);
    assert_eq!(chunk_starts(99999, 50000), vec![0, 50000]);
    assert_eq!(chunk_starts(0, 1), vec![0]);
    assert_eq!(chunk_starts(5, 10), vec![0]);
    assert_eq!(chunk_starts(10, 10), vec![0, 10]);
}
