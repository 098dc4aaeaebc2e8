use my_redis::buffer::{MyBuffer, INITIAL_CAPACITY};

#[test]
fn new_buffer_is_empty_with_full_free_space() {
    let mut b = MyBuffer::new();
    assert!(b.is_empty());
    assert_eq!(b.get_bytes(), &[] as &[u8]);
    let free = b.get_free_space();
    assert_eq!(free.len(), INITIAL_CAPACITY);
    assert!(free.iter().all(|&x| x == 0));
}

#[test]
fn read_then_commit_appends_in_order() {
    let mut b = MyBuffer::new();
    {
        let free = b.get_free_space();
        free[..3].copy_from_slice(b"abc");
    }
    assert_eq!(b.advance_cursor(3), Ok(()));
    {
        let free = b.get_free_space();
        assert_eq!(free.len(), INITIAL_CAPACITY - 3);
        free[..2].copy_from_slice(b"de");
    }
    assert_eq!(b.advance_cursor(2), Ok(()));
    assert_eq!(b.get_bytes(), b"abcde");
    assert!(!b.is_empty());
}

#[test]
fn advance_cursor_refuses_to_reach_the_end() {
    let mut b = MyBuffer::new();
    assert_eq!(b.advance_cursor(INITIAL_CAPACITY), Err("i is too big."));
    assert_eq!(b.advance_cursor(INITIAL_CAPACITY - 1), Ok(()));
    assert_eq!(b.get_bytes().len(), INITIAL_CAPACITY - 1);
    assert_eq!(b.advance_cursor(1), Err("i is too big."));
    assert_eq!(b.get_bytes().len(), INITIAL_CAPACITY - 1);
}

#[test]
fn advance_drops_the_consumed_prefix_and_shrinks_storage() {
    let mut b = MyBuffer::new();
    b.get_free_space()[..5].copy_from_slice(b"hello");
    b.advance_cursor(5).unwrap();
    assert_eq!(b.advance(6), Err("i > cursor"));
    assert_eq!(b.get_bytes(), b"hello");
    assert_eq!(b.advance(2), Ok(()));
    assert_eq!(b.get_bytes(), b"llo");
    // The storage lost the two bytes for good.
    assert_eq!(b.get_free_space().len(), INITIAL_CAPACITY - 5);
    assert_eq!(b.advance(3), Ok(()));
    assert!(b.is_empty());
    assert_eq!(b.get_free_space().len(), INITIAL_CAPACITY - 5);
}

#[test]
fn advance_zero_changes_nothing() {
    let mut b = MyBuffer::new();
    assert_eq!(b.advance(0), Ok(()));
    assert!(b.is_empty());
    assert_eq!(b.get_free_space().len(), INITIAL_CAPACITY);
}
