use mutstr::buffer::MutStrPtr;
use mutstr::pattern::{found_at, strip_all, strip_first_n};

#[test]
fn allocate_gives_zeros() {
    let block = MutStrPtr::allocate(4);
    assert_eq!(block.size(), 4);
    assert_eq!(block.as_slice(), &[0u8, 0, 0, 0]);
    assert_eq!(MutStrPtr::allocate(0).size(), 0);
}

#[test]
fn write_copies_into_place() {
    let mut block = MutStrPtr::allocate(5);
    block.write(1, b"abc");
    assert_eq!(block.as_slice(), &[0, b'a', b'b', b'c', 0]);
    block.write(3, b"xy");
    assert_eq!(block.as_slice(), &[0, b'a', b'b', b'x', b'y']);
    block.write(5, b"");
    assert_eq!(block.as_slice(), &[0, b'a', b'b', b'x', b'y']);
}

#[test]
fn realloc_keeps_what_fits() {
    let mut block = MutStrPtr::allocate(3);
    block.write(0, b"abc");
    block.realloc(5);
    assert_eq!(block.as_slice(), &[b'a', b'b', b'c', 0, 0]);
    assert_eq!(block.size(), 5);
    block.realloc(2);
    assert_eq!(block.as_slice(), b"ab");
    assert_eq!(block.size(), 2);
    block.realloc(2);
    assert_eq!(block.as_slice(), b"ab");
    block.realloc(0);
    assert_eq!(block.size(), 0);
    assert_eq!(block.layout().size(), 0);
    assert_eq!(block.layout().align(), 1);
}

#[test]
fn grow_appends() {
    let mut block = MutStrPtr::allocate(0);
    block.grow(b"ab");
    block.grow(b"");
    block.grow(b"cde");
    assert_eq!(block.as_slice(), b"abcde");
    assert_eq!(block.size(), 5);
    assert_eq!(&*block.into_boxed_bytes(), b"abcde");
}

#[test]
fn as_mut_slice_edits_in_place() {
    let mut block = MutStrPtr::allocate(2);
    block.as_mut_slice()[1] = 9;
    assert_eq!(block.as_slice(), &[0, 9]);
}

#[test]
fn found_at_compares_in_place() {
    assert!(found_at(b"abcabc", b"abc", 0));
    assert!(found_at(b"abcabc", b"abc", 3));
    assert!(!found_at(b"abcabc", b"abc", 1));
    assert!(!found_at(b"abcabc", b"abc", 4));
    assert!(!found_at(b"abcabc", b"abc", 6));
    assert!(!found_at(b"abcabc", b"abc", usize::MAX));
    assert!(!found_at(b"ab", b"abc", 0));
    assert!(found_at(b"ab", b"", 0));
    assert!(found_at(b"ab", b"", 2));
    assert!(!found_at(b"ab", b"", 3));
}

#[test]
fn strip_first_n_drops_from_the_left() {
    assert_eq!(strip_first_n(b"a-b-c", b"-", 0), b"a-b-c");
    assert_eq!(strip_first_n(b"a-b-c", b"-", 1), b"ab-c");
    assert_eq!(strip_first_n(b"a-b-c", b"-", 2), b"abc");
    assert_eq!(strip_first_n(b"a-b-c", b"-", 3), b"abc");
    assert_eq!(strip_first_n(b"aaaaa", b"aa", 1), b"aaa");
    assert_eq!(strip_first_n(b"aaaaa", b"aa", 2), b"a");
    assert_eq!(strip_first_n(b"aaaaa", b"aa", 9), b"a");
    assert_eq!(strip_first_n(b"abc", b"", 9), b"abc");
    assert_eq!(strip_first_n(b"", b"abc", 9), b"");
    assert_eq!(strip_first_n(b"abc", b"abc", 1), b"");
}

#[test]
fn strip_all_drops_everything_found() {
    assert_eq!(strip_all(b"a-b-c", b"-"), b"abc");
    assert_eq!(strip_all(b"aaaaa", b"aa"), b"a");
    assert_eq!(strip_all(b"ababa", b"aba"), b"ba");
    assert_eq!(strip_all(b"abc", b""), b"abc");
    assert_eq!(strip_all(b"abc", b"abcd"), b"abc");
    assert_eq!(strip_all(&[1, 2, 3, 2, 3, 4], &[2, 3]), &[1, 4]);
}
