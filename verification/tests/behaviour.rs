use ::mutstr::{mutstr, Layout, SliceError};

#[test]
fn bytes_round_trip() {
    let samples: [&[u8]; 5] = [b"", b"abc123", &[0xff, 0x00, 0x80], "ƒoo".as_bytes(), &[0u8; 64]];
    for sample in samples {
        let result = mutstr::from(sample);
        assert_eq!(result.as_bytes(), sample);
        assert_eq!(result.size(), sample.len());
    }
}

#[test]
fn size_follows_content() {
    let mut result = mutstr::from("abc");
    assert_eq!(result.size(), 3);
    result.push(b"123");
    assert_eq!(result.size(), 6);
    assert_eq!(result.size(), result.as_bytes().len());
    result.replace_with(b"a longer piece of content");
    assert_eq!(result.size(), 25);
    assert_eq!(result.size(), result.as_bytes().len());
    result.remove_all("e");
    assert_eq!(result.as_str(), "a longr pic of contnt");
    assert_eq!(result.size(), 21);
    result.remove_first_n(2, " ");
    assert_eq!(result.as_str(), "alongrpic of contnt");
    assert_eq!(result.size(), 19);
    result.clear();
    assert_eq!(result.size(), 0);
    assert_eq!(result.size(), result.as_bytes().len());
}

#[test]
fn push_appends() {
    let mut result = mutstr::from("abc");
    result.push("123".as_bytes());
    assert_eq!(result.as_str(), "abc123");
    assert_eq!(result.size(), 6);
    result.push(b"456");
    assert_eq!(result.as_str(), "abc123456");
    assert_eq!(result.size(), 9);
}

#[test]
fn push_on_empty() {
    let mut result = mutstr::default();
    result.push(b"abc");
    assert_eq!(result.as_bytes(), b"abc");
}

#[test]
fn replace_with_same_length() {
    let mut result = mutstr::from("abc");
    result.replace_with("123".as_bytes());
    assert_eq!(result.as_str(), "123");
    assert_eq!(result.size(), 3);
}

#[test]
fn replace_with_other_length() {
    let mut result = mutstr::from("abc");
    result.replace_with(b"");
    assert_eq!(result.size(), 0);
    assert!(result.is_empty());
    result.replace_with(b"abcdef");
    assert_eq!(result.as_str(), "abcdef");
    assert_eq!(result.size(), 6);
    result.replace_with(b"xy");
    assert_eq!(result.as_str(), "xy");
    assert_eq!(result.size(), 2);
}

#[test]
fn replace_with_on_default() {
    let mut result = mutstr::default();
    result.replace_with("123".as_bytes());
    assert_eq!(result.as_str(), "123");
    result.replace_with(b"abc");
    assert_eq!(result.as_str(), "abc");
}

#[test]
fn remove_all_deletes_every_occurrence() {
    let mut result = mutstr::from("Hello my friend");
    result.remove_all(" friend");
    assert_eq!(result.as_str(), "Hello my");
    let mut result = mutstr::from("friend :) :) :)");
    result.remove_all(" :)");
    assert_eq!(result.as_str(), "friend");
}

#[test]
fn remove_all_does_not_rescan() {
    let mut result = mutstr::from("aaa");
    result.remove_all("aa");
    assert_eq!(result.as_str(), "a");
    let mut result = mutstr::from("aabb");
    result.remove_all("ab");
    assert_eq!(result.as_str(), "ab");
    let mut result = mutstr::from("aaaa");
    result.remove_all("aa");
    assert_eq!(result.as_str(), "");
    assert!(result.is_empty());
}

#[test]
fn remove_all_without_occurrence() {
    let mut result = mutstr::from("Hello my friend");
    result.remove_all("enemy");
    assert_eq!(result.as_str(), "Hello my friend");
    result.remove_all("Hello my friend and more");
    assert_eq!(result.as_str(), "Hello my friend");
}

#[test]
fn remove_with_empty_pattern() {
    let mut result = mutstr::from("abc");
    result.remove_all("");
    assert_eq!(result.as_str(), "abc");
    result.remove_first_n(2, "");
    assert_eq!(result.as_str(), "abc");
    let mut empty = mutstr::default();
    empty.remove_all("");
    assert_eq!(empty.size(), 0);
    empty.remove_all("abc");
    assert_eq!(empty.size(), 0);
}

#[test]
fn remove_first_n_counts() {
    let mut result = mutstr::from("Hello my friend");
    result.remove_first_n(1, " friend");
    assert_eq!(result.as_str(), "Hello my");
    let mut result = mutstr::from("friend :) :) :)");
    result.remove_first_n(2, " :)");
    assert_eq!(result.as_str(), "friend :)");
    let mut result = mutstr::from("a-b-c-d");
    result.remove_first_n(1, "-");
    assert_eq!(result.as_str(), "ab-c-d");
}

#[test]
fn remove_first_n_zero_changes_nothing() {
    let mut result = mutstr::from("Hello my friend");
    result.remove_first_n(0, " friend");
    assert_eq!(result.as_str(), "Hello my friend");
    assert_eq!(result.size(), 15);
}

#[test]
fn remove_first_n_beyond_count_is_remove_all() {
    for n in [3usize, 4, 100, usize::MAX] {
        let mut counted = mutstr::from("a-b-c-d");
        counted.remove_first_n(n, "-");
        let mut all = mutstr::from("a-b-c-d");
        all.remove_all("-");
        assert_eq!(counted.as_bytes(), all.as_bytes());
        assert_eq!(counted.as_str(), "abcd");
    }
}

#[test]
fn remove_agrees_with_str_replace() {
    let hays = ["", "a", "aaa", "abcabcabc", "ƒoo ƒoo ƒoo", "xx-xx-xx", "é€😀é€😀", "aXbXXc"];
    let patterns = ["", "a", "aa", "abc", "ƒ", "o ", "xx", "€", "😀é", "X", "zzz"];
    for hay in hays {
        for pattern in patterns {
            let mut all = mutstr::from(hay);
            all.remove_all(pattern);
            assert_eq!(all.as_str(), hay.replace(pattern, ""));
            for n in 0..5usize {
                let mut counted = mutstr::from(hay);
                counted.remove_first_n(n, pattern);
                assert_eq!(counted.as_str(), hay.replacen(pattern, "", n));
            }
        }
    }
}

#[test]
fn remove_on_bytes_that_are_no_text() {
    let mut result = mutstr::from(&[0xff, b'a', b'b', 0xfe, b'a', b'b'][..]);
    result.remove_all("ab");
    assert_eq!(result.as_bytes(), &[0xff, 0xfe]);
    assert_eq!(result.to_str(), None);
}

#[test]
fn clear_empties() {
    let mut result = mutstr::from("abc");
    assert_eq!(result.size(), 3);
    result.clear();
    assert_eq!(result.size(), 0);
    assert_eq!(result.is_empty(), true);
    assert_eq!(result.as_bytes(), b"");
    result.clear();
    assert_eq!(result.size(), 0);
}

#[test]
fn empty_push_changes_nothing() {
    let mut result = mutstr::from("abc");
    let before = result.as_bytes().as_ptr();
    result.push(b"");
    assert_eq!(result.as_str(), "abc");
    assert_eq!(result.size(), 3);
    assert_eq!(result.as_bytes().as_ptr(), before);
    result += "";
    assert_eq!(result.as_bytes().as_ptr(), before);
}

#[test]
fn text_round_trip() {
    for text in ["", "Nick", "ƒoo ƒoo", "é€😀"] {
        let written = mutstr::from(text);
        let read = mutstr::from(written.as_str());
        assert_eq!(read.as_bytes(), written.as_bytes());
        assert_eq!(read.as_str(), text);
        assert_eq!(written.to_string(), text);
    }
}

#[test]
fn default_is_empty() {
    let result = mutstr::default();
    assert_eq!(result.is_empty(), true);
    assert_eq!(result.size(), 0);
    assert_eq!(result.layout().size(), 0);
}

#[test]
fn layout_describes_the_block() {
    let result = mutstr::from("abc");
    let layout = result.layout();
    assert_eq!(layout.size(), 3);
    assert_eq!(layout.align(), 1);
    assert_eq!(layout, Layout::bytes(3));
}

#[test]
fn as_bytes_compares_with_text() {
    let first = "abc";
    let second = mutstr::from("abc");
    assert_eq!(first.as_bytes(), second.as_bytes());
}

#[test]
fn as_bytes_mut_edits_in_place() {
    let mut result = mutstr::from("Hello");
    let bytes = result.as_bytes_mut();
    bytes[0] = 0x6f;
    bytes[1] = 0x6c;
    bytes[2] = 0x6c;
    bytes[3] = 0x65;
    bytes[4] = 0x48;
    assert_eq!(result.as_bytes(), b"olleH");
    assert_eq!(result.size(), 5);
}

#[test]
fn as_str_mut_edits_in_place() {
    let mut result = mutstr::from("Hello ƒoo");
    result.as_str_mut().make_ascii_uppercase();
    assert_eq!(result.as_str(), "HELLO ƒOO");
    let text: &mut str = result.as_mut();
    text.make_ascii_lowercase();
    assert_eq!(result.as_str(), "hello ƒoo");
}

#[test]
fn to_str_tells_text_from_bytes() {
    assert_eq!(mutstr::from("abc").to_str(), Some("abc"));
    assert_eq!(mutstr::from("").to_str(), Some(""));
    assert_eq!(mutstr::from("ƒoo").to_str(), Some("ƒoo"));
    assert_eq!(mutstr::from(&[0xffu8][..]).to_str(), None);
    assert_eq!(mutstr::from(&"ƒoo".as_bytes()[..1]).to_str(), None);
    assert_eq!(mutstr::from(&[0xc0u8, 0x80][..]).to_str(), None);
    assert_eq!(mutstr::from(&[0xedu8, 0xa0, 0x80][..]).to_str(), None);
}

#[test]
fn edited_bytes_may_stop_being_text() {
    let mut result = mutstr::from("abc");
    result.as_bytes_mut()[1] = 0xff;
    assert_eq!(result.to_str(), None);
    assert_eq!(result.slice(0, 1), Err(SliceError::NotText));
    result.as_bytes_mut()[1] = b'B';
    assert_eq!(result.to_str(), Some("aBc"));
}

#[test]
fn slice_reads_spans() {
    let result = mutstr::from("abc123");
    assert_eq!(result.slice(0, 6), Ok("abc123"));
    assert_eq!(result.slice(1, 3), Ok("bc"));
    assert_eq!(result.slice(3, 3), Ok(""));
    assert_eq!(result.slice(6, 6), Ok(""));
    assert_eq!(&result[1..3], "bc");
    assert_eq!(&result[..3], "abc");
    assert_eq!(&result[3..], "123");
    assert_eq!(&result[6..], "");
    let wide = mutstr::from("aƒ€b");
    assert_eq!(wide.slice(1, 3), Ok("ƒ"));
    assert_eq!(wide.slice(3, 6), Ok("€"));
    assert_eq!(&wide[1..6], "ƒ€");
}

#[test]
fn slice_out_of_bounds() {
    let result = mutstr::from("abc123");
    assert_eq!(result.slice(0, 7), Err(SliceError::OutOfBounds));
    assert_eq!(result.slice(4, 3), Err(SliceError::OutOfBounds));
    assert_eq!(result.slice(7, 7), Err(SliceError::OutOfBounds));
    assert_eq!(result.slice(usize::MAX, usize::MAX), Err(SliceError::OutOfBounds));
    assert_eq!(mutstr::default().slice(0, 1), Err(SliceError::OutOfBounds));
}

#[test]
fn slice_inside_a_character() {
    let wide = mutstr::from("aƒ€b");
    assert_eq!(wide.slice(0, 2), Err(SliceError::NotCharBoundary));
    assert_eq!(wide.slice(2, 3), Err(SliceError::NotCharBoundary));
    assert_eq!(wide.slice(4, 6), Err(SliceError::NotCharBoundary));
    assert_eq!(wide.slice(5, 5), Err(SliceError::NotCharBoundary));
}

#[test]
fn slice_of_bytes_that_are_no_text() {
    let result = mutstr::from(&[b'a', 0xff, b'b'][..]);
    assert_eq!(result.slice(0, 1), Err(SliceError::NotText));
    assert_eq!(result.slice(0, 9), Err(SliceError::NotText));
}

#[test]
fn operators_follow_the_methods() {
    let mut result = mutstr::from("friend");
    result += " :) :) :)";
    result -= (2, " :)");
    assert_eq!(result.as_str(), "friend :)");
    result -= " :)";
    assert_eq!(result.as_str(), "friend");
}

#[test]
fn block_can_be_taken() {
    let result = mutstr::from("abc");
    let block: Box<[u8]> = result.into_boxed_bytes();
    assert_eq!(&*block, b"abc");
    let empty: Box<[u8]> = mutstr::default().into_boxed_bytes();
    assert_eq!(empty.len(), 0);
}

#[test]
fn is_two_words_wide() {
    assert_eq!(std::mem::size_of::<mutstr>(), 2 * std::mem::size_of::<usize>());
}

fn must_be_send_and_sync<T: Send + Sync>(_: &T) {}

#[test]
fn may_be_handed_to_another_thread() {
    let result = mutstr::from("abc");
    must_be_send_and_sync(&result);
}
