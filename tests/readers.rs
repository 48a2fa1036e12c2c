use std::collections::VecDeque;
use str_read::{RealStrRead, StrRead, StrReader, StringRead, StringReader, StringWrite};

fn owned(chunks: &[&str]) -> StringReader {
    let q: VecDeque<String> = chunks.iter().map(|s| s.to_string()).collect();
    StringReader::from(q)
}

#[test]
fn owned_round_trip_abc() {
    let mut r: StringReader = StringReader::new();
    r.push_string("a".to_string());
    r.push_string("b".to_string());
    r.push_string("c".to_string());
    assert_eq!(r.pop_string(), Some("a".to_string()));
    assert_eq!(r.pop_string(), Some("b".to_string()));
    assert_eq!(r.pop_string(), Some("c".to_string()));
    assert_eq!(r.pop_string(), None);
}

#[test]
fn push_back_and_shift_front_order() {
    let mut r: StringReader = StringReader::default();
    r.push_string("hai".to_string());
    r.push_string("bai".to_string());
    r.shift_string("first".to_string());
    assert_eq!(r.pop_string(), Some("first".to_string()));
    assert_eq!(r.pop_string(), Some("hai".to_string()));
    assert_eq!(r.pop_string(), Some("bai".to_string()));
    assert_eq!(r.pop_string(), None);
}

#[test]
fn shift_reverses_order() {
    let mut r: StringReader = StringReader::new();
    r.shift_string("hai".to_string());
    r.shift_string("bai".to_string());
    assert_eq!(r.pop_string(), Some("bai".to_string()));
    assert_eq!(r.pop_string(), Some("hai".to_string()));
    assert_eq!(r.pop_string(), None);
}

#[test]
fn is_empty_matches_pop() {
    let mut r: StringReader = StringReader::new();
    assert!(r.is_empty());
    assert_eq!(r.peek_str(), None);
    r.push_string("x".to_string());
    assert!(!r.is_empty());
    assert_eq!(r.peek_str(), Some("x"));
    assert_eq!(r.pop_string(), Some("x".to_string()));
    assert!(r.is_empty());
    assert_eq!(r.pop_string(), None);
}

#[test]
fn fallback_comes_after_queue() {
    let mut r: StringReader = StringReader::from("fallback".to_string());
    assert!(!r.is_empty());
    r.push_string("q1".to_string());
    r.push_string("q2".to_string());
    assert_eq!(r.peek_str(), Some("q1"));
    assert_eq!(r.pop_string(), Some("q1".to_string()));
    assert_eq!(r.pop_string(), Some("q2".to_string()));
    assert_eq!(r.peek_str(), Some("fallback"));
    assert_eq!(r.pop_string(), Some("fallback".to_string()));
    assert!(r.is_empty());
    assert_eq!(r.pop_string(), None);
}

#[test]
fn pushing_again_defers_fallback() {
    let inner = owned(&["f1", "f2"]);
    let mut r: StringReader<StringReader> = StringReader::from(inner);
    assert_eq!(r.pop_string(), Some("f1".to_string()));
    r.push_string("late".to_string());
    assert_eq!(r.pop_string(), Some("late".to_string()));
    assert_eq!(r.pop_string(), Some("f2".to_string()));
    assert_eq!(r.pop_string(), None);
    assert!(r.is_empty());
}

#[test]
fn read_partial_hello_world() {
    let mut r = owned(&["hello", " world"]);
    let mut buf = [0u8; 8];
    assert_eq!(r.read(&mut buf), 8);
    assert_eq!(&buf, b"hello wo");
    assert_eq!(r.peek_str(), Some("rld"));
    let mut buf2 = [0u8; 3];
    assert_eq!(r.read(&mut buf2), 3);
    assert_eq!(&buf2, b"rld");
    assert!(r.is_empty());
}

#[test]
fn read_from_empty_is_zero() {
    let mut r: StringReader = StringReader::new();
    let mut buf = [7u8; 4];
    assert_eq!(r.read(&mut buf), 0);
    assert_eq!(buf, [7u8; 4]);
}

#[test]
fn read_more_than_available() {
    let mut r = owned(&["ab", "", "cd"]);
    let mut buf = [0u8; 10];
    assert_eq!(r.read(&mut buf), 4);
    assert_eq!(&buf[..4], b"abcd");
    assert_eq!(&buf[4..], &[0u8; 6]);
    assert!(r.is_empty());
}

#[test]
fn read_into_empty_buffer_keeps_chunks() {
    let mut r = owned(&["ab"]);
    let mut buf: [u8; 0] = [];
    assert_eq!(r.read(&mut buf), 0);
    assert_eq!(r.pop_string(), Some("ab".to_string()));
}

#[test]
fn read_exact_chunk_boundary() {
    let mut r = owned(&["abc", "def"]);
    let mut buf = [0u8; 3];
    assert_eq!(r.read(&mut buf), 3);
    assert_eq!(&buf, b"abc");
    assert_eq!(r.pop_string(), Some("def".to_string()));
}

#[test]
fn read_cuts_multibyte_on_boundary() {
    let mut r = owned(&["h\u{e9}llo"]);
    let mut buf = [0u8; 3];
    assert_eq!(r.read(&mut buf), 3);
    assert_eq!(&buf, "h\u{e9}".as_bytes());
    assert_eq!(r.peek_str(), Some("llo"));
}

#[test]
fn read_through_fallback_string() {
    let mut r: StringReader = StringReader::from("tail".to_string());
    r.push_string("head".to_string());
    let mut buf = [0u8; 6];
    assert_eq!(r.read(&mut buf), 6);
    assert_eq!(&buf, b"headta");
    assert_eq!(r.peek_str(), Some("il"));
    let mut rest = [0u8; 8];
    assert_eq!(r.read(&mut rest), 2);
    assert_eq!(&rest[..2], b"il");
    assert!(r.is_empty());
}

#[test]
fn fill_buf_then_read_same_bytes() {
    let mut r = owned(&["foo", "bar"]);
    let peeked = r.fill_buf().to_vec();
    assert_eq!(peeked, b"foo".to_vec());
    let mut buf = vec![0u8; peeked.len()];
    assert_eq!(r.read(&mut buf), 3);
    assert_eq!(buf, peeked);
    assert_eq!(r.fill_buf(), b"bar");
}

#[test]
fn fill_buf_empty_when_drained() {
    let r: StringReader = StringReader::new();
    assert_eq!(r.fill_buf(), b"");
}

#[test]
fn consume_removes_exactly_n_bytes() {
    let mut r = owned(&["hello", " world"]);
    r.consume(7);
    assert_eq!(r.fill_buf(), b"orld");
    assert!(!r.is_empty());
    r.consume(4);
    assert!(r.is_empty());
    assert_eq!(r.fill_buf(), b"");
}

#[test]
fn consume_past_end_empties() {
    let mut r = owned(&["ab"]);
    r.consume(10);
    assert!(r.is_empty());
}

#[test]
fn peek_mut_and_map_change_front() {
    let mut r = owned(&["abc", "def"]);
    if let Some(s) = r.peek_mut_string() {
        s.push('!');
    }
    assert_eq!(r.peek_str(), Some("abc!"));
    r.map_string(|s| s.insert(0, '>'));
    assert_eq!(r.pop_string(), Some(">abc!".to_string()));
    assert_eq!(r.pop_string(), Some("def".to_string()));
    r.map_string(|s| s.push('x'));
    assert!(r.is_empty());
}

#[test]
fn bare_string_pops_once() {
    let mut s = "content".to_string();
    assert!(!StrRead::is_empty(&s));
    assert_eq!(s.peek_str(), Some("content"));
    assert_eq!(s.pop_string(), Some("content".to_string()));
    assert_eq!(s.pop_string(), None);
    assert_eq!(s.pop_string(), None);
    assert!(StrRead::is_empty(&s));
}

#[test]
fn bare_str_pops_forever() {
    let mut b: Box<str> = "same".into();
    assert_eq!(b.peek_str(), Some("same"));
    assert_eq!(b.pop_str(), Some("same"));
    assert_eq!(b.pop_str(), Some("same"));
    assert!(!StrRead::is_empty(&b));
}

#[test]
fn borrowed_queue_in_order() {
    let q: VecDeque<&str> = VecDeque::from(vec!["hai", "bai"]);
    let mut r: StrReader = StrReader::from(q);
    assert_eq!(r.peek_str(), Some("hai"));
    assert_eq!(r.pop_str(), Some("hai"));
    assert_eq!(r.pop_str(), Some("bai"));
    assert_eq!(r.pop_str(), None);
    assert!(r.is_empty());
}

#[test]
fn borrowed_empty_reader() {
    let mut r: StrReader = StrReader::new();
    assert!(r.is_empty());
    assert_eq!(r.peek_str(), None);
    assert_eq!(r.pop_str(), None);
}

#[test]
fn borrowed_fallback_repeats() {
    let fb: Box<str> = "again".into();
    let mut r: StrReader = StrReader::from(fb);
    assert!(!r.is_empty());
    assert_eq!(r.pop_str(), Some("again"));
    assert_eq!(r.pop_str(), Some("again"));
}

#[test]
fn borrowed_queue_before_fallback() {
    let inner: StrReader = StrReader::from(VecDeque::from(vec!["f1", "f2"]));
    let mut r: StrReader<StrReader> = StrReader::from(inner);
    r.queue.push_back("q");
    assert_eq!(r.pop_str(), Some("q"));
    assert_eq!(r.pop_str(), Some("f1"));
    assert_eq!(r.pop_str(), Some("f2"));
    assert_eq!(r.pop_str(), None);
}

#[test]
fn read_checked_refuses_cut_inside_character() {
    let mut r = owned(&["ab", "h\u{e9}"]);
    let mut buf = [0u8; 4];
    assert_eq!(r.read_checked(&mut buf), None);
    assert_eq!(&buf[..2], b"ab");
    assert_eq!(r.peek_str(), Some("h\u{e9}"));
}

#[test]
fn read_checked_allows_cut_on_boundary() {
    let mut r = owned(&["ab", "h\u{e9}x"]);
    let mut buf = [0u8; 5];
    assert_eq!(r.read_checked(&mut buf), Some(5));
    assert_eq!(&buf, "abh\u{e9}".as_bytes());
    assert_eq!(r.pop_string(), Some("x".to_string()));
    assert_eq!(r.read_checked(&mut buf), Some(0));
}

#[test]
fn read_leaves_rest_in_queue_field() {
    let mut r = owned(&["hello", " world"]);
    let mut buf = [0u8; 8];
    assert_eq!(r.read(&mut buf), 8);
    assert_eq!(r.queue, VecDeque::from(vec!["rld".to_string()]));
    assert!(r.reader.is_none());
    r.consume(1);
    assert_eq!(r.queue, VecDeque::from(vec!["ld".to_string()]));
}

#[test]
fn read_within_queue_keeps_fallback() {
    let mut r: StringReader = StringReader::from("fb".to_string());
    r.push_string("abcdef".to_string());
    let mut buf = [0u8; 4];
    assert_eq!(r.read(&mut buf), 4);
    assert_eq!(r.reader, Some("fb".to_string()));
    assert_eq!(r.queue, VecDeque::from(vec!["ef".to_string()]));
}

#[test]
fn map_string_on_bare_string() {
    let mut s = "ab".to_string();
    s.map_string(|x| x.push('c'));
    assert_eq!(s, "abc");
    let mut e = String::new();
    e.map_string(|x| x.push('z'));
    assert_eq!(e, "");
}
