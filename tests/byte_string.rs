use buffers::dynstr::DynamicString;

#[test]
fn new_copies_bytes_and_sizes_block_exactly() {
    let s = DynamicString::new("Deshan");
    assert_eq!(s.length(), 6);
    assert_eq!(s.capacity(), 6);
    assert_eq!(s.as_bytes(), b"Deshan");
}

#[test]
fn new_from_empty_has_no_block() {
    let s = DynamicString::new("");
    assert_eq!(s.length(), 0);
    assert_eq!(s.capacity(), 0);
    assert_eq!(s.as_str(), "");
}

#[test]
fn append_char_doubles_capacity() {
    let mut s = DynamicString::new("Deshan");
    s.append_char(' ');
    assert_eq!(s.as_str(), "Deshan ");
    assert_eq!(s.length(), 7);
    assert_eq!(s.capacity(), 12);
}

#[test]
fn append_char_on_empty_grows_to_one() {
    let mut s = DynamicString::new("");
    s.append_char('x');
    assert_eq!(s.as_str(), "x");
    assert_eq!(s.capacity(), 1);
}

#[test]
fn append_char_keeps_low_byte_of_code_point() {
    let mut s = DynamicString::new("a");
    s.append_char('\u{141}');
    assert_eq!(s.as_bytes(), &[b'a', 0x41u8][..]);
}

#[test]
fn append_str_grows_once_to_what_is_needed() {
    let mut s = DynamicString::new("ab");
    s.append_str("cdefghij");
    assert_eq!(s.as_str(), "abcdefghij");
    assert_eq!(s.capacity(), 10);
}

#[test]
fn append_str_without_growth_keeps_capacity() {
    let mut s = DynamicString::new("Deshan");
    s.append_char(' ');
    s.append_str("Anj");
    assert_eq!(s.as_str(), "Deshan Anj");
    assert_eq!(s.capacity(), 12);
}

#[test]
fn append_str_doubles_when_that_suffices() {
    let mut s = DynamicString::new("Deshan");
    s.append_char(' ');
    s.append_str("Anjana");
    assert_eq!(s.as_str(), "Deshan Anjana");
    assert_eq!(s.capacity(), 24);
}

#[test]
fn append_leaves_source_unchanged() {
    let mut a = DynamicString::new("Deshan");
    let b = DynamicString::new(" Anjana");
    a.append(&b);
    assert_eq!(a.as_str(), "Deshan Anjana");
    assert_eq!(b.as_str(), " Anjana");
    assert_eq!(b.length(), 7);
}

#[test]
fn concatenate_append_and_pop() {
    let mut s = DynamicString::new("Deshan");
    s.append(&DynamicString::new(" "));
    s.append(&DynamicString::new("Anjana"));
    s.append_str(" Jayasooriya!");
    s.pop();
    assert_eq!(s.as_str(), "Deshan Anjana Jayasooriya");
    assert_eq!(s.length(), 25);
}

#[test]
fn pop_removes_last_byte_keeps_capacity() {
    let mut s = DynamicString::new("abc");
    s.pop();
    assert_eq!(s.as_str(), "ab");
    assert_eq!(s.capacity(), 3);
    s.pop();
    s.pop();
    assert_eq!(s.length(), 0);
}

#[test]
fn pop_after_append_char_restores_string() {
    let mut s = DynamicString::new("Deshan");
    s.append_char('!');
    s.pop();
    assert_eq!(s.as_str(), "Deshan");
    assert_eq!(s.length(), 6);
}

#[test]
fn index_of_finds_single_occurrence() {
    let s = DynamicString::new("Jayasooriya!6");
    assert_eq!(s.index_of('6'), Some(12));
}

#[test]
fn index_of_absent_is_none() {
    let s = DynamicString::new("Jayasooriya!6");
    assert_eq!(s.index_of('z'), None);
}

#[test]
fn index_of_returns_first_of_several() {
    let s = DynamicString::new("Jayasooriya!6");
    assert_eq!(s.index_of('a'), Some(1));
    assert_eq!(s.index_of('J'), Some(0));
}

#[test]
fn index_of_scans_last_byte_of_long_string() {
    let s = DynamicString::new("abcdefghijklmnopq");
    assert_eq!(s.index_of('q'), Some(16));
    assert_eq!(s.index_of('i'), Some(8));
}

#[test]
fn index_of_short_string_last_byte() {
    let s = DynamicString::new("ab");
    assert_eq!(s.index_of('b'), Some(1));
}

#[test]
fn index_of_empty_string_is_none() {
    let s = DynamicString::new("");
    assert_eq!(s.index_of('a'), None);
}

#[test]
fn index_of_code_point_above_byte_range_is_none() {
    let mut s = DynamicString::new("x");
    s.append_char('\u{141}');
    assert_eq!(s.index_of('A'), Some(1));
    assert_eq!(s.index_of('\u{141}'), None);
}

#[test]
fn starts_with_prefix() {
    let s = DynamicString::new("Deshan Anjana");
    assert!(s.start_with("Des"));
}

#[test]
fn starts_with_other_text_is_false() {
    let s = DynamicString::new("Deshan Anjana");
    assert!(!s.start_with("xyz"));
}

#[test]
fn starts_with_longer_than_buffer_is_false() {
    let s = DynamicString::new("Deshan Anjana");
    assert!(!s.start_with("Deshan Anjana Extra"));
}

#[test]
fn starts_with_empty_pattern_is_false() {
    let s = DynamicString::new("Deshan Anjana");
    assert!(!s.start_with(""));
}

#[test]
fn starts_with_whole_string() {
    let s = DynamicString::new("Deshan Anjana");
    assert!(s.start_with("Deshan Anjana"));
}

#[test]
fn starts_with_mismatch_after_first_byte() {
    let s = DynamicString::new("Deshan Anjana");
    assert!(!s.start_with("Dex"));
}

#[test]
fn find_pattern_inside_string() {
    let s = DynamicString::new("Deshan Anjana");
    assert!(s.find_pattern("Anj"));
    assert!(s.find_pattern("shan"));
}

#[test]
fn find_pattern_at_the_very_end() {
    let s = DynamicString::new("Deshan Anjana");
    assert!(s.find_pattern("Anjana"));
}

#[test]
fn find_pattern_overrunning_end_is_false() {
    let s = DynamicString::new("Deshan Anjana");
    assert!(!s.find_pattern("Anjana!"));
}

#[test]
fn find_pattern_absent_first_byte_is_false() {
    let s = DynamicString::new("Deshan Anjana");
    assert!(!s.find_pattern("xyz"));
}

#[test]
fn find_pattern_checks_only_first_occurrence() {
    let s = DynamicString::new("aab");
    assert!(!s.find_pattern("ab"));
    assert!(s.find_pattern("aa"));
}

#[test]
fn find_pattern_empty_is_false() {
    let s = DynamicString::new("abc");
    assert!(!s.find_pattern(""));
}

#[test]
fn equal_strings_compare_equal() {
    let a = DynamicString::new("Deshan Anjana Jayasooriya");
    let b = DynamicString::new("Deshan Anjana Jayasooriya");
    assert!(a == b);
    assert!(b == a);
    assert!(a == a);
}

#[test]
fn strings_differing_in_a_block_are_unequal() {
    let a = DynamicString::new("Deshan Anjana Jayasooriya");
    let b = DynamicString::new("Deshan Xnjana Jayasooriya");
    assert!(a != b);
    assert!(b != a);
}

#[test]
fn strings_differing_in_last_byte_are_unequal() {
    let a = DynamicString::new("Deshan Anjana Jayasooriya");
    let b = DynamicString::new("Deshan Anjana Jayasooriyx");
    assert!(a != b);
    let c = DynamicString::new("ab");
    let d = DynamicString::new("ac");
    assert!(c != d);
}

#[test]
fn strings_of_different_length_are_unequal() {
    let a = DynamicString::new("Deshan");
    let b = DynamicString::new("Deshan ");
    assert!(a != b);
    assert!(b != a);
}

#[test]
fn empty_strings_are_equal() {
    let a = DynamicString::new("");
    let b = DynamicString::new("");
    assert!(a == b);
}

#[test]
fn equality_ignores_capacity() {
    let mut a = DynamicString::new("Desha");
    a.append_char('n');
    let b = DynamicString::new("Deshan");
    assert_ne!(a.capacity(), b.capacity());
    assert!(a == b);
}

#[test]
fn as_str_reads_multibyte_text() {
    let s = DynamicString::new("h\u{e9}llo");
    assert_eq!(s.length(), 6);
    assert_eq!(s.as_str(), "h\u{e9}llo");
}

#[test]
fn index_of_finds_lowest_lane_within_a_block() {
    let s = DynamicString::new("0123456789abcxexez");
    assert_eq!(s.index_of('x'), Some(13));
    assert_eq!(s.index_of('e'), Some(14));
    assert_eq!(s.index_of('7'), Some(7));
    assert_eq!(s.index_of('z'), Some(17));
}
