use gpuix_native::paint::{selection_key, utf16_offset};

#[test]
fn ascii_offsets_are_unchanged() {
    assert_eq!(utf16_offset("hello", 0), 0);
    assert_eq!(utf16_offset("hello", 3), 3);
    assert_eq!(utf16_offset("hello", 5), 5);
}

#[test]
fn an_offset_past_the_end_counts_the_whole_text() {
    assert_eq!(utf16_offset("hello", 99), 5);
    assert_eq!(utf16_offset("", 4), 0);
}

#[test]
fn wide_characters_count_in_utf16_units() {
    // "é" is two bytes and one unit; "漢" three bytes, one unit; "😀" four
    // bytes, two units.
    let text = "aé漢😀b";
    assert_eq!(utf16_offset(text, 1), 1);
    assert_eq!(utf16_offset(text, 3), 2);
    assert_eq!(utf16_offset(text, 6), 3);
    assert_eq!(utf16_offset(text, 10), 5);
    assert_eq!(utf16_offset(text, 11), 6);
    assert_eq!(utf16_offset(text, text.len()), text.encode_utf16().count());
}

#[test]
fn a_selection_key_is_the_id_and_the_run() {
    assert_eq!(selection_key(42, 0), "42:0");
    assert_eq!(selection_key(0, 17), "0:17");
    assert_eq!(selection_key(u64::MAX, 3), "18446744073709551615:3");
    assert_ne!(selection_key(1, 23), selection_key(12, 3));
}
