use rmd::text_buffer::TextBuffer;

#[test]
fn test_empty_buffer() {
    let buffer = TextBuffer::new();
    assert_eq!(buffer.len(), 0);
    assert!(buffer.is_empty());
}

#[test]
fn test_from_string() {
    let buffer = TextBuffer::from("Hello, World!");
    assert_eq!(buffer.len(), 13);
    assert_eq!(buffer.as_str(), "Hello, World!");
}

#[test]
fn test_insert() {
    let mut buffer = TextBuffer::new();
    buffer.insert(0, "Hello");
    assert_eq!(buffer.as_str(), "Hello");

    buffer.insert(5, ", World!");
    assert_eq!(buffer.as_str(), "Hello, World!");

    buffer.insert(5, " there");
    assert_eq!(buffer.as_str(), "Hello there, World!");
}

#[test]
fn test_delete_range() {
    let mut buffer = TextBuffer::from("Hello, World!");
    buffer.delete_range(5..7);
    assert_eq!(buffer.as_str(), "HelloWorld!");
}

#[test]
fn test_line_count() {
    let mut buffer = TextBuffer::from("Line 1\nLine 2\nLine 3");
    assert_eq!(buffer.line_count(), 3);
}

#[test]
fn test_line_col_conversion() {
    let mut buffer = TextBuffer::from("Hello\nWorld\n!");

    // Line 0, Col 0 -> Byte 0
    assert_eq!(buffer.byte_index_from_line_col(0, 0), 0);

    // Line 1, Col 0 -> Byte 6 (after "Hello\n")
    assert_eq!(buffer.byte_index_from_line_col(1, 0), 6);

    // Byte 0 -> Line 0, Col 0
    assert_eq!(buffer.line_col_from_byte_index(0), (0, 0));

    // Byte 6 -> Line 1, Col 0
    assert_eq!(buffer.line_col_from_byte_index(6), (1, 0));
}

#[test]
fn round_trip_keeps_text() {
    for text in ["", "a", "Hello\nWorld", "héllo wörld ✓", "line\r\nnext\n"] {
        assert_eq!(TextBuffer::from(text).as_str(), text);
    }
}

#[test]
fn insert_then_delete_restores_text() {
    let original = "The quick brown fox";
    for p in [0usize, 4, 10, original.len()] {
        let mut buffer = TextBuffer::from(original);
        buffer.insert(p, "jumping ");
        buffer.delete_range(p..p + "jumping ".len());
        assert_eq!(buffer.as_str(), original);
    }
}

#[test]
fn insert_past_end_appends() {
    let mut buffer = TextBuffer::from("abc");
    buffer.insert(10, "def");
    assert_eq!(buffer.as_str(), "abcdef");
}

#[test]
fn insert_at_length_appends() {
    let mut buffer = TextBuffer::from("abc");
    buffer.insert(3, "!");
    assert_eq!(buffer.as_str(), "abc!");
    assert_eq!(buffer.len(), 4);
}

#[test]
fn delete_empty_or_reversed_range_is_noop() {
    let mut buffer = TextBuffer::from("abcdef");
    buffer.delete_range(3..3);
    assert_eq!(buffer.as_str(), "abcdef");
    buffer.delete_range(4..2);
    assert_eq!(buffer.as_str(), "abcdef");
}

#[test]
fn delete_range_clamps_to_length() {
    let mut buffer = TextBuffer::from("abcdef");
    buffer.delete_range(4..100);
    assert_eq!(buffer.as_str(), "abcd");
    buffer.delete_range(10..20);
    assert_eq!(buffer.as_str(), "abcd");
}

#[test]
fn replace_range_is_delete_then_insert() {
    let mut buffer = TextBuffer::from("Hello, World!");
    buffer.replace_range(7..12, "there");
    assert_eq!(buffer.as_str(), "Hello, there!");
    buffer.replace_range(0..0, ">> ");
    assert_eq!(buffer.as_str(), ">> Hello, there!");
}

#[test]
fn edits_on_both_sides_of_the_gap() {
    let mut buffer = TextBuffer::from("0123456789");
    buffer.insert(5, "ab");
    buffer.insert(1, "X");
    buffer.insert(12, "Y");
    buffer.delete_range(0..2);
    assert_eq!(buffer.as_str(), "1234ab5678Y9");
    buffer.insert(0, "start-");
    buffer.delete_range(10..13);
    assert_eq!(buffer.as_str(), "start-1234678Y9");
}

#[test]
fn character_at_a_time_typing() {
    let mut buffer = TextBuffer::new();
    let text = "The quick brown fox jumps over the lazy dog";
    for (i, c) in text.chars().enumerate() {
        buffer.insert(i, &c.to_string());
    }
    assert_eq!(buffer.as_str(), text);
    assert_eq!(buffer.len(), text.len());
}

#[test]
fn line_count_is_newlines_plus_one() {
    assert_eq!(TextBuffer::new().line_count(), 1);
    assert_eq!(TextBuffer::from("a").line_count(), 1);
    assert_eq!(TextBuffer::from("a\nb").line_count(), 2);
    assert_eq!(TextBuffer::from("a\nb\n").line_count(), 3);
    assert_eq!(TextBuffer::from("\n\n\n").line_count_mut(), 4);
}

#[test]
fn first_line_first_column_is_byte_zero() {
    for text in ["", "x", "\n", "abc\ndef"] {
        assert_eq!(TextBuffer::from(text).byte_index_from_line_col(0, 0), 0);
    }
}

#[test]
fn line_cache_follows_edits() {
    let mut buffer = TextBuffer::from("one\ntwo");
    assert_eq!(buffer.line_count(), 2);
    buffer.insert(3, "\nand a half");
    assert_eq!(buffer.line_count(), 3);
    assert_eq!(buffer.line_text(1), Some("and a half".to_string()));
    buffer.delete_range(0..4);
    assert_eq!(buffer.line_count(), 2);
    assert_eq!(buffer.line_text(0), Some("and a half".to_string()));
}

#[test]
fn byte_index_clamps_column_and_line() {
    let mut buffer = TextBuffer::from("Hello\nWorld\n!");
    assert_eq!(buffer.byte_index_from_line_col(0, 3), 3);
    assert_eq!(buffer.byte_index_from_line_col(0, 100), 6);
    assert_eq!(buffer.byte_index_from_line_col(2, 5), 13);
    assert_eq!(buffer.byte_index_from_line_col(7, 0), 13);
}

#[test]
fn line_col_of_offsets() {
    let mut buffer = TextBuffer::from("Hello\nWorld\n!");
    assert_eq!(buffer.line_col_from_byte_index(3), (0, 3));
    assert_eq!(buffer.line_col_from_byte_index(5), (0, 5));
    assert_eq!(buffer.line_col_from_byte_index(8), (1, 2));
    assert_eq!(buffer.line_col_from_byte_index_mut(12), (2, 0));
    assert_eq!(buffer.line_col_from_byte_index(20), (2, 8));
}

#[test]
fn line_text_strips_line_endings() {
    let mut buffer = TextBuffer::from("first\r\nsecond\nthird");
    assert_eq!(buffer.line_text(0), Some("first".to_string()));
    assert_eq!(buffer.line_text(1), Some("second".to_string()));
    assert_eq!(buffer.line_text(2), Some("third".to_string()));
    assert_eq!(buffer.line_text(3), None);
}

#[test]
fn default_buffer_is_empty() {
    let buffer = TextBuffer::default();
    assert!(buffer.is_empty());
    assert_eq!(buffer.as_str(), "");
}

#[test]
fn typing_grows_the_gap_rarely() {
    let mut buffer = TextBuffer::new();
    let mut growths = 0;
    let mut capacity = buffer.allocated();
    for i in 0..1000 {
        buffer.insert(i, "x");
        if buffer.allocated() != capacity {
            growths += 1;
            capacity = buffer.allocated();
        }
    }
    assert_eq!(buffer.len(), 1000);
    // 2 * floor(log2(1000)) + 3
    assert!(growths <= 21, "{} growths", growths);
    assert!(capacity >= 1000);
}
