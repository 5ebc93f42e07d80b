use rmd::utils::{
    count_lines, count_words, estimate_reading_time, format_duration, format_file_size,
    get_extension, is_hidden_file, is_markdown_file, is_text_file, normalize_line_endings,
    sanitize_filename, truncate_text,
};

#[test]
fn test_format_file_size() {
    assert_eq!(format_file_size(0), "0 B");
    assert_eq!(format_file_size(512), "512 B");
    assert_eq!(format_file_size(1024), "1.00 KB");
    assert_eq!(format_file_size(1536), "1.50 KB");
    assert_eq!(format_file_size(1024 * 1024), "1.00 MB");
}

#[test]
fn test_normalize_line_endings() {
    assert_eq!(normalize_line_endings("a\r\nb"), "a\nb");
    assert_eq!(normalize_line_endings("a\rb"), "a\nb");
    assert_eq!(normalize_line_endings("a\nb"), "a\nb");
}

#[test]
fn test_truncate_text() {
    assert_eq!(truncate_text("hello", 10), "hello");
    assert_eq!(truncate_text("hello world", 8), "hello...");
}

#[test]
fn test_count_words() {
    assert_eq!(count_words("hello world"), 2);
    assert_eq!(count_words("  hello   world  "), 2);
    assert_eq!(count_words(""), 0);
}

#[test]
fn test_sanitize_filename() {
    assert_eq!(sanitize_filename("hello/world"), "hello_world");
    assert_eq!(sanitize_filename("hello:world"), "hello_world");
    assert_eq!(sanitize_filename("hello<world>"), "hello_world_");
}

#[test]
fn file_sizes_in_larger_units() {
    assert_eq!(format_file_size(1023), "1023 B");
    assert_eq!(format_file_size(1048575), "1024.00 KB");
    assert_eq!(format_file_size(5 * 1024 * 1024 * 1024), "5.00 GB");
    assert_eq!(format_file_size(3 * 1024 * 1024 * 1024 * 1024), "3.00 TB");
    assert_eq!(format_file_size(2048 * 1024 * 1024 * 1024 * 1024), "2048.00 TB");
    assert_eq!(format_file_size(1126), "1.10 KB");
}

#[test]
fn file_size_rounds_ties_to_even() {
    // 1.125 KB and 1.375 KB lie exactly halfway between two hundredths.
    assert_eq!(format_file_size(1152), "1.12 KB");
    assert_eq!(format_file_size(1408), "1.38 KB");
}

#[test]
fn durations_in_words() {
    assert_eq!(format_duration(0), "0s");
    assert_eq!(format_duration(59), "59s");
    assert_eq!(format_duration(60), "1m 0s");
    assert_eq!(format_duration(125), "2m 5s");
    assert_eq!(format_duration(3600), "1h 0m");
    assert_eq!(format_duration(5430), "1h 30m");
}

#[test]
fn truncation_edge_cases() {
    assert_eq!(truncate_text("hello", 5), "hello");
    assert_eq!(truncate_text("hello", 4), "h...");
    assert_eq!(truncate_text("hello", 2), "...");
    assert_eq!(truncate_text("", 0), "");
}

#[test]
fn mixed_line_endings() {
    assert_eq!(normalize_line_endings("a\r\r\nb\rc\n"), "a\n\nb\nc\n");
    assert_eq!(normalize_line_endings(""), "");
}

#[test]
fn words_across_unicode_spaces() {
    assert_eq!(count_words("one\ttwo\nthree\u{3000}four"), 4);
    assert_eq!(count_words("   "), 0);
    assert_eq!(count_words("single"), 1);
}

#[test]
fn lines_ignore_final_newline() {
    assert_eq!(count_lines(""), 0);
    assert_eq!(count_lines("one"), 1);
    assert_eq!(count_lines("one\ntwo"), 2);
    assert_eq!(count_lines("one\ntwo\n"), 2);
    assert_eq!(count_lines("\n\n"), 2);
}

#[test]
fn reading_time_at_least_a_minute() {
    assert_eq!(estimate_reading_time(0), 1);
    assert_eq!(estimate_reading_time(399), 1);
    assert_eq!(estimate_reading_time(400), 2);
    assert_eq!(estimate_reading_time(1000), 5);
}

#[test]
fn markdown_and_text_files_by_extension() {
    assert!(is_markdown_file("notes/README.md"));
    assert!(is_markdown_file("doc.MarkDown"));
    assert!(is_markdown_file("x.mkdn"));
    assert!(!is_markdown_file("notes.txt"));
    assert!(!is_markdown_file("Makefile"));
    assert!(is_text_file("notes.TXT"));
    assert!(is_text_file("README"));
    assert!(is_text_file("doc.rst"));
    assert!(!is_text_file("image.png"));
}

#[test]
fn extensions_in_lower_case() {
    assert_eq!(get_extension("Photo.JPG"), Some("jpg".to_string()));
    assert_eq!(get_extension("archive.tar.gz"), Some("gz".to_string()));
    assert_eq!(get_extension("README"), None);
    assert_eq!(get_extension(".bashrc"), None);
}

#[test]
fn hidden_files_start_with_a_dot() {
    assert!(is_hidden_file("/home/me/.config"));
    assert!(is_hidden_file(".gitignore"));
    assert!(!is_hidden_file("visible.md"));
    assert!(!is_hidden_file("/"));
}

#[test]
fn sanitize_keeps_ordinary_characters() {
    assert_eq!(sanitize_filename("a\\b|c?d*e\"f"), "a_b_c_d_e_f");
    assert_eq!(sanitize_filename("plain name.md"), "plain name.md");
}
