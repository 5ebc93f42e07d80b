use rmd::highlighter::{MarkdownHighlighter, TokenStyle};

fn plain() -> TokenStyle {
    TokenStyle { bold: false, italic: false, underline: false, strikethrough: false, code: false }
}

fn tokens(line: &str) -> Vec<(String, TokenStyle)> {
    MarkdownHighlighter::new()
        .highlight_line(line)
        .tokens
        .into_iter()
        .map(|t| (t.text, t.style))
        .collect()
}

#[test]
fn bold_and_italic_markers_split_tokens() {
    assert_eq!(
        tokens("**bold** and *it*"),
        vec![
            ("bold".to_string(), TokenStyle { bold: true, ..plain() }),
            (" and ".to_string(), plain()),
            ("it".to_string(), TokenStyle { italic: true, ..plain() }),
        ]
    );
}

#[test]
fn underscores_work_like_asterisks() {
    assert_eq!(
        tokens("__b__ _i_"),
        vec![
            ("b".to_string(), TokenStyle { bold: true, ..plain() }),
            (" ".to_string(), plain()),
            ("i".to_string(), TokenStyle { italic: true, ..plain() }),
        ]
    );
}

#[test]
fn markers_inside_code_are_text() {
    assert_eq!(
        tokens("`a *b* __c__`"),
        vec![("a *b* __c__".to_string(), TokenStyle { code: true, ..plain() })]
    );
}

#[test]
fn strikethrough_needs_two_tildes() {
    assert_eq!(
        tokens("~~gone~~ a ~ b"),
        vec![
            ("gone".to_string(), TokenStyle { strikethrough: true, ..plain() }),
            (" a ~ b".to_string(), plain()),
        ]
    );
}

#[test]
fn empty_line_gives_one_empty_token() {
    assert_eq!(tokens(""), vec![(String::new(), plain())]);
    assert_eq!(tokens("**"), vec![(String::new(), plain())]);
}

#[test]
fn unclosed_marker_styles_the_rest() {
    assert_eq!(
        tokens("plain *rest"),
        vec![
            ("plain ".to_string(), plain()),
            ("rest".to_string(), TokenStyle { italic: true, ..plain() }),
        ]
    );
}
