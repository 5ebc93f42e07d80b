use rmd::markdown::{MarkdownRenderer, RenderedElement};
use rmd::preview::{count_words_in_element, generate_toc, word_count};

#[test]
fn toc_lists_top_level_headings() {
    let elements = MarkdownRenderer::new().render("# One\n\ntext\n\n## Two\n\n### Three");
    assert_eq!(
        generate_toc(&elements),
        vec![(1, "One".to_string()), (2, "Two".to_string()), (3, "Three".to_string())]
    );
    assert_eq!(generate_toc(&Vec::new()), Vec::<(u8, String)>::new());
}

#[test]
fn words_of_paragraphs_headings_lists_and_quotes() {
    let elements =
        MarkdownRenderer::new().render("# Hello world\n\nOne two three\n\n- a b\n- c\n\n> d e");
    assert_eq!(word_count(&elements), 10);
}

#[test]
fn code_and_rules_have_no_words() {
    assert_eq!(count_words_in_element(&RenderedElement::CodeBlock("rs".to_string(), "a b c".to_string())), 0);
    assert_eq!(count_words_in_element(&RenderedElement::HorizontalRule), 0);
    assert_eq!(count_words_in_element(&RenderedElement::Paragraph("  x  y ".to_string())), 2);
}

#[test]
fn nested_lists_count_every_item() {
    let element = RenderedElement::OrderedList(vec![
        vec![RenderedElement::Paragraph("a b".to_string())],
        vec![RenderedElement::UnorderedList(vec![vec![RenderedElement::Paragraph("c".to_string())]])],
    ]);
    assert_eq!(count_words_in_element(&element), 3);
}
