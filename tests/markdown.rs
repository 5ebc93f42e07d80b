use rmd::markdown::{render_events, MarkdownRenderer, MarkupEvent, RenderedElement};

fn render(text: &str) -> Vec<RenderedElement> {
    MarkdownRenderer::new().render(text)
}

fn para(text: &str) -> RenderedElement {
    RenderedElement::Paragraph(text.to_string())
}

#[test]
fn heading_renders_with_level() {
    assert_eq!(render("# Title"), vec![RenderedElement::Heading(1, "Title".to_string())]);
    assert_eq!(render("### Third"), vec![RenderedElement::Heading(3, "Third".to_string())]);
}

#[test]
fn plain_text_is_a_paragraph() {
    assert_eq!(render("plain text"), vec![para("plain text")]);
}

#[test]
fn bullet_list_items() {
    assert_eq!(
        render("- a\n- b"),
        vec![RenderedElement::UnorderedList(vec![vec![para("a")], vec![para("b")]])]
    );
}

#[test]
fn numbered_list_is_ordered() {
    assert_eq!(
        render("1. one\n2. two"),
        vec![RenderedElement::OrderedList(vec![vec![para("one")], vec![para("two")]])]
    );
}

#[test]
fn quote_holds_its_paragraph() {
    assert_eq!(render("> quoted"), vec![RenderedElement::BlockQuote(vec![para("quoted")])]);
}

#[test]
fn rule_renders_alone() {
    assert_eq!(render("---"), vec![RenderedElement::HorizontalRule]);
}

#[test]
fn fenced_code_keeps_language_and_text() {
    assert_eq!(
        render("```rust\ncode\n```"),
        vec![RenderedElement::CodeBlock("rust".to_string(), "code\n".to_string())]
    );
}

#[test]
fn indented_code_has_no_language() {
    assert_eq!(
        render("    let x = 1;\n"),
        vec![RenderedElement::CodeBlock(String::new(), "let x = 1;\n".to_string())]
    );
}

#[test]
fn empty_text_renders_nothing() {
    assert_eq!(render(""), Vec::<RenderedElement>::new());
}

#[test]
fn rendering_twice_gives_the_same_tree() {
    let text = "# Doc\n\nSome *text*.\n\n- a\n  - nested\n- b\n\n> quote\n\n```\ncode\n```\n";
    let renderer = MarkdownRenderer::new();
    let first = renderer.render(text);
    let second = renderer.render(text);
    assert_eq!(first, second);
    assert_eq!(first, render(text));
}

#[test]
fn nested_list_goes_into_outer_item() {
    assert_eq!(
        render("- a\n  - b\n- c"),
        vec![RenderedElement::UnorderedList(vec![
            vec![para("a"), RenderedElement::UnorderedList(vec![vec![para("b")]])],
            vec![para("c")],
        ])]
    );
}

#[test]
fn inline_code_in_quote_goes_to_top_level() {
    assert_eq!(
        render("> `x`"),
        vec![RenderedElement::InlineCode("x".to_string()), RenderedElement::BlockQuote(vec![])]
    );
}

#[test]
fn raw_html_goes_to_top_level() {
    assert_eq!(
        render("> <div>\n> hi"),
        vec![
            RenderedElement::RawHtml("<div>\n".to_string()),
            RenderedElement::RawHtml("hi".to_string()),
            RenderedElement::BlockQuote(vec![]),
        ]
    );
}

#[test]
fn text_in_a_list_with_no_item_is_dropped() {
    let events = vec![
        MarkupEvent::ListStart(false),
        MarkupEvent::Text("lost".to_string()),
        MarkupEvent::ListEnd,
    ];
    assert_eq!(render_events(events), vec![RenderedElement::UnorderedList(vec![])]);
}

#[test]
fn hard_break_outside_a_paragraph_is_a_line_break() {
    let events = vec![MarkupEvent::Text("a".to_string()), MarkupEvent::HardBreak];
    assert_eq!(render_events(events), vec![para("a"), RenderedElement::LineBreak]);
}

#[test]
fn hard_break_inside_a_heading_is_ignored() {
    let events = vec![
        MarkupEvent::HeadingStart(2),
        MarkupEvent::Text("a".to_string()),
        MarkupEvent::HardBreak,
        MarkupEvent::Text("b".to_string()),
        MarkupEvent::HeadingEnd,
    ];
    assert_eq!(render_events(events), vec![RenderedElement::Heading(2, "ab".to_string())]);
}

#[test]
fn unclosed_block_is_flushed_at_the_end() {
    let events = vec![MarkupEvent::CodeBlockStart("py".to_string()), MarkupEvent::Text("x".to_string())];
    assert_eq!(
        render_events(events),
        vec![RenderedElement::CodeBlock("py".to_string(), "x".to_string())]
    );
}

#[test]
fn list_item_precedes_quote_as_destination() {
    let events = vec![
        MarkupEvent::QuoteStart,
        MarkupEvent::ListStart(true),
        MarkupEvent::ItemStart,
        MarkupEvent::Text("t".to_string()),
        MarkupEvent::ListEnd,
        MarkupEvent::QuoteEnd,
    ];
    assert_eq!(
        render_events(events),
        vec![RenderedElement::BlockQuote(vec![RenderedElement::OrderedList(vec![vec![para("t")]])])]
    );
}

#[test]
fn soft_breaks_and_other_events_change_nothing() {
    let events = vec![
        MarkupEvent::Text("a".to_string()),
        MarkupEvent::SoftBreak,
        MarkupEvent::Other,
        MarkupEvent::Text("b".to_string()),
    ];
    assert_eq!(render_events(events), vec![para("a"), para("b")]);
}
