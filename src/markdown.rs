//! Markdown rendering: a flat stream of markup events is assembled into a
//! tree of display elements.

use pulldown_cmark::{CodeBlockKind, CowStr, Event, HeadingLevel, Tag, TagEnd};
use vstd::prelude::*;
use vstd::string::StringExecFns;

verus! {

/// A display element of rendered Markdown.
#[derive(Debug, PartialEq)]
pub enum RenderedElement {
    Heading(u8, String),
    Paragraph(String),
    CodeBlock(String, String),
    InlineCode(String),
    BlockQuote(Vec<RenderedElement>),
    UnorderedList(Vec<Vec<RenderedElement>>),
    OrderedList(Vec<Vec<RenderedElement>>),
    HorizontalRule,
    Link(String, String),
    Image(String, String),
    RawHtml(String),
    LineBreak,
    Strong(String),
    Emphasis(String),
    Strikethrough(String),
}

/// What a `RenderedElement` holds, with its texts as characters.
pub enum Block {
    Heading(u8, Seq<char>),
    Paragraph(Seq<char>),
    CodeBlock(Seq<char>, Seq<char>),
    InlineCode(Seq<char>),
    BlockQuote(Seq<Block>),
    UnorderedList(Seq<Seq<Block>>),
    OrderedList(Seq<Seq<Block>>),
    HorizontalRule,
    Link(Seq<char>, Seq<char>),
    Image(Seq<char>, Seq<char>),
    RawHtml(Seq<char>),
    LineBreak,
    Strong(Seq<char>),
    Emphasis(Seq<char>),
    Strikethrough(Seq<char>),
}

/// The block that an element shows.
pub open spec fn block_of(e: RenderedElement) -> Block
    decreases e,
{
    match e {
        RenderedElement::Heading(level, t) => Block::Heading(level, t@),
        RenderedElement::Paragraph(t) => Block::Paragraph(t@),
        RenderedElement::CodeBlock(lang, code) => Block::CodeBlock(lang@, code@),
        RenderedElement::InlineCode(t) => Block::InlineCode(t@),
        RenderedElement::BlockQuote(items) => Block::BlockQuote(
            Seq::new(
                items@.len(),
                |i: int|
                    if 0 <= i < items@.len() {
                        block_of(items@[i])
                    } else {
                        Block::LineBreak
                    },
            ),
        ),
        RenderedElement::UnorderedList(items) => Block::UnorderedList(
            Seq::new(
                items@.len(),
                |i: int|
                    Seq::new(
                        items@[i]@.len(),
                        |j: int|
                            if 0 <= i < items@.len() && 0 <= j < items@[i]@.len() {
                                block_of(items@[i]@[j])
                            } else {
                                Block::LineBreak
                            },
                    ),
            ),
        ),
        RenderedElement::OrderedList(items) => Block::OrderedList(
            Seq::new(
                items@.len(),
                |i: int|
                    Seq::new(
                        items@[i]@.len(),
                        |j: int|
                            if 0 <= i < items@.len() && 0 <= j < items@[i]@.len() {
                                block_of(items@[i]@[j])
                            } else {
                                Block::LineBreak
                            },
                    ),
            ),
        ),
        RenderedElement::HorizontalRule => Block::HorizontalRule,
        RenderedElement::Link(t, url) => Block::Link(t@, url@),
        RenderedElement::Image(alt, url) => Block::Image(alt@, url@),
        RenderedElement::RawHtml(t) => Block::RawHtml(t@),
        RenderedElement::LineBreak => Block::LineBreak,
        RenderedElement::Strong(t) => Block::Strong(t@),
        RenderedElement::Emphasis(t) => Block::Emphasis(t@),
        RenderedElement::Strikethrough(t) => Block::Strikethrough(t@),
    }
}

/// The blocks that a sequence of elements shows.
pub open spec fn blocks_of(v: Seq<RenderedElement>) -> Seq<Block> {
    Seq::new(v.len(), |i: int| block_of(v[i]))
}

/// The blocks of each item of a list.
pub open spec fn items_of(v: Seq<Vec<RenderedElement>>) -> Seq<Seq<Block>> {
    Seq::new(v.len(), |i: int| blocks_of(v[i]@))
}

/// The open lists, each with whether it is numbered and its items.
pub open spec fn lists_of(v: Seq<(bool, Vec<Vec<RenderedElement>>)>) -> Seq<(bool, Seq<Seq<Block>>)> {
    Seq::new(v.len(), |i: int| (v[i].0, items_of(v[i].1@)))
}

proof fn lemma_blocks_push(v: Seq<RenderedElement>, e: RenderedElement)
    ensures
        blocks_of(v.push(e)) == blocks_of(v).push(block_of(e)),
{
    assert(blocks_of(v.push(e)) =~= blocks_of(v).push(block_of(e)));
}

proof fn lemma_blocks_drop_last(v: Seq<RenderedElement>)
    requires
        v.len() > 0,
    ensures
        blocks_of(v.drop_last()) == blocks_of(v).drop_last(),
{
    assert(blocks_of(v.drop_last()) =~= blocks_of(v).drop_last());
}

proof fn lemma_items_push(v: Seq<Vec<RenderedElement>>, e: Vec<RenderedElement>)
    ensures
        items_of(v.push(e)) == items_of(v).push(blocks_of(e@)),
{
    assert(items_of(v.push(e)) =~= items_of(v).push(blocks_of(e@)));
}

proof fn lemma_items_drop_last(v: Seq<Vec<RenderedElement>>)
    requires
        v.len() > 0,
    ensures
        items_of(v.drop_last()) == items_of(v).drop_last(),
{
    assert(items_of(v.drop_last()) =~= items_of(v).drop_last());
}

proof fn lemma_lists_push(v: Seq<(bool, Vec<Vec<RenderedElement>>)>, e: (bool, Vec<Vec<RenderedElement>>))
    ensures
        lists_of(v.push(e)) == lists_of(v).push((e.0, items_of(e.1@))),
{
    assert(lists_of(v.push(e)) =~= lists_of(v).push((e.0, items_of(e.1@))));
}

proof fn lemma_lists_drop_last(v: Seq<(bool, Vec<Vec<RenderedElement>>)>)
    requires
        v.len() > 0,
    ensures
        lists_of(v.drop_last()) == lists_of(v).drop_last(),
{
    assert(lists_of(v.drop_last()) =~= lists_of(v).drop_last());
}

proof fn lemma_list_blocks(items: Vec<Vec<RenderedElement>>)
    ensures
        block_of(RenderedElement::OrderedList(items)) == Block::OrderedList(items_of(items@)),
        block_of(RenderedElement::UnorderedList(items)) == Block::UnorderedList(items_of(items@)),
{
    let a = items_of(items@);
    if let Block::OrderedList(b) = block_of(RenderedElement::OrderedList(items)) {
        assert forall|i: int| 0 <= i < a.len() implies a[i] == b[i] by {
            assert(a[i] =~= b[i]);
        }
        assert(a =~= b);
    }
    if let Block::UnorderedList(b) = block_of(RenderedElement::UnorderedList(items)) {
        assert forall|i: int| 0 <= i < a.len() implies a[i] == b[i] by {
            assert(a[i] =~= b[i]);
        }
        assert(a =~= b);
    }
}

/// The state of a render in progress.
struct TreeBuilder {
    elements: Vec<RenderedElement>,
    current: Option<RenderedElement>,
    lists: Vec<(bool, Vec<Vec<RenderedElement>>)>,
    quotes: Vec<Vec<RenderedElement>>,
}

impl TreeBuilder {
    spec fn state(&self) -> RenderState {
        RenderState {
            elements: blocks_of(self.elements@),
            current: match self.current {
                Some(e) => Some(block_of(e)),
                None => None,
            },
            lists: lists_of(self.lists@),
            quotes: items_of(self.quotes@),
        }
    }

    fn new() -> (r: Self)
        ensures
            r.state() == initial_state(),
    {
        let r = TreeBuilder {
            elements: Vec::new(),
            current: None,
            lists: Vec::new(),
            quotes: Vec::new(),
        };
        assert(r.state().elements =~= Seq::<Block>::empty());
        assert(r.state().lists =~= Seq::<(bool, Seq<Seq<Block>>)>::empty());
        assert(r.state().quotes =~= Seq::<Seq<Block>>::empty());
        r
    }

    /// Places `e` where content goes.
    fn deliver(&mut self, e: RenderedElement)
        ensures
            final(self).state() == deliver(old(self).state(), block_of(e)),
    {
        let ghost st = self.state();
        let ghost b = block_of(e);
        if self.lists.len() > 0 {
            let ghost lists0 = self.lists@;
            let (ordered, mut items) = self.lists.pop().unwrap();
            proof {
                lemma_lists_drop_last(lists0);
            }
            let ghost items0 = items@;
            if items.len() > 0 {
                let mut item = items.pop().unwrap();
                proof {
                    lemma_items_drop_last(items0);
                }
                let ghost item0 = item@;
                item.push(e);
                proof {
                    lemma_blocks_push(item0, e);
                }
                let ghost items1 = items@;
                items.push(item);
                proof {
                    lemma_items_push(items1, item);
                    assert(items_of(items@) =~= st.lists.last().1.update(
                        st.lists.last().1.len() - 1,
                        st.lists.last().1.last().push(b),
                    ));
                }
            }
            let ghost lists1 = self.lists@;
            self.lists.push((ordered, items));
            proof {
                lemma_lists_push(lists1, (ordered, items));
                if items0.len() > 0 {
                    assert(self.state().lists =~= deliver(st, b).lists);
                } else {
                    assert(self.state().lists =~= st.lists);
                }
            }
        } else if self.quotes.len() > 0 {
            let ghost quotes0 = self.quotes@;
            let mut children = self.quotes.pop().unwrap();
            proof {
                lemma_items_drop_last(quotes0);
            }
            let ghost children0 = children@;
            children.push(e);
            proof {
                lemma_blocks_push(children0, e);
            }
            let ghost quotes1 = self.quotes@;
            self.quotes.push(children);
            proof {
                lemma_items_push(quotes1, children);
                assert(self.state().quotes =~= deliver(st, b).quotes);
            }
        } else {
            let ghost elements0 = self.elements@;
            self.elements.push(e);
            proof {
                lemma_blocks_push(elements0, e);
            }
        }
    }

    /// Places `e` at the top level.
    fn emit_top(&mut self, e: RenderedElement)
        ensures
            final(self).state() == emit_top(old(self).state(), block_of(e)),
    {
        let ghost elements0 = self.elements@;
        self.elements.push(e);
        proof {
            lemma_blocks_push(elements0, e);
        }
    }

    /// Delivers and closes the block collecting text, if any.
    fn flush(&mut self)
        ensures
            final(self).state() == flush(old(self).state()),
    {
        let current = self.current.take();
        match current {
            Some(e) => {
                self.deliver(e);
            },
            None => {},
        }
    }

    /// Takes in one event.
    fn step(&mut self, ev: MarkupEvent)
        ensures
            final(self).state() == step(old(self).state(), ev@),
    {
        let ghost st = self.state();
        match ev {
            MarkupEvent::ListStart(ordered) => {
                self.flush();
                let ghost lists0 = self.lists@;
                let items: Vec<Vec<RenderedElement>> = Vec::new();
                proof {
                    assert(items_of(items@) =~= Seq::<Seq<Block>>::empty());
                }
                self.lists.push((ordered, items));
                proof {
                    lemma_lists_push(lists0, (ordered, items));
                }
                assert(self.state() == step(st, ev@));
            },
            MarkupEvent::ItemStart => {
                if self.lists.len() > 0 {
                    let ghost lists0 = self.lists@;
                    let (ordered, mut items) = self.lists.pop().unwrap();
                    proof {
                        lemma_lists_drop_last(lists0);
                    }
                    let ghost items0 = items@;
                    let item: Vec<RenderedElement> = Vec::new();
                    proof {
                        assert(blocks_of(item@) =~= Seq::<Block>::empty());
                    }
                    items.push(item);
                    proof {
                        lemma_items_push(items0, item);
                    }
                    let ghost lists1 = self.lists@;
                    self.lists.push((ordered, items));
                    proof {
                        lemma_lists_push(lists1, (ordered, items));
                        assert(self.state().lists =~= step(st, ev@).lists);
                    }
                }
            },
            MarkupEvent::QuoteStart => {
                self.flush();
                let ghost quotes0 = self.quotes@;
                let children: Vec<RenderedElement> = Vec::new();
                proof {
                    assert(blocks_of(children@) =~= Seq::<Block>::empty());
                }
                self.quotes.push(children);
                proof {
                    lemma_items_push(quotes0, children);
                }
            },
            MarkupEvent::CodeBlockStart(lang) => {
                self.flush();
                let code = String::new();
                self.current = Some(RenderedElement::CodeBlock(lang, code));
            },
            MarkupEvent::HeadingStart(level) => {
                self.flush();
                let text = String::new();
                self.current = Some(RenderedElement::Heading(level, text));
            },
            MarkupEvent::ListEnd => {
                if self.lists.len() > 0 {
                    let ghost lists0 = self.lists@;
                    let (ordered, items) = self.lists.pop().unwrap();
                    proof {
                        lemma_lists_drop_last(lists0);
                    }
                    self.flush();
                    if ordered {
                        self.deliver(RenderedElement::OrderedList(items));
                        proof {
                            lemma_list_blocks(items);
                        }
                    } else {
                        self.deliver(RenderedElement::UnorderedList(items));
                        proof {
                            lemma_list_blocks(items);
                        }
                    }
                }
            },
            MarkupEvent::QuoteEnd => {
                if self.quotes.len() > 0 {
                    let ghost quotes0 = self.quotes@;
                    let children = self.quotes.pop().unwrap();
                    proof {
                        lemma_items_drop_last(quotes0);
                    }
                    self.flush();
                    self.deliver(RenderedElement::BlockQuote(children));
                    proof {
                        assert(block_of(RenderedElement::BlockQuote(children)) == Block::BlockQuote(
                            blocks_of(children@),
                        )) by {
                            assert(blocks_of(children@) =~= match block_of(
                                RenderedElement::BlockQuote(children),
                            ) {
                                Block::BlockQuote(x) => x,
                                _ => Seq::empty(),
                            });
                        }
                    }
                }
            },
            MarkupEvent::CodeBlockEnd => {
                self.flush();
            },
            MarkupEvent::HeadingEnd => {
                self.flush();
            },
            MarkupEvent::Text(t) => {
                let current = self.current.take();
                match current {
                    Some(RenderedElement::CodeBlock(lang, mut code)) => {
                        code.append(t.as_str());
                        self.current = Some(RenderedElement::CodeBlock(lang, code));
                        assert(self.state() == step(st, ev@));
                    },
                    Some(RenderedElement::Heading(level, mut h)) => {
                        h.append(t.as_str());
                        self.current = Some(RenderedElement::Heading(level, h));
                    },
                    Some(RenderedElement::Paragraph(mut p)) => {
                        p.append(t.as_str());
                        self.current = Some(RenderedElement::Paragraph(p));
                    },
                    Some(other) => {
                        self.current = Some(other);
                        assert(self.state() == step(st, ev@));
                    },
                    None => {
                        self.deliver(RenderedElement::Paragraph(t));
                        assert(self.state() == step(st, ev@));
                    },
                }
            },
            MarkupEvent::Code(t) => {
                if self.lists.len() > 0 {
                    self.deliver(RenderedElement::InlineCode(t));
                } else {
                    self.emit_top(RenderedElement::InlineCode(t));
                }
            },
            MarkupEvent::Html(t) => {
                self.emit_top(RenderedElement::RawHtml(t));
            },
            MarkupEvent::SoftBreak => {},
            MarkupEvent::HardBreak => {
                let current = self.current.take();
                match current {
                    Some(RenderedElement::Paragraph(mut p)) => {
                        let ghost p0 = p@;
                        let newline = "\n";
                        proof {
                            reveal_strlit("\n");
                        }
                        p.append(newline);
                        assert(p@ =~= p0.push('\n'));
                        self.current = Some(RenderedElement::Paragraph(p));
                        assert(self.state() == step(st, ev@));
                    },
                    Some(other) => {
                        self.current = Some(other);
                    },
                    None => {
                        self.emit_top(RenderedElement::LineBreak);
                    },
                }
            },
            MarkupEvent::Rule => {
                self.emit_top(RenderedElement::HorizontalRule);
            },
            MarkupEvent::Other => {},
        }
    }
}

/// One event of the flat stream that a Markdown parser emits in document
/// order. Events the renderer has no use for are `Other`.
#[derive(Debug)]
pub enum MarkupEvent {
    /// A list begins; `true` if it is numbered.
    ListStart(bool),
    ItemStart,
    QuoteStart,
    /// A code block begins, with its fence's language tag (empty if none).
    CodeBlockStart(String),
    /// A heading of level 1 to 6 begins.
    HeadingStart(u8),
    ListEnd,
    QuoteEnd,
    CodeBlockEnd,
    HeadingEnd,
    Text(String),
    Code(String),
    Html(String),
    SoftBreak,
    HardBreak,
    Rule,
    Other,
}

/// What a `MarkupEvent` holds, with its texts as characters.
pub enum EventView {
    ListStart(bool),
    ItemStart,
    QuoteStart,
    CodeBlockStart(Seq<char>),
    HeadingStart(u8),
    ListEnd,
    QuoteEnd,
    CodeBlockEnd,
    HeadingEnd,
    Text(Seq<char>),
    Code(Seq<char>),
    Html(Seq<char>),
    SoftBreak,
    HardBreak,
    Rule,
    Other,
}

impl View for MarkupEvent {
    type V = EventView;

    open spec fn view(&self) -> EventView {
        match self {
            MarkupEvent::ListStart(ordered) => EventView::ListStart(*ordered),
            MarkupEvent::ItemStart => EventView::ItemStart,
            MarkupEvent::QuoteStart => EventView::QuoteStart,
            MarkupEvent::CodeBlockStart(lang) => EventView::CodeBlockStart(lang@),
            MarkupEvent::HeadingStart(level) => EventView::HeadingStart(*level),
            MarkupEvent::ListEnd => EventView::ListEnd,
            MarkupEvent::QuoteEnd => EventView::QuoteEnd,
            MarkupEvent::CodeBlockEnd => EventView::CodeBlockEnd,
            MarkupEvent::HeadingEnd => EventView::HeadingEnd,
            MarkupEvent::Text(t) => EventView::Text(t@),
            MarkupEvent::Code(t) => EventView::Code(t@),
            MarkupEvent::Html(t) => EventView::Html(t@),
            MarkupEvent::SoftBreak => EventView::SoftBreak,
            MarkupEvent::HardBreak => EventView::HardBreak,
            MarkupEvent::Rule => EventView::Rule,
            MarkupEvent::Other => EventView::Other,
        }
    }
}

/// The views of a sequence of events.
pub open spec fn event_views(events: Seq<MarkupEvent>) -> Seq<EventView> {
    events.map_values(|e: MarkupEvent| e@)
}

/// Traversal state of the renderer: the finished top-level blocks, the block
/// that is collecting text, the open lists (numbered or not, with their
/// items) and the children of the open quotes.
pub struct RenderState {
    pub elements: Seq<Block>,
    pub current: Option<Block>,
    pub lists: Seq<(bool, Seq<Seq<Block>>)>,
    pub quotes: Seq<Seq<Block>>,
}

/// The state before the first event.
pub open spec fn initial_state() -> RenderState {
    RenderState {
        elements: Seq::empty(),
        current: None,
        lists: Seq::empty(),
        quotes: Seq::empty(),
    }
}

/// `b` placed where content goes: the last item of the innermost list if a
/// list is open (nowhere if that list has no item yet), else the innermost
/// quote, else the top level.
pub open spec fn deliver(st: RenderState, b: Block) -> RenderState {
    if st.lists.len() > 0 {
        let frame = st.lists.last();
        if frame.1.len() > 0 {
            let items = frame.1.update(frame.1.len() - 1, frame.1.last().push(b));
            RenderState { lists: st.lists.update(st.lists.len() - 1, (frame.0, items)), ..st }
        } else {
            st
        }
    } else if st.quotes.len() > 0 {
        RenderState { quotes: st.quotes.update(st.quotes.len() - 1, st.quotes.last().push(b)), ..st }
    } else {
        RenderState { elements: st.elements.push(b), ..st }
    }
}

/// The block collecting text, if any, delivered and closed.
pub open spec fn flush(st: RenderState) -> RenderState {
    match st.current {
        Some(b) => deliver(RenderState { current: None, ..st }, b),
        None => st,
    }
}

/// `b` placed in the last item of the innermost list if a list is open
/// (nowhere if it has no item yet), else at the top level.
pub open spec fn deliver_inline(st: RenderState, b: Block) -> RenderState {
    if st.lists.len() > 0 {
        deliver(st, b)
    } else {
        RenderState { elements: st.elements.push(b), ..st }
    }
}

/// `b` placed at the top level.
pub open spec fn emit_top(st: RenderState, b: Block) -> RenderState {
    RenderState { elements: st.elements.push(b), ..st }
}

/// The state after one event.
pub open spec fn step(st: RenderState, ev: EventView) -> RenderState {
    match ev {
        EventView::ListStart(ordered) => {
            let s = flush(st);
            RenderState { lists: s.lists.push((ordered, Seq::empty())), ..s }
        },
        EventView::ItemStart => {
            if st.lists.len() > 0 {
                let frame = st.lists.last();
                RenderState {
                    lists: st.lists.update(st.lists.len() - 1, (frame.0, frame.1.push(Seq::empty()))),
                    ..st
                }
            } else {
                st
            }
        },
        EventView::QuoteStart => {
            let s = flush(st);
            RenderState { quotes: s.quotes.push(Seq::empty()), ..s }
        },
        EventView::CodeBlockStart(lang) => {
            RenderState { current: Some(Block::CodeBlock(lang, Seq::empty())), ..flush(st) }
        },
        EventView::HeadingStart(level) => {
            RenderState { current: Some(Block::Heading(level, Seq::empty())), ..flush(st) }
        },
        EventView::ListEnd => {
            if st.lists.len() > 0 {
                let frame = st.lists.last();
                let s = flush(RenderState { lists: st.lists.drop_last(), ..st });
                deliver(
                    s,
                    if frame.0 {
                        Block::OrderedList(frame.1)
                    } else {
                        Block::UnorderedList(frame.1)
                    },
                )
            } else {
                st
            }
        },
        EventView::QuoteEnd => {
            if st.quotes.len() > 0 {
                let children = st.quotes.last();
                let s = flush(RenderState { quotes: st.quotes.drop_last(), ..st });
                deliver(s, Block::BlockQuote(children))
            } else {
                st
            }
        },
        EventView::CodeBlockEnd => flush(st),
        EventView::HeadingEnd => flush(st),
        EventView::Text(t) => match st.current {
            Some(Block::CodeBlock(lang, code)) => RenderState {
                current: Some(Block::CodeBlock(lang, code + t)),
                ..st
            },
            Some(Block::Heading(level, h)) => RenderState {
                current: Some(Block::Heading(level, h + t)),
                ..st
            },
            Some(Block::Paragraph(p)) => RenderState {
                current: Some(Block::Paragraph(p + t)),
                ..st
            },
            Some(_) => st,
            None => deliver(st, Block::Paragraph(t)),
        },
        EventView::Code(t) => deliver_inline(st, Block::InlineCode(t)),
        EventView::Html(t) => emit_top(st, Block::RawHtml(t)),
        EventView::SoftBreak => st,
        EventView::HardBreak => match st.current {
            Some(Block::Paragraph(p)) => RenderState {
                current: Some(Block::Paragraph(p.push('\n'))),
                ..st
            },
            Some(_) => st,
            None => emit_top(st, Block::LineBreak),
        },
        EventView::Rule => emit_top(st, Block::HorizontalRule),
        EventView::Other => st,
    }
}

/// The state after each of `events` in turn.
pub open spec fn run(events: Seq<EventView>) -> RenderState
    decreases events.len(),
{
    if events.len() == 0 {
        initial_state()
    } else {
        step(run(events.drop_last()), events.last())
    }
}

/// The tree that `events` render to: the top-level blocks, then the block
/// still collecting text, if any.
pub open spec fn render_events_spec(events: Seq<EventView>) -> Seq<Block> {
    let st = run(events);
    match st.current {
        Some(b) => st.elements.push(b),
        None => st.elements,
    }
}

// The parser's event types, declared with their variants so that
// `markup_event` can match on them; `CowStr` stays opaque.

/// pulldown_cmark's `Event`: one event of the parse.
#[verifier::external_type_specification]
pub struct ExEvent<'a>(pulldown_cmark::Event<'a>);

/// pulldown_cmark's `Tag`: what a start event opens.
#[verifier::external_type_specification]
pub struct ExTag<'a>(pulldown_cmark::Tag<'a>);

/// pulldown_cmark's `TagEnd`: what an end event closes.
#[verifier::external_type_specification]
pub struct ExTagEnd(pulldown_cmark::TagEnd);

/// pulldown_cmark's `CodeBlockKind`: indented, or fenced with its info string.
#[verifier::external_type_specification]
pub struct ExCodeBlockKind<'a>(pulldown_cmark::CodeBlockKind<'a>);

/// pulldown_cmark's `HeadingLevel`: `H1` to `H6`.
#[verifier::external_type_specification]
pub struct ExHeadingLevel(pulldown_cmark::HeadingLevel);

/// pulldown_cmark's `BlockQuoteKind`, a field of `Tag`.
#[verifier::external_type_specification]
pub struct ExBlockQuoteKind(pulldown_cmark::BlockQuoteKind);

/// pulldown_cmark's `MetadataBlockKind`, a field of `Tag`.
#[verifier::external_type_specification]
pub struct ExMetadataBlockKind(pulldown_cmark::MetadataBlockKind);

/// pulldown_cmark's `LinkType`, a field of `Tag`.
#[verifier::external_type_specification]
pub struct ExLinkType(pulldown_cmark::LinkType);

/// pulldown_cmark's `Alignment`, a field of `Tag`.
#[verifier::external_type_specification]
pub struct ExAlignment(pulldown_cmark::Alignment);

/// pulldown_cmark's `CowStr`: a string of the parsed text, kept opaque.
#[verifier::external_type_specification]
#[verifier::external_body]
pub struct ExCowStr<'a>(pulldown_cmark::CowStr<'a>);

/// Relies on `CowStr::into_string`, which turns the parser's string into an
/// owned `String`.
#[verifier::external_body]
fn cow_string(s: CowStr<'_>) -> String {
    s.into_string()
}

/// The level of a heading, 1 to 6.
fn heading_number(level: HeadingLevel) -> (r: u8)
    ensures
        1 <= r <= 6,
{
    match level {
        HeadingLevel::H1 => 1,
        HeadingLevel::H2 => 2,
        HeadingLevel::H3 => 3,
        HeadingLevel::H4 => 4,
        HeadingLevel::H5 => 5,
        HeadingLevel::H6 => 6,
    }
}

/// The markup event that a parser event stands for.
pub open spec fn same_kind(e: Event, r: MarkupEvent) -> bool {
    match e {
        Event::Start(Tag::List(start)) => r == MarkupEvent::ListStart(start is Some),
        Event::Start(Tag::Item) => r is ItemStart,
        Event::Start(Tag::BlockQuote(_)) => r is QuoteStart,
        Event::Start(Tag::CodeBlock(_)) => r is CodeBlockStart,
        Event::Start(Tag::Heading { .. }) => r is HeadingStart,
        Event::End(TagEnd::List(_)) => r is ListEnd,
        Event::End(TagEnd::BlockQuote(_)) => r is QuoteEnd,
        Event::End(TagEnd::CodeBlock) => r is CodeBlockEnd,
        Event::End(TagEnd::Heading(_)) => r is HeadingEnd,
        Event::Text(_) => r is Text,
        Event::Code(_) => r is Code,
        Event::Html(_) => r is Html,
        Event::SoftBreak => r is SoftBreak,
        Event::HardBreak => r is HardBreak,
        Event::Rule => r is Rule,
        _ => r is Other,
    }
}

/// Translates one parser event into the renderer's own event. An indented
/// code block has an empty language tag.
pub fn markup_event(e: Event<'_>) -> (r: MarkupEvent)
    ensures
        same_kind(e, r),
{
    match e {
        Event::Start(Tag::List(start)) => MarkupEvent::ListStart(start.is_some()),
        Event::Start(Tag::Item) => MarkupEvent::ItemStart,
        Event::Start(Tag::BlockQuote(_)) => MarkupEvent::QuoteStart,
        Event::Start(Tag::CodeBlock(CodeBlockKind::Fenced(lang))) => MarkupEvent::CodeBlockStart(
            cow_string(lang),
        ),
        Event::Start(Tag::CodeBlock(CodeBlockKind::Indented)) => MarkupEvent::CodeBlockStart(
            String::new(),
        ),
        Event::Start(Tag::Heading { level, .. }) => MarkupEvent::HeadingStart(
            heading_number(level),
        ),
        Event::End(TagEnd::List(_)) => MarkupEvent::ListEnd,
        Event::End(TagEnd::BlockQuote(_)) => MarkupEvent::QuoteEnd,
        Event::End(TagEnd::CodeBlock) => MarkupEvent::CodeBlockEnd,
        Event::End(TagEnd::Heading(_)) => MarkupEvent::HeadingEnd,
        Event::Text(t) => MarkupEvent::Text(cow_string(t)),
        Event::Code(t) => MarkupEvent::Code(cow_string(t)),
        Event::Html(t) => MarkupEvent::Html(cow_string(t)),
        Event::SoftBreak => MarkupEvent::SoftBreak,
        Event::HardBreak => MarkupEvent::HardBreak,
        Event::Rule => MarkupEvent::Rule,
        _ => MarkupEvent::Other,
    }
}

/// The markup events of a Markdown text, as the parser yields them.
pub uninterp spec fn markup_events(text: Seq<char>) -> Seq<EventView>;

/// Relies on `pulldown_cmark::Parser::new`: the events it yields for a
/// text, in document order, depend on the text alone.
#[verifier::external_body]
fn parse_markup(text: &str) -> (r: Vec<MarkupEvent>)
    ensures
        event_views(r@) == markup_events(text@),
{
    pulldown_cmark::Parser::new(text).map(markup_event).collect()
}

/// Assembles the tree that `events` describe, in one pass.
pub fn render_events(events: Vec<MarkupEvent>) -> (r: Vec<RenderedElement>)
    ensures
        blocks_of(r@) == render_events_spec(event_views(events@)),
{
    let mut builder = TreeBuilder::new();
    let ghost all = events@;
    let ghost views = event_views(all);
    let n = events.len();
    // The events in reverse order, so that popping yields them first to last.
    let mut rest: Vec<MarkupEvent> = Vec::new();
    let mut src = events;
    while src.len() > 0
        invariant
            n == all.len(),
            src@ == all.take(src@.len() as int),
            src@.len() + rest@.len() == n,
            forall|k: int| 0 <= k < rest@.len() ==> rest@[k] == all[n - 1 - k],
        decreases src@.len(),
    {
        let ghost src0 = src@;
        let ghost rest0 = rest@;
        let ev = src.pop().unwrap();
        assert(src0.drop_last() =~= all.take(src0.len() - 1));
        assert(ev == all[src0.len() - 1]);
        rest.push(ev);
        assert(rest@ =~= rest0.push(ev));
    }
    let mut i: usize = 0;
    while rest.len() > 0
        invariant
            n == all.len(),
            i + rest@.len() == n,
            forall|k: int| 0 <= k < rest@.len() ==> rest@[k] == all[n - 1 - k],
            views == event_views(all),
            builder.state() == run(views.take(i as int)),
        decreases rest@.len(),
    {
        let ghost rest0 = rest@;
        let ev = rest.pop().unwrap();
        assert(ev == rest0[rest0.len() - 1]);
        assert(ev == all[i as int]);
        assert(views.take(i as int + 1).drop_last() =~= views.take(i as int));
        assert(views.take(i as int + 1).last() == ev@);
        builder.step(ev);
        i = i + 1;
    }
    assert(views.take(n as int) =~= views);
    let mut elements = builder.elements;
    let ghost elements0 = elements@;
    match builder.current {
        Some(e) => {
            elements.push(e);
            proof {
                lemma_blocks_push(elements0, e);
            }
        },
        None => {},
    }
    elements
}

/// The tree that a Markdown text renders to.
pub open spec fn render_spec(text: Seq<char>) -> Seq<Block> {
    render_events_spec(markup_events(text))
}

/// Renders Markdown text into a fresh tree of display elements. Colours are
/// the presentation's business, so the renderer holds nothing.
pub struct MarkdownRenderer {}

impl MarkdownRenderer {
    pub fn new() -> (r: Self) {
        MarkdownRenderer {  }
    }

    /// Parses `markdown` and assembles the elements its events describe.
    pub fn render(&self, markdown: &str) -> (r: Vec<RenderedElement>)
        ensures
            blocks_of(r@) == render_spec(markdown@),
    {
        render_events(parse_markup(markdown))
    }
}

impl Default for MarkdownRenderer {
    fn default() -> (r: Self) {
        MarkdownRenderer::new()
    }
}

/// Idempotence: rendering the same text twice yields the same tree, since
/// nothing is carried from one call to the next.
pub proof fn render_twice_same_tree(text: Seq<char>, first: Seq<Block>, second: Seq<Block>)
    requires
        first == render_spec(text),
        second == render_spec(text),
    ensures
        first == second,
{
}

} // verus!
