//! What the preview panel derives from a rendered tree: its table of
//! contents and its word count.

use crate::markdown::RenderedElement;
use crate::utils::{count_words, word_count as text_word_count};
use vstd::prelude::*;

verus! {

/// The headings among `elements`, in order, as (level, text).
pub open spec fn toc_of(elements: Seq<RenderedElement>) -> Seq<(u8, Seq<char>)>
    decreases elements.len(),
{
    if elements.len() == 0 {
        Seq::empty()
    } else {
        let before = toc_of(elements.drop_last());
        match elements.last() {
            RenderedElement::Heading(level, text) => before.push((level, text@)),
            _ => before,
        }
    }
}

/// The table of contents: the level and text of each top-level heading.
pub fn generate_toc(elements: &Vec<RenderedElement>) -> (r: Vec<(u8, String)>)
    ensures
        r@.len() == toc_of(elements@).len(),
        forall|i: int|
            0 <= i < r@.len() ==> r@[i].0 == toc_of(elements@)[i].0 && r@[i].1@ == toc_of(
                elements@,
            )[i].1,
{
    let mut toc: Vec<(u8, String)> = Vec::new();
    let mut i: usize = 0;
    while i < elements.len()
        invariant
            i <= elements@.len(),
            toc@.len() == toc_of(elements@.take(i as int)).len(),
            forall|k: int|
                0 <= k < toc@.len() ==> toc@[k].0 == toc_of(elements@.take(i as int))[k].0
                    && toc@[k].1@ == toc_of(elements@.take(i as int))[k].1,
        decreases elements@.len() - i,
    {
        assert(elements@.take(i + 1).drop_last() =~= elements@.take(i as int));
        match &elements[i] {
            RenderedElement::Heading(level, text) => {
                toc.push((*level, text.clone()));
            },
            _ => {},
        }
        i = i + 1;
    }
    assert(elements@.take(elements@.len() as int) =~= elements@);
    toc
}

/// `n`, or the largest `usize` if it is larger.
pub open spec fn saturated(n: nat) -> nat {
    if n > usize::MAX {
        usize::MAX as nat
    } else {
        n
    }
}

/// Words in an element: those of a paragraph's or heading's text, those of
/// the children of a quote or of every list item, none for the rest.
pub open spec fn element_words(e: RenderedElement) -> nat
    decreases e, 2nat,
{
    match e {
        RenderedElement::Paragraph(text) => text_word_count(text@),
        RenderedElement::Heading(_, text) => text_word_count(text@),
        RenderedElement::BlockQuote(items) => seq_words(items@),
        RenderedElement::UnorderedList(items) => items_words(items@),
        RenderedElement::OrderedList(items) => items_words(items@),
        _ => 0,
    }
}

/// Words in a sequence of elements together.
pub open spec fn seq_words(s: Seq<RenderedElement>) -> nat
    decreases s, 1nat,
{
    if s.len() == 0 {
        0
    } else {
        seq_words(s.subrange(0, s.len() - 1)) + element_words(s[s.len() - 1])
    }
}

/// Words in all the items of a list together.
pub open spec fn items_words(s: Seq<Vec<RenderedElement>>) -> nat
    decreases s, 1nat,
{
    if s.len() == 0 {
        0
    } else {
        items_words(s.subrange(0, s.len() - 1)) + seq_words(s[s.len() - 1]@)
    }
}

proof fn lemma_saturated_sum(a: nat, b: nat)
    ensures
        saturated(saturated(a) + saturated(b)) == saturated(a + b),
{
}

/// Words in `items` together, saturating at the largest `usize`.
fn words_in(items: &Vec<RenderedElement>) -> (r: usize)
    ensures
        r == saturated(seq_words(items@)),
    decreases *items, 0nat,
{
    let mut sum: usize = 0;
    let mut i: usize = 0;
    while i < items.len()
        invariant
            i <= items@.len(),
            sum == saturated(seq_words(items@.take(i as int))),
        decreases items@.len() - i,
    {
        let n = count_words_in_element(&items[i]);
        proof {
            assert(items@.take(i + 1).subrange(0, i as int) =~= items@.take(i as int));
            lemma_saturated_sum(seq_words(items@.take(i as int)), element_words(items@[i as int]));
        }
        sum = sum.saturating_add(n);
        i = i + 1;
    }
    assert(items@.take(items@.len() as int) =~= items@);
    sum
}

/// Words in all the items of a list, saturating at the largest `usize`.
fn list_words(items: &Vec<Vec<RenderedElement>>) -> (r: usize)
    ensures
        r == saturated(items_words(items@)),
    decreases *items, 0nat,
{
    let mut sum: usize = 0;
    let mut i: usize = 0;
    while i < items.len()
        invariant
            i <= items@.len(),
            sum == saturated(items_words(items@.take(i as int))),
        decreases items@.len() - i,
    {
        proof {
            assert(decreases_to!(*items => items[i as int]));
        }
        let n = words_in(&items[i]);
        proof {
            assert(items@.take(i + 1).subrange(0, i as int) =~= items@.take(i as int));
            lemma_saturated_sum(items_words(items@.take(i as int)), seq_words(items@[i as int]@));
        }
        sum = sum.saturating_add(n);
        i = i + 1;
    }
    assert(items@.take(items@.len() as int) =~= items@);
    sum
}

/// Words in an element, saturating at the largest `usize`.
pub fn count_words_in_element(element: &RenderedElement) -> (r: usize)
    ensures
        r == saturated(element_words(*element)),
    decreases *element, 1nat,
{
    match element {
        RenderedElement::Paragraph(text) => count_words(text.as_str()),
        RenderedElement::Heading(_, text) => count_words(text.as_str()),
        RenderedElement::BlockQuote(items) => words_in(items),
        RenderedElement::UnorderedList(items) => list_words(items),
        RenderedElement::OrderedList(items) => list_words(items),
        _ => 0,
    }
}

/// Words in all of `elements`, saturating at the largest `usize`.
pub fn word_count(elements: &Vec<RenderedElement>) -> (r: usize)
    ensures
        r == saturated(seq_words(elements@)),
{
    words_in(elements)
}

} // verus!
