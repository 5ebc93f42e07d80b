//! An editing session: the text store, its history, the cursor and the
//! saved/unsaved state.

use crate::config::EditorConfig;
use crate::history::{redo_bytes, undo_bytes, Edit, EditHistory, EditView};
use crate::text_buffer::{byte_of_line_col, delete_bytes, insert_bytes, text_of, TextBuffer};
use vstd::prelude::*;
use vstd::string::{StringExecFns, StringSliceAdditionalSpecFns};
use vstd::utf8::encode_utf8;

verus! {

/// Number of edits the history of a session keeps.
pub const HISTORY_SIZE: usize = 1000;

/// Clamping the end of a deletion to the largest offset changes nothing,
/// since the text is no longer than that.
proof fn lemma_saturated_end(text: Seq<u8>, p: int, n: int)
    requires
        text.len() <= usize::MAX,
        0 <= p,
        0 <= n,
    ensures
        delete_bytes(text, p, if p + n > usize::MAX { usize::MAX as int } else { p + n })
            == delete_bytes(text, p, p + n),
        insert_bytes(text, p, Seq::<u8>::empty()).len() == text.len(),
{
    assert(text.take(if p < text.len() { p } else { text.len() as int }) + text.skip(
        if p < text.len() { p } else { text.len() as int },
    ) =~= text);
}

/// An insertion adds the length of what it inserts.
proof fn lemma_insert_len(text: Seq<u8>, p: int, inserted: Seq<u8>)
    requires
        0 <= p,
    ensures
        insert_bytes(text, p, inserted).len() == text.len() + inserted.len(),
{
}

/// The state of one document being edited.
pub struct Editor {
    buffer: TextBuffer,
    config: EditorConfig,
    has_focus: bool,
    cursor_position: (usize, usize),
    selection: Option<(usize, usize)>,
    history: EditHistory,
    dirty: bool,
}

impl Editor {
    /// The internal invariant.
    pub closed spec fn wf(&self) -> bool {
        &&& self.buffer.wf()
        &&& self.history.wf()
        &&& self.history.max_size() == HISTORY_SIZE
    }

    /// The document's bytes.
    pub closed spec fn text_bytes(&self) -> Seq<u8> {
        self.buffer@
    }

    /// The edits that can be undone, the most recent last.
    pub closed spec fn undos(&self) -> Seq<EditView> {
        self.history.undos()
    }

    /// The edits that can be redone, the next one last.
    pub closed spec fn redos(&self) -> Seq<EditView> {
        self.history.redos()
    }

    /// The cursor as (line, column).
    pub closed spec fn cursor(&self) -> (usize, usize) {
        self.cursor_position
    }

    /// Whether there are changes since the last load or save.
    pub closed spec fn modified(&self) -> bool {
        self.dirty
    }

    /// Whether replacing `[start, end)` of the text with `inserted` bytes
    /// gives a text whose length fits in a `usize`.
    fn replacement_fits(&self, start: usize, end: usize, inserted: usize) -> (r: bool)
        requires
            self.wf(),
        ensures
            r == (delete_bytes(self.text_bytes(), start as int, end as int).len() + inserted
                <= usize::MAX),
    {
        let len = self.buffer.len();
        let s = if start < len {
            start
        } else {
            len
        };
        let e = if end < len {
            end
        } else {
            len
        };
        let remaining = if start >= end {
            len
        } else {
            len - (e - s)
        };
        remaining <= usize::MAX - inserted
    }

    /// A session on an empty document.
    pub fn new() -> (r: Self)
        ensures
            r.wf(),
            r.text_bytes() == Seq::<u8>::empty(),
            r.undos() == Seq::<EditView>::empty(),
            r.redos() == Seq::<EditView>::empty(),
            r.cursor() == (0usize, 0usize),
            !r.modified(),
    {
        Editor {
            buffer: TextBuffer::new(),
            config: EditorConfig::default(),
            has_focus: false,
            cursor_position: (0, 0),
            selection: None,
            history: EditHistory::new(HISTORY_SIZE),
            dirty: false,
        }
    }

    /// Replaces the settings.
    pub fn set_config(&mut self, config: EditorConfig)
        requires
            old(self).wf(),
        ensures
            final(self).wf(),
            final(self).text_bytes() == old(self).text_bytes(),
            final(self).undos() == old(self).undos(),
            final(self).redos() == old(self).redos(),
            final(self).cursor() == old(self).cursor(),
            final(self).modified() == old(self).modified(),
    {
        self.config = config;
    }

    /// The document as a string.
    pub fn text(&self) -> (r: String)
        requires
            self.wf(),
        ensures
            r@ == text_of(self.text_bytes()),
    {
        self.buffer.as_str()
    }

    /// Loads `text` as a fresh document: the history is forgotten and the
    /// document counts as unmodified.
    pub fn set_text(&mut self, text: &str)
        requires
            old(self).wf(),
        ensures
            final(self).wf(),
            final(self).text_bytes() == text.spec_bytes(),
            final(self).undos() == Seq::<EditView>::empty(),
            final(self).redos() == Seq::<EditView>::empty(),
            final(self).cursor() == old(self).cursor(),
            !final(self).modified(),
    {
        self.buffer = TextBuffer::from(text);
        self.dirty = false;
        self.history.clear();
    }

    /// The cursor as (line, column), both from 0.
    pub fn cursor_position(&self) -> (r: (usize, usize))
        ensures
            r == self.cursor(),
    {
        self.cursor_position
    }

    /// Whether there are changes since the last load or save.
    pub fn is_dirty(&self) -> (r: bool)
        ensures
            r == self.modified(),
    {
        self.dirty
    }

    /// Records that the document was just written out.
    pub fn mark_saved(&mut self)
        requires
            old(self).wf(),
        ensures
            final(self).wf(),
            final(self).text_bytes() == old(self).text_bytes(),
            final(self).undos() == old(self).undos(),
            final(self).redos() == old(self).redos(),
            final(self).cursor() == old(self).cursor(),
            !final(self).modified(),
    {
        self.dirty = false;
    }

    /// Takes back the most recent edit: the region now holding its new text
    /// gets its old text back and the cursor returns to where it was before
    /// the edit. Nothing happens if there is no edit to undo.
    pub fn undo(&mut self)
        requires
            old(self).wf(),
        ensures
            final(self).wf(),
            old(self).undos().len() == 0 || undo_bytes(
                old(self).text_bytes(),
                old(self).undos().last(),
            ).len() > usize::MAX ==> final(self).text_bytes() == old(self).text_bytes()
                && final(self).undos() == old(self).undos() && final(self).redos() == old(self).redos() && final(self).cursor() == old(self).cursor() && final(self).modified()
                == old(self).modified(),
            old(self).undos().len() > 0 && undo_bytes(
                old(self).text_bytes(),
                old(self).undos().last(),
            ).len() <= usize::MAX ==> ({
                let e = old(self).undos().last();
                &&& final(self).text_bytes() == undo_bytes(old(self).text_bytes(), e)
                &&& final(self).undos() == old(self).undos().drop_last()
                &&& final(self).redos() == old(self).redos().push(e)
                &&& final(self).cursor() == e.cursor_before
                &&& final(self).modified()
            }),
    {
        match self.history.undo() {
            Some(edit) => {
                proof {
                    self.buffer.lemma_fits();
                }
                let end = edit.position.saturating_add(edit.new_text.as_str().as_bytes().len());
                proof {
                    let t = old(self).text_bytes();
                    let n = encode_utf8(edit.new_text@).len() as int;
                    lemma_saturated_end(t, edit.position as int, n);
                    lemma_insert_len(
                        delete_bytes(t, edit.position as int, edit.position + n),
                        edit.position as int,
                        encode_utf8(edit.old_text@),
                    );
                }
                if !self.replacement_fits(edit.position, end, edit.old_text.as_str().as_bytes().len()) {
                    // The result would not fit in memory: put the edit back.
                    self.history.redo();
                    return;
                }
                self.buffer.replace_range(edit.position..end, edit.old_text.as_str());
                self.cursor_position = edit.cursor_before;
                self.dirty = true;
            },
            None => {},
        }
    }

    /// Makes the next undone edit again: the region holding its old text
    /// gets its new text and the cursor goes to where it was after the edit.
    /// Nothing happens if there is no edit to redo.
    pub fn redo(&mut self)
        requires
            old(self).wf(),
        ensures
            final(self).wf(),
            old(self).redos().len() == 0 || redo_bytes(
                old(self).text_bytes(),
                old(self).redos().last(),
            ).len() > usize::MAX ==> final(self).text_bytes() == old(self).text_bytes()
                && final(self).undos() == old(self).undos() && final(self).redos() == old(self).redos() && final(self).cursor() == old(self).cursor() && final(self).modified()
                == old(self).modified(),
            old(self).redos().len() > 0 && redo_bytes(
                old(self).text_bytes(),
                old(self).redos().last(),
            ).len() <= usize::MAX ==> ({
                let e = old(self).redos().last();
                &&& final(self).text_bytes() == redo_bytes(old(self).text_bytes(), e)
                &&& final(self).redos() == old(self).redos().drop_last()
                &&& final(self).undos() == old(self).undos().push(e)
                &&& final(self).cursor() == e.cursor_after
                &&& final(self).modified()
            }),
    {
        match self.history.redo() {
            Some(edit) => {
                proof {
                    self.buffer.lemma_fits();
                }
                let end = edit.position.saturating_add(edit.old_text.as_str().as_bytes().len());
                proof {
                    let t = old(self).text_bytes();
                    let n = encode_utf8(edit.old_text@).len() as int;
                    lemma_saturated_end(t, edit.position as int, n);
                    lemma_insert_len(
                        delete_bytes(t, edit.position as int, edit.position + n),
                        edit.position as int,
                        encode_utf8(edit.new_text@),
                    );
                }
                if !self.replacement_fits(edit.position, end, edit.new_text.as_str().as_bytes().len()) {
                    // The result would not fit in memory: put the edit back.
                    self.history.undo();
                    return;
                }
                self.buffer.replace_range(edit.position..end, edit.new_text.as_str());
                self.cursor_position = edit.cursor_after;
                self.dirty = true;
            },
            None => {},
        }
    }

    /// Whether there is an edit to undo.
    pub fn can_undo(&self) -> (r: bool)
        ensures
            r == (self.undos().len() > 0),
    {
        self.history.can_undo()
    }

    /// Whether there is an edit to redo.
    pub fn can_redo(&self) -> (r: bool)
        ensures
            r == (self.redos().len() > 0),
    {
        self.history.can_redo()
    }

    /// Inserts `text` at the cursor and records the change in the history,
    /// which forgets the edits that could be redone. Nothing happens if the
    /// longer text would not fit in memory.
    pub fn insert_text(&mut self, text: &str)
        requires
            old(self).wf(),
        ensures
            final(self).wf(),
            old(self).text_bytes().len() + text.spec_bytes().len() > usize::MAX ==> final(self).text_bytes() == old(self).text_bytes() && final(self).undos() == old(self).undos()
                && final(self).redos() == old(self).redos() && final(self).modified() == old(self).modified(),
            old(self).text_bytes().len() + text.spec_bytes().len() <= usize::MAX ==> ({
                let at = byte_of_line_col(old(self).text_bytes(), old(self).cursor().0 as int, old(self).cursor().1 as int);
                &&& final(self).text_bytes() == insert_bytes(
                    old(self).text_bytes(),
                    at,
                    text.spec_bytes(),
                )
                &&& final(self).redos() == Seq::<EditView>::empty()
                &&& final(self).undos().len() > 0
                &&& final(self).undos().last() == (EditView {
                    old_text: Seq::empty(),
                    new_text: text@,
                    position: at,
                    cursor_before: old(self).cursor(),
                    cursor_after: old(self).cursor(),
                })
            }),
            final(self).cursor() == old(self).cursor(),
            old(self).text_bytes().len() + text.spec_bytes().len() <= usize::MAX ==> final(self).modified(),
    {
        if self.buffer.len() > usize::MAX - text.as_bytes().len() {
            return;
        }
        let (line, col) = self.cursor_position;
        let at = self.buffer.byte_index_from_line_col(line, col);
        self.buffer.insert(at, text);
        let edit = Edit {
            old_text: String::new(),
            new_text: String::from_str(text),
            position: at,
            cursor_before: self.cursor_position,
            cursor_after: self.cursor_position,
        };
        self.history.push(edit);
        self.dirty = true;
    }

    /// Deletes the byte before the cursor, if there is one.
    pub fn backspace(&mut self)
        requires
            old(self).wf(),
        ensures
            final(self).wf(),
            ({
                let at = byte_of_line_col(old(self).text_bytes(), old(self).cursor().0 as int, old(self).cursor().1 as int);
                &&& at > 0 ==> final(self).text_bytes() == old(self).text_bytes().take(at - 1)
                    + old(self).text_bytes().skip(at)
                &&& at > 0 ==> final(self).modified()
                &&& at == 0 ==> final(self).text_bytes() == old(self).text_bytes()
                    && final(self).modified() == old(self).modified()
            }),
            final(self).undos() == old(self).undos(),
            final(self).redos() == old(self).redos(),
            final(self).cursor() == old(self).cursor(),
    {
        let (line, col) = self.cursor_position;
        let at = self.buffer.byte_index_from_line_col(line, col);
        if at > 0 {
            self.buffer.delete_range(at - 1..at);
            self.dirty = true;
        }
    }
}

impl Default for Editor {
    fn default() -> (r: Self)
        ensures
            r.wf(),
            r.text_bytes() == Seq::<u8>::empty(),
    {
        Editor::new()
    }
}

} // verus!
