//! A bounded, linear undo/redo history of reversible edits.

use crate::text_buffer::replace_bytes;
use vstd::prelude::*;
use vstd::utf8::encode_utf8;

verus! {

/// A reversible change: `new_text` replaced `old_text` at byte `position`.
pub struct Edit {
    pub old_text: String,
    pub new_text: String,
    pub position: usize,
    pub cursor_before: (usize, usize),
    pub cursor_after: (usize, usize),
}

/// What an `Edit` holds, with its texts as characters.
pub struct EditView {
    pub old_text: Seq<char>,
    pub new_text: Seq<char>,
    pub position: int,
    pub cursor_before: (usize, usize),
    pub cursor_after: (usize, usize),
}

impl View for Edit {
    type V = EditView;

    open spec fn view(&self) -> EditView {
        EditView {
            old_text: self.old_text@,
            new_text: self.new_text@,
            position: self.position as int,
            cursor_before: self.cursor_before,
            cursor_after: self.cursor_after,
        }
    }
}

impl Edit {
    /// A copy of this edit.
    pub fn duplicate(&self) -> (r: Edit)
        ensures
            r@ == self@,
    {
        Edit {
            old_text: self.old_text.clone(),
            new_text: self.new_text.clone(),
            position: self.position,
            cursor_before: self.cursor_before,
            cursor_after: self.cursor_after,
        }
    }
}

/// `text` with `edit` taken back: the bytes of its new text, at its
/// position, give way to its old text.
pub open spec fn undo_bytes(text: Seq<u8>, edit: EditView) -> Seq<u8> {
    replace_bytes(
        text,
        edit.position,
        edit.position + encode_utf8(edit.new_text).len(),
        encode_utf8(edit.old_text),
    )
}

/// `text` with `edit` made again: the bytes of its old text, at its
/// position, give way to its new text.
pub open spec fn redo_bytes(text: Seq<u8>, edit: EditView) -> Seq<u8> {
    replace_bytes(
        text,
        edit.position,
        edit.position + encode_utf8(edit.old_text).len(),
        encode_utf8(edit.new_text),
    )
}

/// `text` with each of `edits` made in turn, the first one first.
pub open spec fn redo_all(text: Seq<u8>, edits: Seq<EditView>) -> Seq<u8>
    decreases edits.len(),
{
    if edits.len() == 0 {
        text
    } else {
        redo_bytes(redo_all(text, edits.drop_last()), edits.last())
    }
}

/// `text` with each of `edits` taken back in turn, the last one first.
pub open spec fn undo_all(text: Seq<u8>, edits: Seq<EditView>) -> Seq<u8>
    decreases edits.len(),
{
    if edits.len() == 0 {
        text
    } else {
        undo_all(undo_bytes(text, edits.last()), edits.drop_last())
    }
}

/// Whether `edits`, made in turn from `text`, each found its old text at
/// its position: the records describe changes that really happened.
pub open spec fn applied(text: Seq<u8>, edits: Seq<EditView>) -> bool
    decreases edits.len(),
{
    edits.len() == 0 || {
        let before = redo_all(text, edits.drop_last());
        let e = edits.last();
        let old_bytes = encode_utf8(e.old_text);
        &&& applied(text, edits.drop_last())
        &&& 0 <= e.position
        &&& e.position + old_bytes.len() <= before.len()
        &&& before.subrange(e.position, e.position + old_bytes.len()) == old_bytes
    }
}

/// Taking back an edit that was made gives the text it was made on.
pub proof fn lemma_undo_redo(text: Seq<u8>, edit: EditView)
    requires
        0 <= edit.position,
        edit.position + encode_utf8(edit.old_text).len() <= text.len(),
        text.subrange(edit.position, edit.position + encode_utf8(edit.old_text).len())
            == encode_utf8(edit.old_text),
    ensures
        undo_bytes(redo_bytes(text, edit), edit) == text,
{
    let p = edit.position as int;
    let ob = encode_utf8(edit.old_text);
    let nb = encode_utf8(edit.new_text);
    let deleted = text.take(p) + text.skip(p + ob.len());
    assert(deleted.take(p) =~= text.take(p));
    assert(deleted.skip(p) =~= text.skip(p + ob.len()));
    let done = redo_bytes(text, edit);
    assert(done =~= text.take(p) + nb + text.skip(p + ob.len()));
    let removed = done.take(p) + done.skip(p + nb.len());
    assert(done.take(p) =~= text.take(p));
    assert(done.skip(p + nb.len()) =~= text.skip(p + ob.len()));
    assert(removed.take(p) =~= text.take(p));
    assert(removed.skip(p) =~= text.skip(p + ob.len()));
    assert(text =~= text.take(p) + ob + text.skip(p + ob.len()));
}

/// Undo/redo symmetry: after edits that were really made, taking them all
/// back restores the text they started from, and making them all again
/// restores, byte for byte, the text from before the undos.
pub proof fn undo_all_then_redo_all(text: Seq<u8>, edits: Seq<EditView>)
    requires
        applied(text, edits),
    ensures
        undo_all(redo_all(text, edits), edits) == text,
        redo_all(undo_all(redo_all(text, edits), edits), edits) == redo_all(text, edits),
    decreases edits.len(),
{
    if edits.len() > 0 {
        let rest = edits.drop_last();
        undo_all_then_redo_all(text, rest);
        lemma_undo_redo(redo_all(text, rest), edits.last());
    }
}

/// Undo and redo stacks of edits, holding together at most `max_size`
/// records; a new edit evicts the oldest one when the undo stack is full.
pub struct EditHistory {
    undo_stack: Vec<Edit>,
    redo_stack: Vec<Edit>,
    max_size: usize,
}

impl EditHistory {
    /// The internal invariant: both stacks together fit in the bound.
    pub closed spec fn wf(&self) -> bool {
        self.undo_stack@.len() + self.redo_stack@.len() <= self.max_size
    }

    /// The edits that can be undone, the most recent last.
    pub closed spec fn undos(&self) -> Seq<EditView> {
        self.undo_stack@.map_values(|e: Edit| e@)
    }

    /// The edits that can be redone, the next one last.
    pub closed spec fn redos(&self) -> Seq<EditView> {
        self.redo_stack@.map_values(|e: Edit| e@)
    }

    /// The bound on the number of records.
    pub closed spec fn max_size(&self) -> nat {
        self.max_size as nat
    }

    /// An empty history that keeps at most `max_size` records.
    pub fn new(max_size: usize) -> (r: Self)
        ensures
            r.wf(),
            r.undos() == Seq::<EditView>::empty(),
            r.redos() == Seq::<EditView>::empty(),
            r.max_size() == max_size,
    {
        let r = EditHistory { undo_stack: Vec::new(), redo_stack: Vec::new(), max_size };
        assert(r.undos() =~= Seq::<EditView>::empty());
        assert(r.redos() =~= Seq::<EditView>::empty());
        r
    }

    /// Records a new edit: it goes on the undo stack, evicting the oldest
    /// record if the stack is full, and the redo stack is emptied. With a
    /// bound of 0 nothing is kept.
    pub fn push(&mut self, edit: Edit)
        requires
            old(self).wf(),
        ensures
            final(self).wf(),
            final(self).max_size() == old(self).max_size(),
            final(self).redos() == Seq::<EditView>::empty(),
            old(self).max_size() == 0 ==> final(self).undos() == old(self).undos(),
            old(self).max_size() > 0 ==> final(self).undos() == (if old(self).undos().len()
                >= old(self).max_size() {
                old(self).undos().drop_first()
            } else {
                old(self).undos()
            }).push(edit@),
    {
        self.redo_stack.clear();
        if self.max_size == 0 {
            assert(self.redos() =~= Seq::<EditView>::empty());
            return;
        }
        let ghost before = self.undos();
        if self.undo_stack.len() >= self.max_size {
            self.undo_stack.remove(0);
            assert(self.undos() =~= before.drop_first());
        }
        let ghost kept = self.undos();
        self.undo_stack.push(edit);
        assert(self.undos() =~= kept.push(edit@));
        assert(self.redos() =~= Seq::<EditView>::empty());
    }

    /// Takes the most recent edit off the undo stack, puts it on the redo
    /// stack and returns it; `None`, with nothing changed, if there is none.
    pub fn undo(&mut self) -> (r: Option<Edit>)
        requires
            old(self).wf(),
        ensures
            final(self).wf(),
            final(self).max_size() == old(self).max_size(),
            old(self).undos().len() == 0 ==> r is None && final(self).undos() == old(self).undos()
                && final(self).redos() == old(self).redos(),
            old(self).undos().len() > 0 ==> (r matches Some(e) && e@ == old(self).undos().last()
                && final(self).undos() == old(self).undos().drop_last() && final(self).redos()
                == old(self).redos().push(e@)),
    {
        let ghost undos = self.undos();
        let ghost redos = self.redos();
        match self.undo_stack.pop() {
            Some(edit) => {
                assert(self.undos() =~= undos.drop_last());
                self.redo_stack.push(edit.duplicate());
                assert(self.redos() =~= redos.push(edit@));
                Some(edit)
            },
            None => None,
        }
    }

    /// Takes the next edit off the redo stack, puts it back on the undo
    /// stack and returns it; `None`, with nothing changed, if there is none.
    pub fn redo(&mut self) -> (r: Option<Edit>)
        requires
            old(self).wf(),
        ensures
            final(self).wf(),
            final(self).max_size() == old(self).max_size(),
            old(self).redos().len() == 0 ==> r is None && final(self).undos() == old(self).undos()
                && final(self).redos() == old(self).redos(),
            old(self).redos().len() > 0 ==> (r matches Some(e) && e@ == old(self).redos().last()
                && final(self).redos() == old(self).redos().drop_last() && final(self).undos()
                == old(self).undos().push(e@)),
    {
        let ghost undos = self.undos();
        let ghost redos = self.redos();
        match self.redo_stack.pop() {
            Some(edit) => {
                assert(self.redos() =~= redos.drop_last());
                self.undo_stack.push(edit.duplicate());
                assert(self.undos() =~= undos.push(edit@));
                Some(edit)
            },
            None => None,
        }
    }

    /// Whether there is an edit to undo.
    pub fn can_undo(&self) -> (r: bool)
        ensures
            r == (self.undos().len() > 0),
    {
        self.undo_stack.len() > 0
    }

    /// Whether there is an edit to redo.
    pub fn can_redo(&self) -> (r: bool)
        ensures
            r == (self.redos().len() > 0),
    {
        self.redo_stack.len() > 0
    }

    /// Forgets every edit.
    pub fn clear(&mut self)
        ensures
            final(self).wf(),
            final(self).max_size() == old(self).max_size(),
            final(self).undos() == Seq::<EditView>::empty(),
            final(self).redos() == Seq::<EditView>::empty(),
    {
        self.undo_stack.clear();
        self.redo_stack.clear();
        assert(self.undos() =~= Seq::<EditView>::empty());
        assert(self.redos() =~= Seq::<EditView>::empty());
    }
}

/// History cap: however many edits were pushed, the undo stack never holds
/// more than the bound the history was made with.
pub proof fn undo_stack_within_bound(history: &EditHistory)
    requires
        history.wf(),
    ensures
        history.undos().len() <= history.max_size(),
        history.redos().len() <= history.max_size(),
{
}

} // verus!
