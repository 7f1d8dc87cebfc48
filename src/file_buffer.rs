use vstd::prelude::*;
use crate::rope::{Rope, spliced, removed};

verus! {

/// The text of one file: its current rope, the file's name, and whether it was
/// edited since it was loaded or saved.
pub struct FileBuffer {
    filename: String,
    rope: Rope,
    dirty: bool,
}

impl FileBuffer {
    pub closed spec fn wf(self) -> bool {
        self.rope.wf()
    }

    /// The current text.
    pub closed spec fn text(self) -> Seq<char> {
        self.rope@
    }

    pub closed spec fn name(self) -> Seq<char> {
        self.filename@
    }

    pub closed spec fn edited(self) -> bool {
        self.dirty
    }

    /// A clean buffer for `filename` holding `contents`, as read from the file.
    pub fn new(filename: String, contents: String) -> (r: FileBuffer)
        ensures
            r.wf(),
            r.text() == contents@,
            r.name() == filename@,
            !r.edited(),
    {
        FileBuffer { filename, rope: Rope::from_text(contents), dirty: false }
    }

    pub fn filename(&self) -> (r: &String)
        ensures
            r@ == self.name(),
    {
        &self.filename
    }

    pub fn is_dirty(&self) -> (r: bool)
        ensures
            r == self.edited(),
    {
        self.dirty
    }

    /// The current version of the text.
    pub fn rope(&self) -> (r: &Rope)
        requires
            self.wf(),
        ensures
            r.wf(),
            r@ == self.text(),
    {
        &self.rope
    }

    /// Places `text` at offset `i`. The version before the edit is handed back whole.
    pub fn apply_insert(&mut self, i: usize, text: String) -> (prev: Rope)
        requires
            old(self).wf(),
            i <= old(self).text().len(),
            old(self).text().len() + text@.len() <= usize::MAX,
        ensures
            final(self).wf(),
            final(self).text() == spliced(old(self).text(), i as int, text@),
            final(self).name() == old(self).name(),
            final(self).edited(),
            prev.wf(),
            prev@ == old(self).text(),
    {
        let piece = Rope::from_text(text);
        let next = self.rope.insert(i, &piece);
        let prev = self.rope.snapshot();
        self.rope = next;
        self.dirty = true;
        prev
    }

    /// Removes the `len` scalars at offset `i`. The version before the edit is handed
    /// back whole.
    pub fn apply_delete(&mut self, i: usize, len: usize) -> (prev: Rope)
        requires
            old(self).wf(),
            i + len <= old(self).text().len(),
        ensures
            final(self).wf(),
            final(self).text() == removed(old(self).text(), i as int, len as int),
            final(self).name() == old(self).name(),
            final(self).edited(),
            prev.wf(),
            prev@ == old(self).text(),
    {
        let next = self.rope.delete(i, len);
        let prev = self.rope.snapshot();
        self.rope = next;
        self.dirty = true;
        prev
    }

    /// Records that the current text was written out.
    pub fn mark_saved(&mut self)
        ensures
            final(self).wf() == old(self).wf(),
            final(self).text() == old(self).text(),
            final(self).name() == old(self).name(),
            !final(self).edited(),
    {
        self.dirty = false;
    }

    /// The whole current text, for saving or display.
    pub fn get_contents(&self) -> (r: String)
        requires
            self.wf(),
        ensures
            r@ == self.text(),
    {
        self.rope.materialize()
    }
}

} // verus!
