//! The file store: a growable, indexable table of file contents shared by
//! every snapshot of one build.  Indices are stable for the store's
//! lifetime; nothing is ever deleted.

use vstd::prelude::*;

verus! {

/// One file record: its text content.
#[derive(Debug)]
pub struct VfsFile {
    content: String,
}

impl View for VfsFile {
    type V = Seq<char>;

    closed spec fn view(&self) -> Seq<char> {
        self.content@
    }
}

impl VfsFile {
    pub fn new(content: String) -> (r: VfsFile)
        ensures
            r@ == content@,
    {
        VfsFile { content }
    }
}

/// The store itself: the table of file records, viewed as the sequence of
/// their contents.
#[derive(Debug)]
pub struct VfsFilesHandle {
    files: Vec<VfsFile>,
}

impl View for VfsFilesHandle {
    type V = Seq<Seq<char>>;

    closed spec fn view(&self) -> Seq<Seq<char>> {
        self.files@.map_values(|f: VfsFile| f@)
    }
}

impl VfsFilesHandle {
    /// An empty store.
    pub fn new() -> (r: VfsFilesHandle)
        ensures
            r@ == Seq::<Seq<char>>::empty(),
    {
        let r = VfsFilesHandle { files: Vec::new() };
        proof {
            assert(r@ =~= Seq::<Seq<char>>::empty());
        }
        r
    }

    /// Appends a record and returns its index.  Indices grow one at a
    /// time and are never reused.
    pub fn add_file(&mut self, file: VfsFile) -> (r: usize)
        ensures
            final(self)@ == old(self)@.push(file@),
            r as int == old(self)@.len(),
    {
        let ghost fv = file@;
        self.files.push(file);
        proof {
            assert(self@ =~= old(self)@.push(fv));
        }
        self.files.len() - 1
    }

    /// Overwrites the record at `file_index`.  A missing index is a soft
    /// warning: the store is left unchanged.
    pub fn write_file(&mut self, file_index: usize, content: String)
        ensures
            final(self)@ == if file_index < old(self)@.len() {
                old(self)@.update(file_index as int, content@)
            } else {
                old(self)@
            },
    {
        if file_index < self.files.len() {
            let ghost cv = content@;
            let _old_file = self.files.remove(file_index);
            self.files.insert(file_index, VfsFile { content });
            proof {
                assert(self.files@ =~= old(self).files@.update(file_index as int, self.files@[file_index as int]));
                assert(self@ =~= old(self)@.update(file_index as int, cv));
            }
        } else {
            proof {
                assert(self@ =~= old(self)@);
            }
        }
    }

    /// The content at `file_index`, if the record exists.
    pub fn read_file(&self, file_index: usize) -> (r: Option<String>)
        ensures
            match r {
                Option::Some(c) => file_index < self@.len() && c@ == self@[file_index as int],
                Option::None => file_index >= self@.len(),
            },
    {
        if file_index < self.files.len() {
            let c = clone_string_content(&self.files[file_index]);
            Some(c)
        } else {
            None
        }
    }

    /// How many records the store holds.
    pub fn len(&self) -> (r: usize)
        ensures
            r == self@.len(),
    {
        self.files.len()
    }
}

fn clone_string_content(f: &VfsFile) -> (r: String)
    ensures
        r@ == f@,
{
    f.content.clone()
}

} // verus!
