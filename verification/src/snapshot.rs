//! A snapshot: one directory tree paired with the rendered page of the
//! revision it depicts.  File contents live in the shared store; a
//! snapshot's tree only holds indices into it.

use vstd::prelude::*;

use crate::directory::{
    clone_dir, dir_equal, dir_wf, model_create_dir, model_create_file, model_delete_dir,
    model_delete_file, model_find_file, model_rename_dir, model_rename_file, DirModel,
    VfsDirectory, VfsRoot,
};
use crate::file::{VfsFile, VfsFilesHandle};
use crate::path::VfsPath;

verus! {

#[derive(Debug)]
pub struct VfsSnapshot {
    pub root: VfsRoot,
    pub page: String,
}

impl VfsSnapshot {
    /// The tree is well-formed.
    pub open spec fn wf(&self) -> bool {
        self.root.wf()
    }

    /// The model of the snapshot's tree.
    pub open spec fn model(&self) -> DirModel {
        self.root.model()
    }

    /// An empty snapshot: empty tree, empty page.
    pub fn new() -> (r: VfsSnapshot)
        ensures
            r.wf(),
            r.model() == DirModel::empty(),
            r.page@ == Seq::<char>::empty(),
    {
        VfsSnapshot { root: VfsRoot::new(), page: String::new() }
    }

    /// A deep copy: a fresh tree with the same model and the same page,
    /// so that mutating either snapshot cannot affect the other.
    pub fn duplicate(&self) -> (r: VfsSnapshot)
        requires
            self.wf(),
        ensures
            r.wf(),
            r.model() == self.model(),
            r.page@ == self.page@,
    {
        VfsSnapshot { root: VfsRoot(clone_dir(&self.root.0)), page: self.page.clone() }
    }

    /// See [`VfsRoot::create_directory`].
    pub fn create_directory(&mut self, path: &VfsPath)
        requires
            old(self).wf(),
            path.wf(),
        ensures
            final(self).wf(),
            final(self).model() == model_create_dir(old(self).model(), path@),
            final(self).page == old(self).page,
    {
        self.root.create_directory(path);
    }

    /// See [`VfsRoot::delete_directory`].
    pub fn delete_directory(&mut self, path: &VfsPath)
        requires
            old(self).wf(),
            path.wf(),
        ensures
            final(self).wf(),
            final(self).model() == model_delete_dir(old(self).model(), path@),
            final(self).page == old(self).page,
    {
        self.root.delete_directory(path);
    }

    /// See [`VfsRoot::rename_directory`].
    pub fn rename_directory(&mut self, old_path: &VfsPath, new_path: &VfsPath)
        requires
            old(self).wf(),
            old_path.wf(),
            new_path.wf(),
        ensures
            final(self).wf(),
            final(self).model() == model_rename_dir(old(self).model(), old_path@, new_path@),
            final(self).page == old(self).page,
    {
        self.root.rename_directory(old_path, new_path);
    }

    /// Adds a record with `content` to the shared store and binds `path`
    /// to the new index.
    pub fn create_file(&mut self, files: &mut VfsFilesHandle, path: &VfsPath, content: String)
        requires
            old(self).wf(),
            path.wf(),
        ensures
            final(self).wf(),
            final(files)@ == old(files)@.push(content@),
            final(self).model() == model_create_file(
                old(self).model(),
                path@,
                old(files)@.len() as nat,
            ),
            final(self).page == old(self).page,
    {
        let file_index = files.add_file(VfsFile::new(content));
        self.root.create_file(path, file_index);
    }

    /// Writes `content` at `path`.  The store grows instead of updating
    /// in place: this forwards to [`VfsSnapshot::create_file`], so even a
    /// pure edit allocates a fresh index.
    pub fn write_file(&mut self, files: &mut VfsFilesHandle, path: &VfsPath, content: String)
        requires
            old(self).wf(),
            path.wf(),
        ensures
            final(self).wf(),
            final(files)@ == old(files)@.push(content@),
            final(self).model() == model_create_file(
                old(self).model(),
                path@,
                old(files)@.len() as nat,
            ),
            final(self).page == old(self).page,
    {
        self.create_file(files, path, content);
    }

    /// The content of the file at `path`, read through the shared store.
    pub fn read_file(&self, files: &VfsFilesHandle, path: &VfsPath) -> (r: Option<String>)
        requires
            self.wf(),
            path.wf(),
        ensures
            match r {
                Option::Some(c) => match model_find_file(self.model(), path@) {
                    Option::Some(i) => i < files@.len() && c@ == files@[i as int],
                    Option::None => false,
                },
                Option::None => match model_find_file(self.model(), path@) {
                    Option::Some(i) => i >= files@.len(),
                    Option::None => true,
                },
            },
    {
        match self.root.find_file(path) {
            Option::Some(file_index) => files.read_file(file_index),
            Option::None => None,
        }
    }

    /// See [`VfsRoot::delete_file`].
    pub fn delete_file(&mut self, path: &VfsPath)
        requires
            old(self).wf(),
            path.wf(),
        ensures
            final(self).wf(),
            final(self).model() == model_delete_file(old(self).model(), path@),
            final(self).page == old(self).page,
    {
        self.root.delete_file(path);
    }

    /// See [`VfsRoot::rename_file`].
    pub fn rename_file(&mut self, old_path: &VfsPath, new_path: &VfsPath)
        requires
            old(self).wf(),
            old_path.wf(),
            new_path.wf(),
        ensures
            final(self).wf(),
            final(self).model() == model_rename_file(old(self).model(), old_path@, new_path@),
            final(self).page == old(self).page,
    {
        self.root.rename_file(old_path, new_path);
    }

    /// Replaces the rendered page.
    pub fn set_page(&mut self, page: String)
        ensures
            final(self).page == page,
            final(self).root == old(self).root,
    {
        self.page = page;
    }

    /// Structural equality: same tree model and same page.  The shared
    /// file store is deliberately not compared.
    pub fn equals(&self, other: &VfsSnapshot) -> (r: bool)
        requires
            self.wf(),
            other.wf(),
        ensures
            r == (self.model() == other.model() && self.page@ == other.page@),
    {
        let trees = dir_equal(&self.root.0, &other.root.0);
        trees && self.page == other.page
    }
}

} // verus!
