//! The virtual file system: one shared file store and the ordered
//! sequence of snapshots built over it.
//!
//! Extending the sequence deep-copies the last snapshot's tree while
//! keeping the same store: tree structure is per-snapshot, file contents
//! are shared.  That split is the structural-sharing rule the whole
//! artifact is built on.

use vstd::prelude::*;

use crate::directory::{model_find_file, DirModel};
use crate::file::VfsFilesHandle;
use crate::snapshot::VfsSnapshot;

verus! {

#[derive(Debug)]
pub struct Vfs {
    pub files: VfsFilesHandle,
    pub snapshots: Vec<VfsSnapshot>,
}

impl Vfs {
    /// Every snapshot's tree is well-formed.
    pub open spec fn wf(&self) -> bool {
        forall|k: int| 0 <= k < self.snapshots@.len() ==> (#[trigger] self.snapshots@[k]).wf()
    }

    /// An empty file system: no files, no snapshots.
    pub fn new() -> (r: Vfs)
        ensures
            r.wf(),
            r.files@ == Seq::<Seq<char>>::empty(),
            r.snapshots@.len() == 0,
    {
        Vfs { files: VfsFilesHandle::new(), snapshots: Vec::new() }
    }

    /// Re-establishes the shared-store invariant after loading.  The
    /// store is held by the file system itself and snapshots address it
    /// by index, so there is no per-snapshot handle left to re-wire.
    pub fn propagate_files(&mut self)
        ensures
            *final(self) == *old(self),
    {
    }

    /// Appends a snapshot: a deep copy of the last one's tree (an empty
    /// tree when there is none) over the same store, with an empty page,
    /// ready for in-place edits.
    pub fn add_snapshot(&mut self)
        requires
            old(self).wf(),
        ensures
            final(self).wf(),
            final(self).files == old(self).files,
            final(self).snapshots@.len() == old(self).snapshots@.len() + 1,
            forall|k: int|
                0 <= k < old(self).snapshots@.len() ==> final(self).snapshots@[k] == old(
                    self,
                ).snapshots@[k],
            ({
                let last = final(self).snapshots@.last();
                &&& last.page@ == Seq::<char>::empty()
                &&& last.model() == if old(self).snapshots@.len() > 0 {
                    old(self).snapshots@.last().model()
                } else {
                    DirModel::empty()
                }
            }),
    {
        let mut new_snapshot: VfsSnapshot = if self.snapshots.len() > 0 {
            self.snapshots[self.snapshots.len() - 1].duplicate()
        } else {
            VfsSnapshot::new()
        };
        new_snapshot.set_page(String::new());
        self.snapshots.push(new_snapshot);
    }
}

/// Structural sharing, first half: snapshots do not share tree structure,
/// so editing the snapshot at `edited` leaves every other snapshot's
/// model exactly as it was, whatever the edit did.
pub proof fn lemma_snapshot_isolation(v: Vfs, v2: Vfs, edited: int, k: int)
    requires
        0 <= edited < v.snapshots@.len(),
        0 <= k < v.snapshots@.len(),
        k != edited,
        v2.snapshots@ == v.snapshots@.update(edited, v2.snapshots@[edited]),
    ensures
        v2.snapshots@[k] == v.snapshots@[k],
{
}

/// Structural sharing, second half: file contents are shared.  After the
/// store record at `idx` is overwritten with `c`, every snapshot that
/// binds some path to `idx` reads `c` back through the store, whichever
/// snapshot the binding belongs to.
pub proof fn lemma_shared_store_visibility(
    s: VfsSnapshot,
    store: Seq<Seq<char>>,
    p: Seq<Seq<char>>,
    idx: nat,
    c: Seq<char>,
)
    requires
        model_find_file(s.model(), p) == Option::Some(idx),
        idx < store.len(),
    ensures
        store.update(idx as int, c)[model_find_file(s.model(), p).unwrap() as int] == c,
{
}

} // verus!
