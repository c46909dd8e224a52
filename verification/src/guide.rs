//! The guide: the publication's name and its virtual file system.

use vstd::prelude::*;

use crate::directory::DirModel;
use crate::snapshot::VfsSnapshot;
use crate::vfs::Vfs;

verus! {

#[derive(Debug)]
pub struct Guide {
    pub name: String,
    pub vfs: Vfs,
}

/// The mathematical reading of one snapshot: its tree model and page.
#[verifier::ext_equal]
pub struct SnapModel {
    pub tree: DirModel,
    pub page: Seq<char>,
}

/// The mathematical reading of a guide: name, file-store contents, and
/// the snapshot sequence.
#[verifier::ext_equal]
pub struct GuideModel {
    pub name: Seq<char>,
    pub files: Seq<Seq<char>>,
    pub snaps: Seq<SnapModel>,
}

/// The models of a snapshot sequence.
pub open spec fn snap_models(s: Seq<VfsSnapshot>) -> Seq<SnapModel> {
    s.map_values(|x: VfsSnapshot| SnapModel { tree: x.model(), page: x.page@ })
}

/// The model of a guide.
pub open spec fn guide_model(g: Guide) -> GuideModel {
    GuideModel { name: g.name@, files: g.vfs.files@, snaps: snap_models(g.vfs.snapshots@) }
}

impl Guide {
    pub open spec fn wf(&self) -> bool {
        self.vfs.wf()
    }

    pub fn new(name: String, vfs: Vfs) -> (r: Guide)
        ensures
            r.name == name,
            r.vfs == vfs,
    {
        Guide { name, vfs }
    }
}

} // verus!
