//! The history reducer: folds an ordered, linear revision history into
//! the guide's snapshots.
//!
//! The version-control oracle is out of scope; the caller hands in plain
//! data: the first revision as a tree listing, every later revision as
//! the minimal diff against its predecessor, and each revision's
//! narrative page as raw bytes.  Paths under the reserved prefixes —
//! `.codasai` and the configured pages directory — never reach the
//! snapshots.  A revision whose snapshot equals its predecessor's (same
//! tree, same rendered page) does not extend the guide.

use vstd::prelude::*;
use vstd::string::*;

use crate::directory::{
    model_create_dir, model_create_file, model_delete_dir, model_delete_file, model_rename_dir,
    model_rename_file, DirModel,
};
use crate::errors::GuideError;
use crate::guide::{guide_model, snap_models, Guide, GuideModel, SnapModel};
use crate::markdown::{markdown_to_html, spec_markdown_to_html};
use crate::path::{parse_path, VfsPath};
use crate::snapshot::VfsSnapshot;
use crate::vfs::Vfs;

verus! {

/// How the diff oracle classifies one delta.
#[derive(Debug, Clone, Copy, PartialEq, Eq, Structural)]
pub enum DeltaStatus {
    Added,
    Deleted,
    Renamed,
    Modified,
    /// Any other classification (copies, type changes, untracked or
    /// ignored entries) is passed through and ignored.
    Other,
}

/// One entry of the first revision's tree listing.
#[derive(Debug)]
pub struct RevTreeEntry {
    pub path: String,
    pub is_dir: bool,
    /// File bytes; empty and unread for directories.
    pub content: Vec<u8>,
}

/// One delta between two consecutive revisions' trees.
#[derive(Debug)]
pub struct RevDelta {
    pub status: DeltaStatus,
    pub old_path: String,
    pub new_path: String,
    pub old_is_dir: bool,
    pub new_is_dir: bool,
    /// Bytes on the new side; empty and unread unless the delta adds or
    /// modifies a file.
    pub new_content: Vec<u8>,
}

/// The oldest revision: a full tree listing plus its page's bytes.
#[derive(Debug)]
pub struct FirstRevision {
    pub entries: Vec<RevTreeEntry>,
    pub page: Vec<u8>,
}

/// Any later revision: the diff against its predecessor plus its page's
/// bytes.
#[derive(Debug)]
pub struct NextRevision {
    pub deltas: Vec<RevDelta>,
    pub page: Vec<u8>,
}

/// What decoding bytes as UTF-8 yields, if anything.
pub uninterp spec fn utf8_of(bytes: Seq<u8>) -> Option<Seq<char>>;

/// Relies on String::from_utf8: the decoded text exactly when the bytes
/// are valid UTF-8.
#[verifier::external_body]
fn bytes_to_string(bytes: &Vec<u8>) -> (r: Option<String>)
    ensures
        match r {
            Option::Some(s) => utf8_of(bytes@) == Option::<Seq<char>>::Some(s@),
            Option::None => utf8_of(bytes@) is None,
        },
{
    match String::from_utf8(bytes.clone()) {
        Ok(s) => Some(s),
        Err(_) => None,
    }
}

/// A blob's text: its UTF-8 decoding, or the binary sentinel.
pub open spec fn blob_content_of(bytes: Seq<u8>) -> Seq<char> {
    match utf8_of(bytes) {
        Option::Some(s) => s,
        Option::None => "binary data"@,
    }
}

fn blob_to_text(bytes: &Vec<u8>) -> (r: String)
    ensures
        r@ == blob_content_of(bytes@),
{
    match bytes_to_string(bytes) {
        Option::Some(s) => s,
        Option::None => "binary data".to_owned(),
    }
}

/// `prefix` without one trailing separator.
pub open spec fn strip_trailing_slash(p: Seq<char>) -> Seq<char> {
    if p.len() > 0 && p.last() == '/' {
        p.drop_last()
    } else {
        p
    }
}

/// Component-wise prefix test on textual paths: `path` is `prefix`
/// itself or extends it below a separator.
pub open spec fn path_has_prefix(path: Seq<char>, prefix: Seq<char>) -> bool {
    let q = strip_trailing_slash(prefix);
    path == q || (path.len() > q.len() && path.subrange(0, q.len() as int) == q && path[q.len() as int]
        == '/')
}

/// Reserved paths never reach a snapshot: the configuration directory
/// and the pages directory.
pub open spec fn reserved(path: Seq<char>, pages_path: Seq<char>) -> bool {
    path_has_prefix(path, ".codasai"@) || path_has_prefix(path, pages_path)
}

/// Decides `path_has_prefix`.
fn has_prefix(path: &str, prefix: &str) -> (r: bool)
    ensures
        r == path_has_prefix(path@, prefix@),
{
    let plen: usize = prefix.unicode_len();
    let qlen: usize = if plen > 0 && prefix.get_char(plen - 1) == '/' {
        plen - 1
    } else {
        plen
    };
    let ghost q = strip_trailing_slash(prefix@);
    proof {
        assert(q =~= prefix@.subrange(0, qlen as int));
    }
    let n: usize = path.unicode_len();
    if n < qlen {
        proof {
            assert(path@.len() < q.len());
            assert(path@ != q);
        }
        return false;
    }
    let mut i: usize = 0;
    while i < qlen
        invariant
            i <= qlen,
            qlen <= n,
            n == path@.len(),
            qlen <= prefix@.len(),
            q == strip_trailing_slash(prefix@),
            q =~= prefix@.subrange(0, qlen as int),
            forall|k: int| 0 <= k < i ==> path@[k] == q[k],
        decreases qlen - i,
    {
        if path.get_char(i) != prefix.get_char(i) {
            proof {
                assert(q[i as int] == prefix@[i as int]);
                assert(path@[i as int] != q[i as int]);
                if path@ == q {
                    assert(path@[i as int] == q[i as int]);
                }
                if path@.len() > q.len() && path@.subrange(0, q.len() as int) == q {
                    assert(path@.subrange(0, q.len() as int)[i as int] == path@[i as int]);
                }
            }
            return false;
        }
        i = i + 1;
    }
    proof {
        assert(path@.subrange(0, qlen as int) =~= q);
    }
    if n == qlen {
        proof {
            assert(path@ =~= q);
        }
        true
    } else {
        let ghost sep = path@[qlen as int];
        let r = path.get_char(qlen) == '/';
        proof {
            if path@ == q {
                assert(path@.len() == q.len());
            }
        }
        r
    }
}

fn is_reserved(path: &str, pages_path: &str) -> (r: bool)
    ensures
        r == reserved(path@, pages_path@),
{
    let a = has_prefix(path, ".codasai");
    let b = has_prefix(path, pages_path);
    a || b
}

/// The clean-tree check behind `page new`: the first changed path lying
/// under the pages directory, if any.
pub fn first_unsaved(paths: &Vec<String>, pages_path: &str) -> (r: Option<usize>)
    ensures
        match r {
            Option::Some(i) => i < paths@.len() && path_has_prefix(
                paths@[i as int]@,
                pages_path@,
            ) && forall|k: int|
                0 <= k < i ==> !path_has_prefix((#[trigger] paths@[k])@, pages_path@),
            Option::None => forall|k: int|
                0 <= k < paths@.len() ==> !path_has_prefix((#[trigger] paths@[k])@, pages_path@),
        },
{
    let mut i: usize = 0;
    while i < paths.len()
        invariant
            i <= paths@.len(),
            forall|k: int| 0 <= k < i ==> !path_has_prefix((#[trigger] paths@[k])@, pages_path@),
        decreases paths@.len() - i,
    {
        if has_prefix(paths[i].as_str(), pages_path) {
            return Some(i);
        }
        i = i + 1;
    }
    None
}

// ---------------------------------------------------------------------
// What the reducer means, step by step.
// ---------------------------------------------------------------------

/// One tree-listing entry applied to (tree, store).
pub open spec fn spec_apply_entry(
    tree: DirModel,
    store: Seq<Seq<char>>,
    e: RevTreeEntry,
    pages_path: Seq<char>,
) -> Result<(DirModel, Seq<Seq<char>>), GuideError> {
    if reserved(e.path@, pages_path) {
        Result::Ok((tree, store))
    } else {
        match parse_path(e.path@) {
            Option::None => Result::Err(GuideError::InvalidPath),
            Option::Some(comps) => if e.is_dir {
                Result::Ok((model_create_dir(tree, comps), store))
            } else {
                Result::Ok(
                    (
                        model_create_file(tree, comps, store.len()),
                        store.push(blob_content_of(e.content@)),
                    ),
                )
            },
        }
    }
}

/// The first `n` tree-listing entries applied in order.
pub open spec fn spec_apply_entries(
    tree: DirModel,
    store: Seq<Seq<char>>,
    entries: Seq<RevTreeEntry>,
    pages_path: Seq<char>,
    n: int,
) -> Result<(DirModel, Seq<Seq<char>>), GuideError>
    decreases n,
{
    if n <= 0 {
        Result::Ok((tree, store))
    } else {
        match spec_apply_entries(tree, store, entries, pages_path, n - 1) {
            Result::Err(e) => Result::Err(e),
            Result::Ok((t, st)) => spec_apply_entry(t, st, entries[n - 1], pages_path),
        }
    }
}

/// One delta applied to (tree, store).  A delta whose both sides are
/// reserved is skipped; a cross-kind rename or the modification of a
/// directory is a violated oracle invariant.
pub open spec fn spec_apply_delta(
    tree: DirModel,
    store: Seq<Seq<char>>,
    d: RevDelta,
    pages_path: Seq<char>,
) -> Result<(DirModel, Seq<Seq<char>>), GuideError> {
    if reserved(d.old_path@, pages_path) && reserved(d.new_path@, pages_path) {
        Result::Ok((tree, store))
    } else {
        match (parse_path(d.old_path@), parse_path(d.new_path@)) {
            (Option::Some(oc), Option::Some(nc)) => match d.status {
                DeltaStatus::Added => if d.new_is_dir {
                    Result::Ok((model_create_dir(tree, nc), store))
                } else {
                    Result::Ok(
                        (
                            model_create_file(tree, nc, store.len()),
                            store.push(blob_content_of(d.new_content@)),
                        ),
                    )
                },
                DeltaStatus::Deleted => if d.old_is_dir {
                    Result::Ok((model_delete_dir(tree, oc), store))
                } else {
                    Result::Ok((model_delete_file(tree, oc), store))
                },
                DeltaStatus::Renamed => if d.old_is_dir != d.new_is_dir {
                    Result::Err(GuideError::InvariantViolation)
                } else if d.old_is_dir {
                    Result::Ok((model_rename_dir(tree, oc, nc), store))
                } else {
                    Result::Ok((model_rename_file(tree, oc, nc), store))
                },
                DeltaStatus::Modified => if d.old_is_dir || d.new_is_dir {
                    Result::Err(GuideError::InvariantViolation)
                } else {
                    Result::Ok(
                        (
                            model_create_file(tree, nc, store.len()),
                            store.push(blob_content_of(d.new_content@)),
                        ),
                    )
                },
                DeltaStatus::Other => Result::Ok((tree, store)),
            },
            _ => Result::Err(GuideError::InvalidPath),
        }
    }
}

/// The first `n` deltas applied in order.
pub open spec fn spec_apply_deltas(
    tree: DirModel,
    store: Seq<Seq<char>>,
    deltas: Seq<RevDelta>,
    pages_path: Seq<char>,
    n: int,
) -> Result<(DirModel, Seq<Seq<char>>), GuideError>
    decreases n,
{
    if n <= 0 {
        Result::Ok((tree, store))
    } else {
        match spec_apply_deltas(tree, store, deltas, pages_path, n - 1) {
            Result::Err(e) => Result::Err(e),
            Result::Ok((t, st)) => spec_apply_delta(t, st, deltas[n - 1], pages_path),
        }
    }
}

/// The first revision's snapshot: its filtered tree and rendered page.
pub open spec fn spec_first_snapshot(first: FirstRevision, pages_path: Seq<char>) -> Result<
    (SnapModel, Seq<Seq<char>>),
    GuideError,
> {
    match spec_apply_entries(
        DirModel::empty(),
        Seq::empty(),
        first.entries@,
        pages_path,
        first.entries@.len() as int,
    ) {
        Result::Err(e) => Result::Err(e),
        Result::Ok((t, st)) => match utf8_of(first.page@) {
            Option::None => Result::Err(GuideError::EncodingError),
            Option::Some(md) => Result::Ok(
                (SnapModel { tree: t, page: spec_markdown_to_html(md) }, st),
            ),
        },
    }
}

/// One later revision folded over the last kept snapshot: either a new
/// snapshot, or nothing when it coalesces with its predecessor.
pub open spec fn spec_next_snapshot(
    prev: SnapModel,
    store: Seq<Seq<char>>,
    rev: NextRevision,
    pages_path: Seq<char>,
) -> Result<(Option<SnapModel>, Seq<Seq<char>>), GuideError> {
    match spec_apply_deltas(prev.tree, store, rev.deltas@, pages_path, rev.deltas@.len() as int) {
        Result::Err(e) => Result::Err(e),
        Result::Ok((t, st)) => match utf8_of(rev.page@) {
            Option::None => Result::Err(GuideError::EncodingError),
            Option::Some(md) => {
                let page = spec_markdown_to_html(md);
                if t == prev.tree && page == prev.page {
                    Result::Ok((Option::None, st))
                } else {
                    Result::Ok((Option::Some(SnapModel { tree: t, page }), st))
                }
            },
        },
    }
}

/// The first `n` later revisions folded in order, starting from the
/// first snapshot `s0`.
pub open spec fn spec_build_rest(
    s0: SnapModel,
    store: Seq<Seq<char>>,
    revs: Seq<NextRevision>,
    pages_path: Seq<char>,
    n: int,
) -> Result<(Seq<SnapModel>, Seq<Seq<char>>), GuideError>
    decreases n,
{
    if n <= 0 {
        Result::Ok((Seq::empty(), store))
    } else {
        match spec_build_rest(s0, store, revs, pages_path, n - 1) {
            Result::Err(e) => Result::Err(e),
            Result::Ok((snaps, st)) => {
                let prev = if snaps.len() == 0 {
                    s0
                } else {
                    snaps.last()
                };
                match spec_next_snapshot(prev, st, revs[n - 1], pages_path) {
                    Result::Err(e) => Result::Err(e),
                    Result::Ok((Option::None, st2)) => Result::Ok((snaps, st2)),
                    Result::Ok((Option::Some(s), st2)) => Result::Ok((snaps.push(s), st2)),
                }
            },
        }
    }
}

/// The whole build: an empty history has no page to publish; otherwise
/// the first revision is materialised and every later one folded in.
pub open spec fn spec_build_guide(
    title: Seq<char>,
    pages_path: Seq<char>,
    first: Option<FirstRevision>,
    rest: Seq<NextRevision>,
) -> Result<GuideModel, GuideError> {
    match first {
        Option::None => Result::Err(GuideError::NoSavedPage),
        Option::Some(f) => match spec_first_snapshot(f, pages_path) {
            Result::Err(e) => Result::Err(e),
            Result::Ok((s0, st)) => match spec_build_rest(
                s0,
                st,
                rest,
                pages_path,
                rest.len() as int,
            ) {
                Result::Err(e) => Result::Err(e),
                Result::Ok((snaps, st2)) => Result::Ok(
                    GuideModel { name: title, files: st2, snaps: seq![s0] + snaps },
                ),
            },
        },
    }
}

/// Deltas confined to the reserved prefixes change neither the tree nor
/// the store.
pub proof fn lemma_reserved_deltas_identity(
    tree: DirModel,
    store: Seq<Seq<char>>,
    deltas: Seq<RevDelta>,
    pages_path: Seq<char>,
    n: int,
)
    requires
        0 <= n <= deltas.len(),
        forall|i: int|
            0 <= i < n ==> reserved((#[trigger] deltas[i]).old_path@, pages_path) && reserved(
                deltas[i].new_path@,
                pages_path,
            ),
    ensures
        spec_apply_deltas(tree, store, deltas, pages_path, n) == Result::<
            (DirModel, Seq<Seq<char>>),
            GuideError,
        >::Ok((tree, store)),
    decreases n,
{
    if n > 0 {
        lemma_reserved_deltas_identity(tree, store, deltas, pages_path, n - 1);
    }
}

/// Coalescing: a revision whose diff touches only reserved prefixes, and
/// whose page renders as its predecessor's, does not extend the guide —
/// the fold hands back no new snapshot and leaves the store as it was.
/// (A revision that changes only `rev.toml` so that a different page is
/// rendered does produce a snapshot: the page condition is needed.)
pub proof fn lemma_coalescing(
    prev: SnapModel,
    store: Seq<Seq<char>>,
    rev: NextRevision,
    pages_path: Seq<char>,
)
    requires
        forall|i: int|
            0 <= i < rev.deltas@.len() ==> reserved(
                (#[trigger] rev.deltas@[i]).old_path@,
                pages_path,
            ) && reserved(rev.deltas@[i].new_path@, pages_path),
        match utf8_of(rev.page@) {
            Option::Some(md) => spec_markdown_to_html(md) == prev.page,
            Option::None => false,
        },
    ensures
        spec_next_snapshot(prev, store, rev, pages_path) == Result::<
            (Option<SnapModel>, Seq<Seq<char>>),
            GuideError,
        >::Ok((Option::<SnapModel>::None, store)),
{
    lemma_reserved_deltas_identity(prev.tree, store, rev.deltas@, pages_path, rev.deltas@.len() as int);
}

/// Coalescing lifted to the fold: such a revision leaves the snapshot
/// sequence exactly as it stood.
pub proof fn lemma_coalescing_count(
    s0: SnapModel,
    store: Seq<Seq<char>>,
    revs: Seq<NextRevision>,
    pages_path: Seq<char>,
    n: int,
)
    requires
        1 <= n <= revs.len(),
        spec_build_rest(s0, store, revs, pages_path, n - 1) is Ok,
        forall|i: int|
            0 <= i < revs[n - 1].deltas@.len() ==> reserved(
                (#[trigger] revs[n - 1].deltas@[i]).old_path@,
                pages_path,
            ) && reserved(revs[n - 1].deltas@[i].new_path@, pages_path),
        match spec_build_rest(s0, store, revs, pages_path, n - 1) {
            Result::Ok((snaps, st)) => {
                let prev = if snaps.len() == 0 {
                    s0
                } else {
                    snaps.last()
                };
                match utf8_of(revs[n - 1].page@) {
                    Option::Some(md) => spec_markdown_to_html(md) == prev.page,
                    Option::None => false,
                }
            },
            Result::Err(_) => false,
        },
    ensures
        spec_build_rest(s0, store, revs, pages_path, n) == spec_build_rest(
            s0,
            store,
            revs,
            pages_path,
            n - 1,
        ),
{
    match spec_build_rest(s0, store, revs, pages_path, n - 1) {
        Result::Ok((snaps, st)) => {
            let prev = if snaps.len() == 0 {
                s0
            } else {
                snaps.last()
            };
            lemma_coalescing(prev, st, revs[n - 1], pages_path);
        },
        Result::Err(_) => {
        },
    }
}

proof fn lemma_apply_entries_err(
    tree: DirModel,
    store: Seq<Seq<char>>,
    entries: Seq<RevTreeEntry>,
    pages_path: Seq<char>,
    k: int,
    n: int,
)
    requires
        0 <= k <= n,
        spec_apply_entries(tree, store, entries, pages_path, k) is Err,
    ensures
        spec_apply_entries(tree, store, entries, pages_path, n) == spec_apply_entries(
            tree,
            store,
            entries,
            pages_path,
            k,
        ),
    decreases n - k,
{
    if n > k {
        lemma_apply_entries_err(tree, store, entries, pages_path, k, n - 1);
    }
}

proof fn lemma_apply_deltas_err(
    tree: DirModel,
    store: Seq<Seq<char>>,
    deltas: Seq<RevDelta>,
    pages_path: Seq<char>,
    k: int,
    n: int,
)
    requires
        0 <= k <= n,
        spec_apply_deltas(tree, store, deltas, pages_path, k) is Err,
    ensures
        spec_apply_deltas(tree, store, deltas, pages_path, n) == spec_apply_deltas(
            tree,
            store,
            deltas,
            pages_path,
            k,
        ),
    decreases n - k,
{
    if n > k {
        lemma_apply_deltas_err(tree, store, deltas, pages_path, k, n - 1);
    }
}

proof fn lemma_build_rest_err(
    s0: SnapModel,
    store: Seq<Seq<char>>,
    revs: Seq<NextRevision>,
    pages_path: Seq<char>,
    k: int,
    n: int,
)
    requires
        0 <= k <= n,
        spec_build_rest(s0, store, revs, pages_path, k) is Err,
    ensures
        spec_build_rest(s0, store, revs, pages_path, n) == spec_build_rest(
            s0,
            store,
            revs,
            pages_path,
            k,
        ),
    decreases n - k,
{
    if n > k {
        lemma_build_rest_err(s0, store, revs, pages_path, k, n - 1);
    }
}

// ---------------------------------------------------------------------
// The executable reducer.
// ---------------------------------------------------------------------

/// Applies one delta to the working snapshot and the shared store.  The
/// checks that can fail come before any mutation, so a failing call
/// changes nothing.
fn apply_delta(
    snap: &mut VfsSnapshot,
    files: &mut crate::file::VfsFilesHandle,
    d: &RevDelta,
    pages_path: &str,
) -> (r: Result<(), GuideError>)
    requires
        old(snap).wf(),
    ensures
        final(snap).wf(),
        final(snap).page == old(snap).page,
        match r {
            Result::Ok(()) => spec_apply_delta(old(snap).model(), old(files)@, *d, pages_path@)
                == Result::<(DirModel, Seq<Seq<char>>), GuideError>::Ok(
                (final(snap).model(), final(files)@),
            ),
            Result::Err(e) => {
                &&& spec_apply_delta(old(snap).model(), old(files)@, *d, pages_path@)
                    == Result::<(DirModel, Seq<Seq<char>>), GuideError>::Err(e)
                &&& *final(snap) == *old(snap)
                &&& *final(files) == *old(files)
            },
        },
{
    let old_reserved = is_reserved(d.old_path.as_str(), pages_path);
    let new_reserved = is_reserved(d.new_path.as_str(), pages_path);
    if old_reserved && new_reserved {
        return Ok(());
    }
    let old_path = match VfsPath::new(d.old_path.as_str()) {
        Ok(p) => p,
        Err(e) => {
            return Err(e);
        },
    };
    let new_path = match VfsPath::new(d.new_path.as_str()) {
        Ok(p) => p,
        Err(e) => {
            return Err(e);
        },
    };
    match d.status {
        DeltaStatus::Added => {
            if d.new_is_dir {
                snap.create_directory(&new_path);
            } else {
                let content = blob_to_text(&d.new_content);
                snap.create_file(files, &new_path, content);
            }
            Ok(())
        },
        DeltaStatus::Deleted => {
            if d.old_is_dir {
                snap.delete_directory(&old_path);
            } else {
                snap.delete_file(&old_path);
            }
            Ok(())
        },
        DeltaStatus::Renamed => {
            if d.old_is_dir != d.new_is_dir {
                return Err(GuideError::InvariantViolation);
            }
            if d.old_is_dir {
                snap.rename_directory(&old_path, &new_path);
            } else {
                snap.rename_file(&old_path, &new_path);
            }
            Ok(())
        },
        DeltaStatus::Modified => {
            if d.old_is_dir || d.new_is_dir {
                return Err(GuideError::InvariantViolation);
            }
            let content = blob_to_text(&d.new_content);
            snap.write_file(files, &new_path, content);
            Ok(())
        },
        DeltaStatus::Other => Ok(()),
    }
}

/// Builds the guide from its title, its pages directory, and the
/// revision history in oldest-first order.
pub fn build_guide(
    title: String,
    pages_path: &str,
    first: Option<FirstRevision>,
    rest: &Vec<NextRevision>,
) -> (r: Result<Guide, GuideError>)
    ensures
        match r {
            Result::Ok(g) => g.wf() && spec_build_guide(title@, pages_path@, first, rest@)
                == Result::<GuideModel, GuideError>::Ok(guide_model(g)),
            Result::Err(e) => spec_build_guide(title@, pages_path@, first, rest@)
                == Result::<GuideModel, GuideError>::Err(e),
        },
{
    let f = match &first {
        Option::None => {
            return Err(GuideError::NoSavedPage);
        },
        Option::Some(f) => f,
    };
    proof {
        assert(first == Option::Some(*f));
    }
    let mut vfs = Vfs::new();
    let mut snap = VfsSnapshot::new();
    let ghost pp = pages_path@;
    let mut i: usize = 0;
    while i < f.entries.len()
        invariant
            i <= f.entries@.len(),
            snap.wf(),
            snap.page@ == Seq::<char>::empty(),
            vfs.snapshots@.len() == 0,
            spec_apply_entries(DirModel::empty(), Seq::empty(), f.entries@, pp, i as int)
                == Result::<(DirModel, Seq<Seq<char>>), GuideError>::Ok(
                (snap.model(), vfs.files@),
            ),
            pp == pages_path@,
            first == Option::Some(*f),
        decreases f.entries@.len() - i,
    {
        let e = &f.entries[i];
        if !is_reserved(e.path.as_str(), pages_path) {
            match VfsPath::new(e.path.as_str()) {
                Err(err) => {
                    proof {
                        assert(spec_apply_entries(
                            DirModel::empty(),
                            Seq::empty(),
                            f.entries@,
                            pp,
                            i as int + 1,
                        ) == Result::<(DirModel, Seq<Seq<char>>), GuideError>::Err(err));
                        lemma_apply_entries_err(
                            DirModel::empty(),
                            Seq::empty(),
                            f.entries@,
                            pp,
                            i as int + 1,
                            f.entries@.len() as int,
                        );
                        assert(spec_first_snapshot(*f, pp) == Result::<
                            (SnapModel, Seq<Seq<char>>),
                            GuideError,
                        >::Err(err));
                    }
                    return Err(err);
                },
                Ok(path) => {
                    if e.is_dir {
                        snap.create_directory(&path);
                    } else {
                        let content = blob_to_text(&e.content);
                        snap.create_file(&mut vfs.files, &path, content);
                    }
                },
            }
        }
        i = i + 1;
    }
    let page_md = match bytes_to_string(&f.page) {
        Option::None => {
            proof {
                assert(spec_first_snapshot(*f, pp) == Result::<
                    (SnapModel, Seq<Seq<char>>),
                    GuideError,
                >::Err(GuideError::EncodingError));
            }
            return Err(GuideError::EncodingError);
        },
        Option::Some(s) => s,
    };
    let html = markdown_to_html(page_md.as_str());
    snap.set_page(html);
    let ghost s0 = SnapModel { tree: snap.model(), page: snap.page@ };
    let ghost st0 = vfs.files@;
    proof {
        assert(spec_first_snapshot(*f, pp) == Result::<
            (SnapModel, Seq<Seq<char>>),
            GuideError,
        >::Ok((s0, st0)));
    }
    vfs.snapshots.push(snap);
    proof {
        assert(snap_models(vfs.snapshots@).drop_first() =~= Seq::<SnapModel>::empty());
        assert(snap_models(vfs.snapshots@)[0] == s0);
        assert(spec_build_rest(s0, st0, rest@, pp, 0) == Result::<
            (Seq<SnapModel>, Seq<Seq<char>>),
            GuideError,
        >::Ok((Seq::<SnapModel>::empty(), st0)));
    }
    let mut k: usize = 0;
    while k < rest.len()
        invariant
            k <= rest@.len(),
            vfs.wf(),
            vfs.snapshots@.len() >= 1,
            pp == pages_path@,
            snap_models(vfs.snapshots@)[0] == s0,
            first == Option::Some(*f),
            spec_first_snapshot(*f, pp) == Result::<(SnapModel, Seq<Seq<char>>), GuideError>::Ok(
                (s0, st0),
            ),
            spec_build_rest(s0, st0, rest@, pp, k as int) == Result::<
                (Seq<SnapModel>, Seq<Seq<char>>),
                GuideError,
            >::Ok((snap_models(vfs.snapshots@).drop_first(), vfs.files@)),
        decreases rest@.len() - k,
    {
        let ghost snaps_pre = snap_models(vfs.snapshots@).drop_first();
        let rev = &rest[k];
        let last_index = vfs.snapshots.len() - 1;
        let mut cur = vfs.snapshots[last_index].duplicate();
        let ghost prev = SnapModel {
            tree: vfs.snapshots@.last().model(),
            page: vfs.snapshots@.last().page@,
        };
        proof {
            assert(snap_models(vfs.snapshots@).last() == prev);
            if snaps_pre.len() == 0 {
                assert(snap_models(vfs.snapshots@).len() == 1);
                assert(prev == s0);
            } else {
                assert(prev == snaps_pre.last());
            }
        }
        let ghost stv = vfs.files@;
        let ghost snapsv = vfs.snapshots@;
        let mut di: usize = 0;
        let mut failed: Option<GuideError> = None;
        while di < rev.deltas.len() && failed.is_none()
            invariant
                di <= rev.deltas@.len(),
                cur.wf(),
                cur.page@ == prev.page,
                pp == pages_path@,
                vfs.snapshots@ == snapsv,
                match failed {
                    Option::None => spec_apply_deltas(prev.tree, stv, rev.deltas@, pp, di as int)
                        == Result::<(DirModel, Seq<Seq<char>>), GuideError>::Ok(
                        (cur.model(), vfs.files@),
                    ),
                    Option::Some(e) => spec_apply_deltas(
                        prev.tree,
                        stv,
                        rev.deltas@,
                        pp,
                        rev.deltas@.len() as int,
                    ) == Result::<(DirModel, Seq<Seq<char>>), GuideError>::Err(e),
                },
            decreases rev.deltas@.len() - di,
        {
            let d = &rev.deltas[di];
            match apply_delta(&mut cur, &mut vfs.files, d, pages_path) {
                Ok(()) => {
                },
                Err(e) => {
                    proof {
                        lemma_apply_deltas_err(
                            prev.tree,
                            stv,
                            rev.deltas@,
                            pp,
                            di as int + 1,
                            rev.deltas@.len() as int,
                        );
                    }
                    failed = Some(e);
                },
            }
            di = di + 1;
        }
        match failed {
            Option::Some(e) => {
                proof {
                    assert(spec_next_snapshot(prev, stv, rest@[k as int], pp) == Result::<
                        (Option<SnapModel>, Seq<Seq<char>>),
                        GuideError,
                    >::Err(e));
                    assert(spec_build_rest(s0, st0, rest@, pp, k as int + 1) == Result::<
                        (Seq<SnapModel>, Seq<Seq<char>>),
                        GuideError,
                    >::Err(e));
                    lemma_build_rest_err(s0, st0, rest@, pp, k as int + 1, rest@.len() as int);
                }
                return Err(e);
            },
            Option::None => {
            },
        }
        let page_md = match bytes_to_string(&rev.page) {
            Option::None => {
                proof {
                    assert(spec_next_snapshot(prev, stv, rest@[k as int], pp) == Result::<
                        (Option<SnapModel>, Seq<Seq<char>>),
                        GuideError,
                    >::Err(GuideError::EncodingError));
                    assert(spec_build_rest(s0, st0, rest@, pp, k as int + 1) == Result::<
                        (Seq<SnapModel>, Seq<Seq<char>>),
                        GuideError,
                    >::Err(GuideError::EncodingError));
                    lemma_build_rest_err(s0, st0, rest@, pp, k as int + 1, rest@.len() as int);
                }
                return Err(GuideError::EncodingError);
            },
            Option::Some(s) => s,
        };
        let html = markdown_to_html(page_md.as_str());
        cur.set_page(html);
        let ghost cur_model = SnapModel { tree: cur.model(), page: cur.page@ };
        let keep = !cur.equals(&vfs.snapshots[vfs.snapshots.len() - 1]);
        proof {
            assert(spec_next_snapshot(prev, stv, rest@[k as int], pp) == Result::<
                (Option<SnapModel>, Seq<Seq<char>>),
                GuideError,
            >::Ok(
                (
                    if keep {
                        Option::Some(cur_model)
                    } else {
                        Option::<SnapModel>::None
                    },
                    vfs.files@,
                ),
            ));
        }
        if keep {
            vfs.snapshots.push(cur);
            proof {
                assert(snap_models(vfs.snapshots@).drop_first() =~= snaps_pre.push(cur_model));
            }
        }
        k = k + 1;
    }
    proof {
        assert(snap_models(vfs.snapshots@) =~= seq![s0] + snap_models(vfs.snapshots@).drop_first());
    }
    Ok(Guide { name: title, vfs })
}

} // verus!
