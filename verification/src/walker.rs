//! Deterministic pre-order traversal of a snapshot's tree.
//!
//! Each directory contributes its subdirectory entries first, each one
//! followed immediately by its own subtree, and its file entries after
//! all of them; both groups come out in name order.  `level` is 1 for
//! direct children of the root.

use vstd::prelude::*;

use crate::directory::{dir_wf, DirEntry, FileEntry, VfsDirectory};
use crate::path::{valid_component, valid_components, VfsPath};
use crate::snapshot::VfsSnapshot;
use crate::text::views_of;

verus! {

broadcast use vstd::std_specs::vec::axiom_vec_index_decreases, vstd::seq::axiom_seq_index_decreases;

/// A directory name or a file name, as the walker labels its entries.
#[derive(Debug)]
pub enum VfsDirectoryOrFile {
    Directory(String),
    File(String),
}

/// One traversal entry: the full path, its depth, and its kind.
#[derive(Debug)]
pub struct VfsWalkerEntry {
    pub path: VfsPath,
    pub level: usize,
    pub entry: VfsDirectoryOrFile,
}

/// The mathematical reading of one traversal entry.
pub struct WalkEntryModel {
    pub path: Seq<Seq<char>>,
    pub level: nat,
    pub is_dir: bool,
    pub name: Seq<char>,
}

pub open spec fn entry_model(e: VfsWalkerEntry) -> WalkEntryModel {
    WalkEntryModel {
        path: e.path@,
        level: e.level as nat,
        is_dir: e.entry is Directory,
        name: match e.entry {
            VfsDirectoryOrFile::Directory(n) => n@,
            VfsDirectoryOrFile::File(n) => n@,
        },
    }
}

pub open spec fn entries_model(s: Seq<VfsWalkerEntry>) -> Seq<WalkEntryModel> {
    s.map_values(|e: VfsWalkerEntry| entry_model(e))
}

/// The traversal of the first `n` file entries of one directory.
pub open spec fn walk_files_upto(
    s: Seq<FileEntry>,
    prefix: Seq<Seq<char>>,
    depth: nat,
    n: int,
) -> Seq<WalkEntryModel>
    decreases n,
{
    if 0 < n <= s.len() {
        walk_files_upto(s, prefix, depth, n - 1).push(
            WalkEntryModel {
                path: prefix.push(s[n - 1].name@),
                level: depth,
                is_dir: false,
                name: s[n - 1].name@,
            },
        )
    } else {
        Seq::empty()
    }
}

/// The traversal of the first `n` subdirectory entries of one directory:
/// each entry, then immediately its whole subtree.
pub open spec fn walk_dirs_upto(
    s: Seq<DirEntry>,
    prefix: Seq<Seq<char>>,
    depth: nat,
    n: int,
) -> Seq<WalkEntryModel>
    decreases s, n,
{
    if 0 < n <= s.len() {
        walk_dirs_upto(s, prefix, depth, n - 1) + seq![
            WalkEntryModel {
                path: prefix.push(s[n - 1].name@),
                level: depth,
                is_dir: true,
                name: s[n - 1].name@,
            },
        ] + walk_dir(s[n - 1].dir, prefix.push(s[n - 1].name@), depth + 1)
    } else {
        Seq::empty()
    }
}

/// The full traversal of one directory.
pub open spec fn walk_dir(d: VfsDirectory, prefix: Seq<Seq<char>>, depth: nat) -> Seq<
    WalkEntryModel,
>
    decreases d, d.directories@.len() + 1,
{
    walk_dirs_upto(d.directories@, prefix, depth, d.directories@.len() as int)
        + walk_files_upto(d.files@, prefix, depth, d.files@.len() as int)
}

/// The height of a tree: 1 for a leaf directory.
pub open spec fn height_upto(s: Seq<DirEntry>, n: int) -> nat
    decreases s, n,
{
    if 0 < n <= s.len() {
        let rest = height_upto(s, n - 1);
        let child = dir_height(s[n - 1].dir);
        if rest >= child {
            rest
        } else {
            child
        }
    } else {
        0
    }
}

pub open spec fn dir_height(d: VfsDirectory) -> nat
    decreases d, d.directories@.len() + 1,
{
    1 + height_upto(d.directories@, d.directories@.len() as int)
}

/// A sound one-sided height check: a true answer bounds the tree's
/// height by `cap`.
pub fn height_below(d: &VfsDirectory, cap: usize) -> (r: bool)
    ensures
        r ==> dir_height(*d) <= cap,
    decreases *d,
{
    if cap == 0 {
        return false;
    }
    let mut i: usize = 0;
    while i < d.directories.len()
        invariant
            i <= d.directories@.len(),
            cap >= 1,
            height_upto(d.directories@, i as int) <= cap - 1,
        decreases d.directories@.len() - i,
    {
        if !height_below(&d.directories[i].dir, cap - 1) {
            return false;
        }
        i = i + 1;
    }
    true
}

pub proof fn lemma_height_child(s: Seq<DirEntry>, n: int, i: int)
    requires
        0 <= i < n <= s.len(),
    ensures
        dir_height(s[i].dir) <= height_upto(s, n),
    decreases n,
{
    if i < n - 1 {
        lemma_height_child(s, n - 1, i);
    }
}

fn clone_components(v: &Vec<String>) -> (r: Vec<String>)
    ensures
        r@.len() == v@.len(),
        views_of(r@) == views_of(v@),
{
    let mut r: Vec<String> = Vec::new();
    let mut i: usize = 0;
    while i < v.len()
        invariant
            i <= v@.len(),
            r@.len() == i,
            forall|k: int| 0 <= k < i ==> (#[trigger] r@[k])@ == v@[k]@,
        decreases v@.len() - i,
    {
        r.push(v[i].clone());
        i = i + 1;
    }
    proof {
        assert(views_of(r@) =~= views_of(v@));
    }
    r
}

/// Collects the traversal of `d` under the path `prefix` into `out`.
fn walk_collect(d: &VfsDirectory, prefix: &mut Vec<String>, out: &mut Vec<VfsWalkerEntry>)
    requires
        dir_wf(*d),
        forall|k: int| 0 <= k < old(prefix)@.len() ==> valid_component(#[trigger] old(prefix)@[k]@),
        old(prefix)@.len() + dir_height(*d) <= usize::MAX,
    ensures
        final(prefix)@ == old(prefix)@,
        entries_model(final(out)@) == entries_model(old(out)@) + walk_dir(
            *d,
            views_of(old(prefix)@),
            old(prefix)@.len() + 1 as nat,
        ),
    decreases *d,
{
    let ghost pv = views_of(old(prefix)@);
    let ghost depth = (old(prefix)@.len() + 1) as nat;
    let mut i: usize = 0;
    while i < d.directories.len()
        invariant
            dir_wf(*d),
            i <= d.directories@.len(),
            prefix@ == old(prefix)@,
            forall|k: int| 0 <= k < prefix@.len() ==> valid_component(#[trigger] prefix@[k]@),
            prefix@.len() + dir_height(*d) <= usize::MAX,
            pv == views_of(prefix@),
            depth == prefix@.len() + 1,
            entries_model(out@) == entries_model(old(out)@) + walk_dirs_upto(
                d.directories@,
                pv,
                depth,
                i as int,
            ),
        decreases d.directories@.len() - i,
    {
        let ghost out_pre = out@;
        let name: String = d.directories[i].name.clone();
        let ghost nm = name@;
        prefix.push(name);
        let path = VfsPath::from_components(clone_components(prefix));
        proof {
            assert(views_of(prefix@) =~= pv.push(nm));
            assert(valid_components(views_of(prefix@)));
        }
        let entry = VfsWalkerEntry {
            path,
            level: prefix.len(),
            entry: VfsDirectoryOrFile::Directory(d.directories[i].name.clone()),
        };
        let ghost em = entry_model(entry);
        out.push(entry);
        proof {
            assert(entries_model(out@) =~= entries_model(out_pre).push(em));
            lemma_height_child(d.directories@, d.directories@.len() as int, i as int);
        }
        walk_collect(&d.directories[i].dir, prefix, out);
        let _popped = prefix.pop();
        proof {
            assert(prefix@ =~= old(prefix)@);
            assert(em == WalkEntryModel {
                path: pv.push(nm),
                level: depth,
                is_dir: true,
                name: nm,
            });
            assert(entries_model(out@) =~= entries_model(old(out)@) + walk_dirs_upto(
                d.directories@,
                pv,
                depth,
                i as int,
            ) + seq![em] + walk_dir(d.directories@[i as int].dir, pv.push(nm), depth + 1));
            assert(entries_model(out@) =~= entries_model(old(out)@) + walk_dirs_upto(
                d.directories@,
                pv,
                depth,
                i as int + 1,
            ));
        }
        i = i + 1;
    }
    let mut j: usize = 0;
    while j < d.files.len()
        invariant
            dir_wf(*d),
            j <= d.files@.len(),
            prefix@ == old(prefix)@,
            forall|k: int| 0 <= k < prefix@.len() ==> valid_component(#[trigger] prefix@[k]@),
            prefix@.len() + 1 <= usize::MAX,
            pv == views_of(prefix@),
            depth == prefix@.len() + 1,
            entries_model(out@) == entries_model(old(out)@) + walk_dirs_upto(
                d.directories@,
                pv,
                depth,
                d.directories@.len() as int,
            ) + walk_files_upto(d.files@, pv, depth, j as int),
        decreases d.files@.len() - j,
    {
        let ghost out_pre = out@;
        let name: String = d.files[j].name.clone();
        let ghost nm = name@;
        let mut comps = clone_components(prefix);
        comps.push(name);
        proof {
            assert(views_of(comps@) =~= pv.push(nm));
            assert(valid_components(views_of(comps@)));
        }
        let path = VfsPath::from_components(comps);
        let entry = VfsWalkerEntry {
            path,
            level: prefix.len() + 1,
            entry: VfsDirectoryOrFile::File(d.files[j].name.clone()),
        };
        let ghost em = entry_model(entry);
        out.push(entry);
        proof {
            assert(entries_model(out@) =~= entries_model(out_pre).push(em));
            assert(em == WalkEntryModel {
                path: pv.push(nm),
                level: depth,
                is_dir: false,
                name: nm,
            });
        }
        j = j + 1;
    }
}

// ---------------------------------------------------------------------
// The ordering law.
// ---------------------------------------------------------------------

/// The entries emitted at exactly depth `depth`.
pub open spec fn at_level(depth: nat) -> spec_fn(WalkEntryModel) -> bool {
    |e: WalkEntryModel| e.level == depth
}

/// The direct children of one directory, as the walker words them:
/// subdirectories first, then files, both in stored order.
pub open spec fn level_entries(d: VfsDirectory, prefix: Seq<Seq<char>>, depth: nat) -> Seq<
    WalkEntryModel,
> {
    d.directories@.map_values(
        |e: DirEntry|
            WalkEntryModel { path: prefix.push(e.name@), level: depth, is_dir: true, name: e.name@ },
    ) + d.files@.map_values(
        |e: FileEntry|
            WalkEntryModel {
                path: prefix.push(e.name@),
                level: depth,
                is_dir: false,
                name: e.name@,
            },
    )
}

proof fn lemma_filter_none(s: Seq<WalkEntryModel>, pred: spec_fn(WalkEntryModel) -> bool)
    requires
        forall|i: int| 0 <= i < s.len() ==> !pred(#[trigger] s[i]),
    ensures
        s.filter(pred) == Seq::<WalkEntryModel>::empty(),
    decreases s.len(),
{
    reveal(Seq::filter);
    if s.len() > 0 {
        assert(forall|i: int| 0 <= i < s.drop_last().len() ==> s.drop_last()[i] == #[trigger] s[i]);
        lemma_filter_none(s.drop_last(), pred);
    }
}

proof fn lemma_filter_all(s: Seq<WalkEntryModel>, pred: spec_fn(WalkEntryModel) -> bool)
    requires
        forall|i: int| 0 <= i < s.len() ==> pred(#[trigger] s[i]),
    ensures
        s.filter(pred) == s,
    decreases s.len(),
{
    reveal(Seq::filter);
    if s.len() > 0 {
        assert(forall|i: int| 0 <= i < s.drop_last().len() ==> s.drop_last()[i] == #[trigger] s[i]);
        lemma_filter_all(s.drop_last(), pred);
        assert(s.filter(pred) =~= s);
    }
}

/// Every entry of a walk lies at the walk's depth or deeper.
proof fn lemma_walk_dir_levels(d: VfsDirectory, prefix: Seq<Seq<char>>, depth: nat)
    ensures
        forall|t: int|
            0 <= t < walk_dir(d, prefix, depth).len() ==> (#[trigger] walk_dir(
                d,
                prefix,
                depth,
            )[t]).level >= depth,
    decreases d, d.directories@.len() + 1,
{
    lemma_walk_dirs_levels(d.directories@, prefix, depth, d.directories@.len() as int);
    lemma_walk_files_levels(d.files@, prefix, depth, d.files@.len() as int);
    let a = walk_dirs_upto(d.directories@, prefix, depth, d.directories@.len() as int);
    let b = walk_files_upto(d.files@, prefix, depth, d.files@.len() as int);
    assert forall|t: int| 0 <= t < walk_dir(d, prefix, depth).len() implies (#[trigger] walk_dir(
        d,
        prefix,
        depth,
    )[t]).level >= depth by {
        if t < a.len() {
            assert(walk_dir(d, prefix, depth)[t] == a[t]);
        } else {
            assert(walk_dir(d, prefix, depth)[t] == b[t - a.len()]);
        }
    }
}

proof fn lemma_walk_dirs_levels(s: Seq<DirEntry>, prefix: Seq<Seq<char>>, depth: nat, n: int)
    ensures
        forall|t: int|
            0 <= t < walk_dirs_upto(s, prefix, depth, n).len() ==> (#[trigger] walk_dirs_upto(
                s,
                prefix,
                depth,
                n,
            )[t]).level >= depth,
    decreases s, n,
{
    if 0 < n <= s.len() {
        lemma_walk_dirs_levels(s, prefix, depth, n - 1);
        lemma_walk_dir_levels(s[n - 1].dir, prefix.push(s[n - 1].name@), depth + 1);
        let a = walk_dirs_upto(s, prefix, depth, n - 1);
        let e = WalkEntryModel {
            path: prefix.push(s[n - 1].name@),
            level: depth,
            is_dir: true,
            name: s[n - 1].name@,
        };
        let c = walk_dir(s[n - 1].dir, prefix.push(s[n - 1].name@), depth + 1);
        assert forall|t: int| 0 <= t < walk_dirs_upto(s, prefix, depth, n).len() implies (
        #[trigger] walk_dirs_upto(s, prefix, depth, n)[t]).level >= depth by {
            if t < a.len() {
                assert(walk_dirs_upto(s, prefix, depth, n)[t] == a[t]);
            } else if t == a.len() {
                assert(walk_dirs_upto(s, prefix, depth, n)[t] == e);
            } else {
                assert(walk_dirs_upto(s, prefix, depth, n)[t] == c[t - a.len() - 1]);
            }
        }
    }
}

proof fn lemma_walk_files_levels(s: Seq<FileEntry>, prefix: Seq<Seq<char>>, depth: nat, n: int)
    ensures
        forall|t: int|
            0 <= t < walk_files_upto(s, prefix, depth, n).len() ==> (#[trigger] walk_files_upto(
                s,
                prefix,
                depth,
                n,
            )[t]).level == depth,
    decreases n,
{
    if 0 < n <= s.len() {
        lemma_walk_files_levels(s, prefix, depth, n - 1);
        let a = walk_files_upto(s, prefix, depth, n - 1);
        assert forall|t: int| 0 <= t < walk_files_upto(s, prefix, depth, n).len() implies (
        #[trigger] walk_files_upto(s, prefix, depth, n)[t]).level == depth by {
            if t < a.len() {
                assert(walk_files_upto(s, prefix, depth, n)[t] == a[t]);
            }
        }
    }
}

proof fn lemma_walk_files_shape(s: Seq<FileEntry>, prefix: Seq<Seq<char>>, depth: nat, n: int)
    requires
        0 <= n <= s.len(),
    ensures
        walk_files_upto(s, prefix, depth, n) == s.subrange(0, n).map_values(
            |e: FileEntry|
                WalkEntryModel {
                    path: prefix.push(e.name@),
                    level: depth,
                    is_dir: false,
                    name: e.name@,
                },
        ),
    decreases n,
{
    if n > 0 {
        lemma_walk_files_shape(s, prefix, depth, n - 1);
        assert(s.subrange(0, n - 1) =~= s.subrange(0, n).drop_last());
        assert(walk_files_upto(s, prefix, depth, n) =~= s.subrange(0, n).map_values(
            |e: FileEntry|
                WalkEntryModel {
                    path: prefix.push(e.name@),
                    level: depth,
                    is_dir: false,
                    name: e.name@,
                },
        ));
    } else {
        assert(walk_files_upto(s, prefix, depth, n) =~= s.subrange(0, 0).map_values(
            |e: FileEntry|
                WalkEntryModel {
                    path: prefix.push(e.name@),
                    level: depth,
                    is_dir: false,
                    name: e.name@,
                },
        ));
    }
}

#[verifier::rlimit(100)]
#[verifier::spinoff_prover]
proof fn lemma_walk_dirs_filter(s: Seq<DirEntry>, prefix: Seq<Seq<char>>, depth: nat, n: int)
    requires
        0 <= n <= s.len(),
    ensures
        walk_dirs_upto(s, prefix, depth, n).filter(at_level(depth)) == s.subrange(0, n).map_values(
            |e: DirEntry|
                WalkEntryModel {
                    path: prefix.push(e.name@),
                    level: depth,
                    is_dir: true,
                    name: e.name@,
                },
        ),
    decreases n,
{
    let p = at_level(depth);
    let f = |e: DirEntry|
        WalkEntryModel { path: prefix.push(e.name@), level: depth, is_dir: true, name: e.name@ };
    if n > 0 {
        lemma_walk_dirs_filter(s, prefix, depth, n - 1);
        let a = walk_dirs_upto(s, prefix, depth, n - 1);
        let e = WalkEntryModel {
            path: prefix.push(s[n - 1].name@),
            level: depth,
            is_dir: true,
            name: s[n - 1].name@,
        };
        let c = walk_dir(s[n - 1].dir, prefix.push(s[n - 1].name@), depth + 1);
        let w = walk_dirs_upto(s, prefix, depth, n);
        assert(w == a + (seq![e] + c)) by {
            assert(a + seq![e] + c =~= a + (seq![e] + c));
        }
        lemma_walk_dir_levels(s[n - 1].dir, prefix.push(s[n - 1].name@), depth + 1);
        assert forall|t: int| 0 <= t < c.len() implies !p(#[trigger] c[t]) by {
            assert(c[t].level >= depth + 1);
        }
        lemma_filter_none(c, p);
        lemma_filter_all(seq![e], p);
        Seq::filter_distributes_over_add(a, seq![e] + c, p);
        Seq::filter_distributes_over_add(seq![e], c, p);
        assert(w.filter(p) == a.filter(p) + (seq![e] + Seq::<WalkEntryModel>::empty()));
        assert(seq![e] + Seq::<WalkEntryModel>::empty() =~= seq![e]);
        assert(w.filter(p) == s.subrange(0, n - 1).map_values(f) + seq![e]);
        assert(s.subrange(0, n).map_values(f) =~= s.subrange(0, n - 1).map_values(f) + seq![e]) by {
            assert(s.subrange(0, n).len() == n);
            assert(forall|t: int|
                0 <= t < n ==> #[trigger] s.subrange(0, n)[t] == s[t]);
            assert(forall|t: int|
                0 <= t < n - 1 ==> #[trigger] s.subrange(0, n - 1)[t] == s[t]);
        }
    } else {
        reveal(Seq::filter);
        assert(walk_dirs_upto(s, prefix, depth, n).filter(p) =~= s.subrange(0, 0).map_values(f));
    }
}

/// The entries of a walk at the walk's own depth are exactly the
/// directory's direct children: subdirectories first, then files, both
/// in stored order.
pub proof fn lemma_walk_level_filter(d: VfsDirectory, prefix: Seq<Seq<char>>, depth: nat)
    ensures
        walk_dir(d, prefix, depth).filter(at_level(depth)) == level_entries(d, prefix, depth),
{
    let a = walk_dirs_upto(d.directories@, prefix, depth, d.directories@.len() as int);
    let b = walk_files_upto(d.files@, prefix, depth, d.files@.len() as int);
    lemma_walk_dirs_filter(d.directories@, prefix, depth, d.directories@.len() as int);
    lemma_walk_files_shape(d.files@, prefix, depth, d.files@.len() as int);
    lemma_walk_files_levels(d.files@, prefix, depth, d.files@.len() as int);
    lemma_filter_all(b, at_level(depth));
    Seq::filter_distributes_over_add(a, b, at_level(depth));
    assert(d.directories@.subrange(0, d.directories@.len() as int) =~= d.directories@);
    assert(d.files@.subrange(0, d.files@.len() as int) =~= d.files@);
    assert(walk_dir(d, prefix, depth).filter(at_level(depth)) =~= level_entries(d, prefix, depth));
}

/// Walker ordering: among the entries a walk emits at its own depth,
/// every directory comes before every file, and within each kind the
/// names ascend strictly.  Applying this at each subtree's own walk
/// covers every level of the traversal.
pub proof fn lemma_walker_ordering(d: VfsDirectory, prefix: Seq<Seq<char>>, depth: nat)
    requires
        dir_wf(d),
    ensures
        ({
            let lvl = walk_dir(d, prefix, depth).filter(at_level(depth));
            forall|i: int, j: int|
                0 <= i < j < lvl.len() ==> (((#[trigger] lvl[j]).is_dir ==> (
                #[trigger] lvl[i]).is_dir) && (lvl[i].is_dir == lvl[j].is_dir
                    ==> crate::text::str_lt(lvl[i].name, lvl[j].name)))
        }),
{
    lemma_walk_level_filter(d, prefix, depth);
    let lvl = level_entries(d, prefix, depth);
    let nd = d.directories@.len() as int;
    assert forall|i: int, j: int| 0 <= i < j < lvl.len() implies (((#[trigger] lvl[j]).is_dir ==> (
    #[trigger] lvl[i]).is_dir) && (lvl[i].is_dir == lvl[j].is_dir ==> crate::text::str_lt(
        lvl[i].name,
        lvl[j].name,
    ))) by {
        if i < nd && j < nd {
            assert(lvl[i].name == crate::directory::dir_names(d)[i]);
            assert(lvl[j].name == crate::directory::dir_names(d)[j]);
        } else if i >= nd && j >= nd {
            assert(lvl[i].name == crate::directory::file_names(d)[i - nd]);
            assert(lvl[j].name == crate::directory::file_names(d)[j - nd]);
        } else {
            assert(lvl[i].is_dir && !lvl[j].is_dir);
        }
    }
}

/// The traversal, delivered one entry at a time.  A fresh walker must be
/// built for each pass.
#[derive(Debug)]
pub struct VfsWalker {
    entries: Vec<VfsWalkerEntry>,
}

impl VfsWalker {
    /// The entries not yet handed out.
    pub closed spec fn remaining(&self) -> Seq<WalkEntryModel> {
        entries_model(self.entries@)
    }

    /// A walker over the whole tree under `contents`.
    pub fn new(contents: &VfsDirectory) -> (r: VfsWalker)
        requires
            dir_wf(*contents),
            dir_height(*contents) <= usize::MAX,
        ensures
            r.remaining() == walk_dir(*contents, Seq::empty(), 1),
    {
        let mut prefix: Vec<String> = Vec::new();
        let mut out: Vec<VfsWalkerEntry> = Vec::new();
        walk_collect(contents, &mut prefix, &mut out);
        proof {
            assert(views_of(Seq::<String>::empty()) =~= Seq::<Seq<char>>::empty());
            assert(entries_model(Seq::<VfsWalkerEntry>::empty()) =~= Seq::<
                WalkEntryModel,
            >::empty());
        }
        VfsWalker { entries: out }
    }

    /// The next entry in traversal order, if one is left.
    pub fn next(&mut self) -> (r: Option<VfsWalkerEntry>)
        ensures
            match r {
                Option::Some(e) => old(self).remaining().len() > 0 && entry_model(e) == old(
                    self,
                ).remaining()[0] && final(self).remaining() == old(self).remaining().drop_first(),
                Option::None => old(self).remaining().len() == 0 && final(self).remaining() == old(
                    self,
                ).remaining(),
            },
    {
        if self.entries.len() > 0 {
            let e = self.entries.remove(0);
            proof {
                assert(entries_model(self.entries@) =~= entries_model(
                    old(self).entries@,
                ).drop_first());
            }
            Some(e)
        } else {
            None
        }
    }
}

impl VfsWalkerEntry {
    pub fn new(path: VfsPath, level: usize, entry: VfsDirectoryOrFile) -> (r: VfsWalkerEntry)
        ensures
            r.path == path,
            r.level == level,
            r.entry == entry,
    {
        VfsWalkerEntry { path, level, entry }
    }
}

impl VfsSnapshot {
    /// A walker over this snapshot's tree.
    pub fn walk(&self) -> (r: VfsWalker)
        requires
            self.wf(),
            dir_height(self.root.0) <= usize::MAX,
        ensures
            r.remaining() == walk_dir(self.root.0, Seq::empty(), 1),
    {
        VfsWalker::new(&self.root.0)
    }
}

} // verus!
