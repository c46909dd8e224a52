//! The directory tree: each node keeps an ordered mapping from names to
//! child directories and an ordered mapping from names to file-store
//! indices.  Keys are kept strictly sorted, so serialisation and traversal
//! are deterministic without an extra sorting step.
//!
//! Contracts speak of [`DirModel`], the mathematical reading of a node:
//! a pair of maps.  Well-formed nodes are canonical: equal models mean
//! structurally equal trees.

use vstd::prelude::*;

use crate::path::{valid_component, valid_components, VfsPath};
use crate::text::{
    lemma_str_lt_asym, lemma_str_lt_connex, lemma_str_lt_irrefl, lemma_str_lt_trans, str_lt,
    string_lt, views_of,
};

verus! {

broadcast use vstd::std_specs::vec::axiom_vec_index_decreases, vstd::seq::axiom_seq_index_decreases;

/// One file entry of a directory: a name bound to a file-store index.
#[derive(Debug)]
pub struct FileEntry {
    pub name: String,
    pub index: usize,
}

/// One subdirectory entry of a directory.
#[derive(Debug)]
pub struct DirEntry {
    pub name: String,
    pub dir: VfsDirectory,
}

/// A directory node.  Both entry lists are strictly sorted by name.
#[derive(Debug)]
pub struct VfsDirectory {
    pub directories: Vec<DirEntry>,
    pub files: Vec<FileEntry>,
}

/// The root of a tree, exposing path-addressed mutation.
#[derive(Debug)]
pub struct VfsRoot(pub VfsDirectory);

/// The mathematical reading of a directory node.
#[verifier::ext_equal]
pub struct DirModel {
    pub dirs: Map<Seq<char>, DirModel>,
    pub files: Map<Seq<char>, nat>,
}

impl DirModel {
    pub open spec fn empty() -> DirModel {
        DirModel { dirs: Map::empty(), files: Map::empty() }
    }
}

/// The subdirectory names of `d`, in stored order.
pub open spec fn dir_names(d: VfsDirectory) -> Seq<Seq<char>> {
    d.directories@.map_values(|e: DirEntry| e.name@)
}

/// The file names of `d`, in stored order.
pub open spec fn file_names(d: VfsDirectory) -> Seq<Seq<char>> {
    d.files@.map_values(|e: FileEntry| e.name@)
}

pub open spec fn strictly_sorted(names: Seq<Seq<char>>) -> bool {
    forall|i: int, j: int| 0 <= i < j < names.len() ==> str_lt(names[i], names[j])
}

/// Well-formed node: both entry lists strictly sorted, every name a valid
/// path component, every child well-formed.
pub open spec fn dir_wf(d: VfsDirectory) -> bool
    decreases d,
{
    &&& strictly_sorted(dir_names(d))
    &&& strictly_sorted(file_names(d))
    &&& (forall|i: int|
        0 <= i < d.directories@.len() ==> valid_component(#[trigger] d.directories@[i].name@))
    &&& (forall|i: int| 0 <= i < d.files@.len() ==> valid_component(#[trigger] d.files@[i].name@))
    &&& (forall|i: int| 0 <= i < d.directories@.len() ==> dir_wf(#[trigger] d.directories@[i].dir))
}

/// The file map of the first `n` file entries.
pub open spec fn files_model_upto(s: Seq<FileEntry>, n: int) -> Map<Seq<char>, nat>
    decreases n,
{
    if 0 < n <= s.len() {
        files_model_upto(s, n - 1).insert(s[n - 1].name@, s[n - 1].index as nat)
    } else {
        Map::empty()
    }
}

/// The subdirectory map of the first `n` directory entries.
pub open spec fn dirs_model_upto(s: Seq<DirEntry>, n: int) -> Map<Seq<char>, DirModel>
    decreases s, n,
{
    if 0 < n <= s.len() {
        dirs_model_upto(s, n - 1).insert(s[n - 1].name@, dir_model(s[n - 1].dir))
    } else {
        Map::empty()
    }
}

/// The model of a directory node.
pub open spec fn dir_model(d: VfsDirectory) -> DirModel
    decreases d, d.directories@.len() + 1,
{
    DirModel {
        dirs: dirs_model_upto(d.directories@, d.directories@.len() as int),
        files: files_model_upto(d.files@, d.files@.len() as int),
    }
}

// ---------------------------------------------------------------------
// Lemmas connecting entry sequences with their maps.
// ---------------------------------------------------------------------

pub proof fn lemma_files_model_contains(s: Seq<FileEntry>, n: int, name: Seq<char>)
    requires
        0 <= n <= s.len(),
    ensures
        files_model_upto(s, n).contains_key(name) <==> exists|i: int|
            0 <= i < n && s[i].name@ == name,
    decreases n,
{
    if n > 0 {
        lemma_files_model_contains(s, n - 1, name);
        if s[n - 1].name@ == name {
            assert(files_model_upto(s, n).contains_key(name));
        }
    }
}

pub proof fn lemma_dirs_model_contains(s: Seq<DirEntry>, n: int, name: Seq<char>)
    requires
        0 <= n <= s.len(),
    ensures
        dirs_model_upto(s, n).contains_key(name) <==> exists|i: int|
            0 <= i < n && s[i].name@ == name,
    decreases n,
{
    if n > 0 {
        lemma_dirs_model_contains(s, n - 1, name);
        if s[n - 1].name@ == name {
            assert(dirs_model_upto(s, n).contains_key(name));
        }
    }
}

pub proof fn lemma_files_model_get(s: Seq<FileEntry>, n: int, i: int)
    requires
        0 <= i < n <= s.len(),
        forall|k: int| i < k < n ==> s[k].name@ != s[i].name@,
    ensures
        files_model_upto(s, n).contains_key(s[i].name@),
        files_model_upto(s, n)[s[i].name@] == s[i].index as nat,
    decreases n,
{
    if i < n - 1 {
        lemma_files_model_get(s, n - 1, i);
    }
}

pub proof fn lemma_dirs_model_get(s: Seq<DirEntry>, n: int, i: int)
    requires
        0 <= i < n <= s.len(),
        forall|k: int| i < k < n ==> s[k].name@ != s[i].name@,
    ensures
        dirs_model_upto(s, n).contains_key(s[i].name@),
        dirs_model_upto(s, n)[s[i].name@] == dir_model(s[i].dir),
    decreases n,
{
    if i < n - 1 {
        lemma_dirs_model_get(s, n - 1, i);
    }
}

/// Entries beyond `n` do not matter: equal prefixes give equal maps.
pub proof fn lemma_dirs_model_prefix(s: Seq<DirEntry>, t: Seq<DirEntry>, n: int)
    requires
        0 <= n <= s.len(),
        n <= t.len(),
        forall|k: int| 0 <= k < n ==> s[k] == t[k],
    ensures
        dirs_model_upto(s, n) == dirs_model_upto(t, n),
    decreases n,
{
    if n > 0 {
        lemma_dirs_model_prefix(s, t, n - 1);
    }
}

pub proof fn lemma_files_model_prefix(s: Seq<FileEntry>, t: Seq<FileEntry>, n: int)
    requires
        0 <= n <= s.len(),
        n <= t.len(),
        forall|k: int| 0 <= k < n ==> s[k] == t[k],
    ensures
        files_model_upto(s, n) == files_model_upto(t, n),
    decreases n,
{
    if n > 0 {
        lemma_files_model_prefix(s, t, n - 1);
    }
}

/// Replacing the entry at `i` by one with the same name updates the map at
/// that name alone.
pub proof fn lemma_dirs_model_update(s: Seq<DirEntry>, n: int, i: int, e: DirEntry)
    requires
        0 <= i < n <= s.len(),
        e.name@ == s[i].name@,
        forall|k: int| i < k < n ==> s[k].name@ != s[i].name@,
    ensures
        dirs_model_upto(s.update(i, e), n) == dirs_model_upto(s, n).insert(
            e.name@,
            dir_model(e.dir),
        ),
    decreases n,
{
    let s2 = s.update(i, e);
    if i == n - 1 {
        lemma_dirs_model_prefix(s, s2, n - 1);
        assert(dirs_model_upto(s2, n) =~= dirs_model_upto(s, n).insert(e.name@, dir_model(e.dir)));
    } else {
        lemma_dirs_model_update(s, n - 1, i, e);
        assert(s2[n - 1] == s[n - 1]);
        assert(dirs_model_upto(s2, n) =~= dirs_model_upto(s, n).insert(e.name@, dir_model(e.dir)));
    }
}

pub proof fn lemma_files_model_update(s: Seq<FileEntry>, n: int, i: int, e: FileEntry)
    requires
        0 <= i < n <= s.len(),
        e.name@ == s[i].name@,
        forall|k: int| i < k < n ==> s[k].name@ != s[i].name@,
    ensures
        files_model_upto(s.update(i, e), n) == files_model_upto(s, n).insert(
            e.name@,
            e.index as nat,
        ),
    decreases n,
{
    let s2 = s.update(i, e);
    if i == n - 1 {
        lemma_files_model_prefix(s, s2, n - 1);
        assert(files_model_upto(s2, n) =~= files_model_upto(s, n).insert(e.name@, e.index as nat));
    } else {
        lemma_files_model_update(s, n - 1, i, e);
        assert(s2[n - 1] == s[n - 1]);
        assert(files_model_upto(s2, n) =~= files_model_upto(s, n).insert(e.name@, e.index as nat));
    }
}

/// Inserting an entry with a fresh name anywhere inserts into the map.
pub proof fn lemma_dirs_model_insert(s: Seq<DirEntry>, n: int, j: int, e: DirEntry)
    requires
        0 <= j <= n <= s.len(),
        forall|k: int| 0 <= k < n ==> s[k].name@ != e.name@,
    ensures
        dirs_model_upto(s.insert(j, e), n + 1) == dirs_model_upto(s, n).insert(
            e.name@,
            dir_model(e.dir),
        ),
    decreases n,
{
    let s2 = s.insert(j, e);
    if j == n {
        lemma_dirs_model_prefix(s, s2, n);
        assert(s2[n] == e);
        assert(dirs_model_upto(s2, n + 1) =~= dirs_model_upto(s, n).insert(
            e.name@,
            dir_model(e.dir),
        ));
    } else {
        lemma_dirs_model_insert(s, n - 1, j, e);
        assert(s2[n] == s[n - 1]);
        assert(dirs_model_upto(s2, n + 1) =~= dirs_model_upto(s2, n).insert(
            s[n - 1].name@,
            dir_model(s[n - 1].dir),
        ));
        assert(dirs_model_upto(s, n).insert(e.name@, dir_model(e.dir))
            =~= dirs_model_upto(s, n - 1).insert(e.name@, dir_model(e.dir)).insert(
            s[n - 1].name@,
            dir_model(s[n - 1].dir),
        ));
    }
}

pub proof fn lemma_files_model_insert(s: Seq<FileEntry>, n: int, j: int, e: FileEntry)
    requires
        0 <= j <= n <= s.len(),
        forall|k: int| 0 <= k < n ==> s[k].name@ != e.name@,
    ensures
        files_model_upto(s.insert(j, e), n + 1) == files_model_upto(s, n).insert(
            e.name@,
            e.index as nat,
        ),
    decreases n,
{
    let s2 = s.insert(j, e);
    if j == n {
        lemma_files_model_prefix(s, s2, n);
        assert(s2[n] == e);
        assert(files_model_upto(s2, n + 1) =~= files_model_upto(s, n).insert(
            e.name@,
            e.index as nat,
        ));
    } else {
        lemma_files_model_insert(s, n - 1, j, e);
        assert(s2[n] == s[n - 1]);
        assert(files_model_upto(s2, n + 1) =~= files_model_upto(s2, n).insert(
            s[n - 1].name@,
            s[n - 1].index as nat,
        ));
        assert(files_model_upto(s, n).insert(e.name@, e.index as nat)
            =~= files_model_upto(s, n - 1).insert(e.name@, e.index as nat).insert(
            s[n - 1].name@,
            s[n - 1].index as nat,
        ));
    }
}

/// Removing the entry at `i` removes its name from the map.
pub proof fn lemma_dirs_model_remove(s: Seq<DirEntry>, n: int, i: int)
    requires
        0 <= i < n <= s.len(),
        forall|k: int, l: int| 0 <= k < l < n ==> s[k].name@ != s[l].name@,
    ensures
        dirs_model_upto(s.remove(i), n - 1) == dirs_model_upto(s, n).remove(s[i].name@),
    decreases n,
{
    let s2 = s.remove(i);
    if i == n - 1 {
        lemma_dirs_model_prefix(s, s2, n - 1);
        lemma_dirs_model_contains(s, n - 1, s[i].name@);
        assert(dirs_model_upto(s2, n - 1) =~= dirs_model_upto(s, n).remove(s[i].name@));
    } else {
        lemma_dirs_model_remove(s, n - 1, i);
        assert(s2[n - 2] == s[n - 1]);
        assert(dirs_model_upto(s2, n - 1) =~= dirs_model_upto(s2, n - 2).insert(
            s[n - 1].name@,
            dir_model(s[n - 1].dir),
        ));
        assert(dirs_model_upto(s, n).remove(s[i].name@) =~= dirs_model_upto(s, n - 1).remove(
            s[i].name@,
        ).insert(s[n - 1].name@, dir_model(s[n - 1].dir)));
    }
}

pub proof fn lemma_files_model_remove(s: Seq<FileEntry>, n: int, i: int)
    requires
        0 <= i < n <= s.len(),
        forall|k: int, l: int| 0 <= k < l < n ==> s[k].name@ != s[l].name@,
    ensures
        files_model_upto(s.remove(i), n - 1) == files_model_upto(s, n).remove(s[i].name@),
    decreases n,
{
    let s2 = s.remove(i);
    if i == n - 1 {
        lemma_files_model_prefix(s, s2, n - 1);
        lemma_files_model_contains(s, n - 1, s[i].name@);
        assert(files_model_upto(s2, n - 1) =~= files_model_upto(s, n).remove(s[i].name@));
    } else {
        lemma_files_model_remove(s, n - 1, i);
        assert(s2[n - 2] == s[n - 1]);
        assert(files_model_upto(s2, n - 1) =~= files_model_upto(s2, n - 2).insert(
            s[n - 1].name@,
            s[n - 1].index as nat,
        ));
        assert(files_model_upto(s, n).remove(s[i].name@) =~= files_model_upto(s, n - 1).remove(
            s[i].name@,
        ).insert(s[n - 1].name@, s[n - 1].index as nat));
    }
}

// ---------------------------------------------------------------------
// Model-level operations: what each tree mutation means on `DirModel`.
// ---------------------------------------------------------------------

/// Creates the directory named by `comps`, creating missing ancestors.
pub open spec fn model_create_dir(m: DirModel, comps: Seq<Seq<char>>) -> DirModel
    decreases comps.len(),
{
    if comps.len() == 0 {
        m
    } else {
        let name = comps[0];
        let child = if m.dirs.contains_key(name) {
            m.dirs[name]
        } else {
            DirModel::empty()
        };
        DirModel {
            dirs: m.dirs.insert(name, model_create_dir(child, comps.drop_first())),
            files: m.files,
        }
    }
}

/// Binds the file named by `comps` to `index`, creating missing ancestors
/// and overwriting an existing binding of the same name.
pub open spec fn model_create_file(m: DirModel, comps: Seq<Seq<char>>, index: nat) -> DirModel
    decreases comps.len(),
{
    if comps.len() == 0 {
        m
    } else if comps.len() == 1 {
        DirModel { dirs: m.dirs, files: m.files.insert(comps[0], index) }
    } else {
        let name = comps[0];
        let child = if m.dirs.contains_key(name) {
            m.dirs[name]
        } else {
            DirModel::empty()
        };
        DirModel {
            dirs: m.dirs.insert(name, model_create_file(child, comps.drop_first(), index)),
            files: m.files,
        }
    }
}

/// Removes the subtree named by `comps`; no change when the path is absent.
pub open spec fn model_delete_dir(m: DirModel, comps: Seq<Seq<char>>) -> DirModel
    decreases comps.len(),
{
    if comps.len() == 0 {
        m
    } else if comps.len() == 1 {
        DirModel { dirs: m.dirs.remove(comps[0]), files: m.files }
    } else if m.dirs.contains_key(comps[0]) {
        DirModel {
            dirs: m.dirs.insert(comps[0], model_delete_dir(m.dirs[comps[0]], comps.drop_first())),
            files: m.files,
        }
    } else {
        m
    }
}

/// Removes the file named by `comps`; no change when the path is absent.
pub open spec fn model_delete_file(m: DirModel, comps: Seq<Seq<char>>) -> DirModel
    decreases comps.len(),
{
    if comps.len() == 0 {
        m
    } else if comps.len() == 1 {
        DirModel { dirs: m.dirs, files: m.files.remove(comps[0]) }
    } else if m.dirs.contains_key(comps[0]) {
        DirModel {
            dirs: m.dirs.insert(comps[0], model_delete_file(m.dirs[comps[0]], comps.drop_first())),
            files: m.files,
        }
    } else {
        m
    }
}

/// Places the subtree `sub` at `comps`, creating missing ancestors and
/// overwriting whatever directory entry was there.
pub open spec fn model_insert_dir(m: DirModel, comps: Seq<Seq<char>>, sub: DirModel) -> DirModel
    decreases comps.len(),
{
    if comps.len() == 0 {
        m
    } else if comps.len() == 1 {
        DirModel { dirs: m.dirs.insert(comps[0], sub), files: m.files }
    } else {
        let name = comps[0];
        let child = if m.dirs.contains_key(name) {
            m.dirs[name]
        } else {
            DirModel::empty()
        };
        DirModel {
            dirs: m.dirs.insert(name, model_insert_dir(child, comps.drop_first(), sub)),
            files: m.files,
        }
    }
}

/// The node reached by descending `comps` without creating anything.
pub open spec fn model_lookup_dir(m: DirModel, comps: Seq<Seq<char>>) -> Option<DirModel>
    decreases comps.len(),
{
    if comps.len() == 0 {
        Some(m)
    } else if m.dirs.contains_key(comps[0]) {
        model_lookup_dir(m.dirs[comps[0]], comps.drop_first())
    } else {
        None
    }
}

/// The index bound to the file named by `comps`, if any.
pub open spec fn model_find_file(m: DirModel, comps: Seq<Seq<char>>) -> Option<nat>
    decreases comps.len(),
{
    if comps.len() == 0 {
        None
    } else if comps.len() == 1 {
        if m.files.contains_key(comps[0]) {
            Some(m.files[comps[0]])
        } else {
            None
        }
    } else if m.dirs.contains_key(comps[0]) {
        model_find_file(m.dirs[comps[0]], comps.drop_first())
    } else {
        None
    }
}

/// Moves the subtree at `old_c` to `new_c`: no change when the source is
/// absent; otherwise the source entry is removed and re-inserted at the
/// destination, whose missing ancestors are created.
pub open spec fn model_rename_dir(
    m: DirModel,
    old_c: Seq<Seq<char>>,
    new_c: Seq<Seq<char>>,
) -> DirModel {
    match model_lookup_dir(m, old_c.drop_last()) {
        Option::None => m,
        Option::Some(p) => if p.dirs.contains_key(old_c.last()) {
            model_insert_dir(model_delete_dir(m, old_c), new_c, p.dirs[old_c.last()])
        } else {
            m
        },
    }
}

/// Moves the file at `old_c` to `new_c`, in the same way.
pub open spec fn model_rename_file(
    m: DirModel,
    old_c: Seq<Seq<char>>,
    new_c: Seq<Seq<char>>,
) -> DirModel {
    match model_lookup_dir(m, old_c.drop_last()) {
        Option::None => m,
        Option::Some(p) => if p.files.contains_key(old_c.last()) {
            model_create_file(model_delete_file(m, old_c), new_c, p.files[old_c.last()])
        } else {
            m
        },
    }
}

// ---------------------------------------------------------------------
// Rename reversibility: cancellation along one path, then the law.
// ---------------------------------------------------------------------

/// After placing `sub` at `p`, the destination's parent exists and holds
/// `sub` under the final name (missing ancestors were created).
proof fn lemma_insert_dir_lookup(c: DirModel, p: Seq<Seq<char>>, sub: DirModel)
    requires
        p.len() >= 1,
    ensures
        match model_lookup_dir(model_insert_dir(c, p, sub), p.drop_last()) {
            Option::Some(d) => d.dirs.contains_key(p.last()) && d.dirs[p.last()] == sub,
            Option::None => false,
        },
    decreases p.len(),
{
    if p.len() == 1 {
        assert(p.drop_last().len() == 0);
    } else {
        let h = p[0];
        let child = if c.dirs.contains_key(h) {
            c.dirs[h]
        } else {
            DirModel::empty()
        };
        assert(p.drop_first().drop_last() =~= p.drop_last().drop_first());
        assert(p.drop_first().last() == p.last());
        assert(p.drop_last()[0] == h);
        lemma_insert_dir_lookup(child, p.drop_first(), sub);
    }
}

/// Placing a subtree at a free name whose parent exists, then deleting
/// it again, changes nothing.
proof fn lemma_insert_then_delete_dir(c: DirModel, p: Seq<Seq<char>>, sub: DirModel)
    requires
        p.len() >= 1,
        match model_lookup_dir(c, p.drop_last()) {
            Option::Some(d) => !d.dirs.contains_key(p.last()),
            Option::None => false,
        },
    ensures
        model_delete_dir(model_insert_dir(c, p, sub), p) == c,
    decreases p.len(),
{
    if p.len() == 1 {
        assert(p.drop_last().len() == 0);
        assert(model_delete_dir(model_insert_dir(c, p, sub), p) =~= c) by {
            assert(c.dirs.insert(p[0], sub).remove(p[0]) =~= c.dirs);
        }
    } else {
        let h = p[0];
        assert(p.drop_last()[0] == h);
        let child = c.dirs[h];
        assert(p.drop_first().drop_last() =~= p.drop_last().drop_first());
        assert(p.drop_first().last() == p.last());
        lemma_insert_then_delete_dir(child, p.drop_first(), sub);
        let inner = model_insert_dir(child, p.drop_first(), sub);
        let m1 = model_insert_dir(c, p, sub);
        assert(m1 == DirModel { dirs: c.dirs.insert(h, inner), files: c.files });
        assert(m1.dirs.contains_key(h));
        assert(m1.dirs[h] == inner);
        assert(model_delete_dir(m1, p) =~= c) by {
            assert(c.dirs.insert(h, inner).insert(h, model_delete_dir(inner, p.drop_first()))
                =~= c.dirs.insert(h, child));
            assert(c.dirs.insert(h, child) =~= c.dirs);
        }
    }
}

/// Deleting an existing subtree and placing it back restores the tree.
proof fn lemma_delete_then_insert_dir(c: DirModel, p: Seq<Seq<char>>, sub: DirModel)
    requires
        p.len() >= 1,
        match model_lookup_dir(c, p.drop_last()) {
            Option::Some(d) => d.dirs.contains_key(p.last()) && d.dirs[p.last()] == sub,
            Option::None => false,
        },
    ensures
        model_insert_dir(model_delete_dir(c, p), p, sub) == c,
    decreases p.len(),
{
    if p.len() == 1 {
        assert(p.drop_last().len() == 0);
        assert(model_insert_dir(model_delete_dir(c, p), p, sub) =~= c) by {
            assert(c.dirs.remove(p[0]).insert(p[0], sub) =~= c.dirs);
        }
    } else {
        let h = p[0];
        assert(p.drop_last()[0] == h);
        let child = c.dirs[h];
        assert(p.drop_first().drop_last() =~= p.drop_last().drop_first());
        assert(p.drop_first().last() == p.last());
        lemma_delete_then_insert_dir(child, p.drop_first(), sub);
        let inner = model_delete_dir(child, p.drop_first());
        let m1 = model_delete_dir(c, p);
        assert(m1 == DirModel { dirs: c.dirs.insert(h, inner), files: c.files });
        assert(m1.dirs.contains_key(h));
        assert(model_insert_dir(m1, p, sub) =~= c) by {
            assert(c.dirs.insert(h, inner).insert(
                h,
                model_insert_dir(inner, p.drop_first(), sub),
            ) =~= c.dirs.insert(h, child));
            assert(c.dirs.insert(h, child) =~= c.dirs);
        }
    }
}


/// Rename reversibility for directories, in the general form: when a
/// directory stands at `a`, nothing stands at `b`, and `b`'s parent
/// already exists, renaming `a` to `b` and back is the identity; and in
/// between, the moved subtree stands at `b`.
pub proof fn lemma_rename_directory_reversible(m: DirModel, a: Seq<Seq<char>>, b: Seq<Seq<char>>)
    requires
        a.len() >= 1,
        b.len() >= 1,
        a != b,
        match model_lookup_dir(m, a.drop_last()) {
            Option::Some(d) => d.dirs.contains_key(a.last()),
            Option::None => false,
        },
        match model_lookup_dir(m, b.drop_last()) {
            Option::Some(d) => !d.dirs.contains_key(b.last()),
            Option::None => false,
        },
    ensures
        ({
            let m1 = model_rename_dir(m, a, b);
            let sub = model_lookup_dir(m, a.drop_last()).unwrap().dirs[a.last()];
            &&& match model_lookup_dir(m1, b.drop_last()) {
                Option::Some(d) => d.dirs.contains_key(b.last()) && d.dirs[b.last()] == sub,
                Option::None => false,
            }
            &&& model_rename_dir(m1, b, a) == m
        }),
    decreases a.len() + b.len(),
{
    let sub = model_lookup_dir(m, a.drop_last()).unwrap().dirs[a.last()];
    let m1 = model_rename_dir(m, a, b);
    assert(m1 == model_insert_dir(model_delete_dir(m, a), b, sub));
    if a.len() >= 2 && b.len() >= 2 && a[0] == b[0] {
        let h = a[0];
        assert(a.drop_last()[0] == h);
        assert(b.drop_last()[0] == h);
        assert(m.dirs.contains_key(h));
        let child = m.dirs[h];
        let a2 = a.drop_first();
        let b2 = b.drop_first();
        assert(a2.drop_last() =~= a.drop_last().drop_first());
        assert(b2.drop_last() =~= b.drop_last().drop_first());
        assert(a2.last() == a.last());
        assert(b2.last() == b.last());
        assert(a2 != b2) by {
            if a2 == b2 {
                assert(a =~= b);
            }
        }
        lemma_rename_directory_reversible(child, a2, b2);
        let child1 = model_rename_dir(child, a2, b2);
        let subc = model_lookup_dir(child, a2.drop_last()).unwrap().dirs[a2.last()];
        assert(subc == sub);
        assert(child1 == model_insert_dir(model_delete_dir(child, a2), b2, sub));
        assert(model_delete_dir(m, a) == DirModel {
            dirs: m.dirs.insert(h, model_delete_dir(child, a2)),
            files: m.files,
        });
        assert(m1 =~= DirModel { dirs: m.dirs.insert(h, child1), files: m.files }) by {
            assert(m.dirs.insert(h, model_delete_dir(child, a2)).insert(
                h,
                model_insert_dir(model_delete_dir(child, a2), b2, sub),
            ) =~= m.dirs.insert(h, child1));
        }
        assert(model_lookup_dir(m1, b.drop_last()) == model_lookup_dir(child1, b2.drop_last()));
        let sub2 = model_lookup_dir(m1, b.drop_last()).unwrap().dirs[b.last()];
        assert(sub2 == sub);
        assert(model_rename_dir(m1, b, a) =~= m) by {
            assert(model_delete_dir(m1, b) == DirModel {
                dirs: m1.dirs.insert(h, model_delete_dir(child1, b2)),
                files: m1.files,
            });
            assert(model_rename_dir(m1, b, a) == model_insert_dir(
                model_delete_dir(m1, b),
                a,
                sub,
            ));
            assert(model_rename_dir(child1, b2, a2) == model_insert_dir(
                model_delete_dir(child1, b2),
                a2,
                sub,
            ));
            assert(model_rename_dir(m1, b, a) == DirModel {
                dirs: m1.dirs.insert(h, model_delete_dir(child1, b2)).insert(
                    h,
                    model_insert_dir(model_delete_dir(child1, b2), a2, sub),
                ),
                files: m.files,
            });
            assert(m1.dirs.insert(h, model_delete_dir(child1, b2)).insert(
                h,
                model_rename_dir(child1, b2, a2),
            ) =~= m.dirs.insert(h, child));
            assert(m.dirs.insert(h, child) =~= m.dirs);
        }
    } else if a.len() == 1 && b.len() == 1 {
        let x = a[0];
        let y = b[0];
        assert(a.drop_last().len() == 0);
        assert(b.drop_last().len() == 0);
        assert(x == a.last() && y == b.last());
        assert(x != y) by {
            if x == y {
                assert(a =~= b);
            }
        }
        assert(m1 =~= DirModel { dirs: m.dirs.remove(x).insert(y, sub), files: m.files });
        assert(model_rename_dir(m1, b, a) =~= m) by {
            assert(m1.dirs.remove(y) =~= m.dirs.remove(x));
            assert(m.dirs.remove(x).insert(x, sub) =~= m.dirs);
        }
    } else if a.len() == 1 {
        let x = a[0];
        assert(a.drop_last().len() == 0);
        assert(m.dirs.contains_key(x) && m.dirs[x] == sub);
        let b2 = b.drop_first();
        assert(b.drop_last()[0] == b[0]);
        assert(b2.drop_last() =~= b.drop_last().drop_first());
        assert(b2.last() == b.last());
        if b[0] == x {
            // the destination chain passes through the vacated source
            let inner = model_insert_dir(DirModel::empty(), b2, sub);
            assert(m1 =~= DirModel { dirs: m.dirs.insert(x, inner), files: m.files }) by {
                assert(!model_delete_dir(m, a).dirs.contains_key(x));
                assert(m.dirs.remove(x).insert(x, inner) =~= m.dirs.insert(x, inner));
            }
            lemma_insert_dir_lookup(DirModel::empty(), b2, sub);
            assert(model_lookup_dir(m1, b.drop_last()) == model_lookup_dir(
                inner,
                b2.drop_last(),
            ));
            assert(model_rename_dir(m1, b, a) =~= m) by {
                assert(model_delete_dir(m1, b) == DirModel {
                    dirs: m1.dirs.insert(x, model_delete_dir(inner, b2)),
                    files: m.files,
                });
                assert(m1.dirs.insert(x, model_delete_dir(inner, b2)).insert(x, sub)
                    =~= m.dirs.insert(x, sub));
                assert(m.dirs.insert(x, sub) =~= m.dirs);
            }
        } else {
            assert(m.dirs.contains_key(b[0]));
            let childb = m.dirs[b[0]];
            let inner = model_insert_dir(childb, b2, sub);
            assert(model_lookup_dir(m, b.drop_last()) == model_lookup_dir(
                childb,
                b2.drop_last(),
            ));
            assert(m1 =~= DirModel { dirs: m.dirs.remove(x).insert(b[0], inner), files: m.files });
            lemma_insert_dir_lookup(childb, b2, sub);
            assert(model_lookup_dir(m1, b.drop_last()) == model_lookup_dir(
                inner,
                b2.drop_last(),
            ));
            lemma_insert_then_delete_dir(childb, b2, sub);
            assert(model_rename_dir(m1, b, a) =~= m) by {
                assert(model_delete_dir(m1, b) == DirModel {
                    dirs: m1.dirs.insert(b[0], model_delete_dir(inner, b2)),
                    files: m.files,
                });
                assert(m1.dirs.insert(b[0], childb).insert(x, sub) =~= m.dirs);
            }
        }
    } else if b.len() == 1 {
        // a.len() >= 2
        let y = b[0];
        assert(b.drop_last().len() == 0);
        assert(!m.dirs.contains_key(y));
        assert(a.drop_last()[0] == a[0]);
        assert(m.dirs.contains_key(a[0]));
        let childa = m.dirs[a[0]];
        let a2 = a.drop_first();
        assert(a2.drop_last() =~= a.drop_last().drop_first());
        assert(a2.last() == a.last());
        assert(model_lookup_dir(m, a.drop_last()) == model_lookup_dir(childa, a2.drop_last()));
        let da = model_delete_dir(childa, a2);
        assert(model_delete_dir(m, a) == DirModel {
            dirs: m.dirs.insert(a[0], da),
            files: m.files,
        });
        assert(m1 =~= DirModel {
            dirs: m.dirs.insert(a[0], da).insert(y, sub),
            files: m.files,
        });
        lemma_delete_then_insert_dir(childa, a2, sub);
        assert(model_rename_dir(m1, b, a) =~= m) by {
            assert(model_delete_dir(m1, b) == DirModel { dirs: m1.dirs.remove(y), files: m.files });
            assert(m1.dirs.remove(y) =~= m.dirs.insert(a[0], da));
            assert(a[0] != y);
            assert(model_delete_dir(m1, b).dirs.contains_key(a[0]));
            assert(model_delete_dir(m1, b).dirs[a[0]] == da);
            assert(model_rename_dir(m1, b, a) == DirModel {
                dirs: m1.dirs.remove(y).insert(a[0], model_insert_dir(da, a2, sub)),
                files: m.files,
            });
            assert(m1.dirs.remove(y).insert(a[0], childa) =~= m.dirs);
        }
    } else {
        // a.len() >= 2, b.len() >= 2, a[0] != b[0]: independent subtrees
        assert(a.drop_last()[0] == a[0]);
        assert(b.drop_last()[0] == b[0]);
        assert(m.dirs.contains_key(a[0]));
        assert(m.dirs.contains_key(b[0]));
        let childa = m.dirs[a[0]];
        let childb = m.dirs[b[0]];
        let a2 = a.drop_first();
        let b2 = b.drop_first();
        assert(a2.drop_last() =~= a.drop_last().drop_first());
        assert(b2.drop_last() =~= b.drop_last().drop_first());
        assert(a2.last() == a.last());
        assert(b2.last() == b.last());
        assert(model_lookup_dir(m, a.drop_last()) == model_lookup_dir(childa, a2.drop_last()));
        assert(model_lookup_dir(m, b.drop_last()) == model_lookup_dir(childb, b2.drop_last()));
        let da = model_delete_dir(childa, a2);
        let inner_b = model_insert_dir(childb, b2, sub);
        assert(model_delete_dir(m, a) == DirModel {
            dirs: m.dirs.insert(a[0], da),
            files: m.files,
        });
        assert(m1 =~= DirModel {
            dirs: m.dirs.insert(a[0], da).insert(b[0], inner_b),
            files: m.files,
        });
        lemma_insert_dir_lookup(childb, b2, sub);
        assert(m1.dirs[b[0]] == inner_b);
        assert(model_lookup_dir(m1, b.drop_last()) == model_lookup_dir(inner_b, b2.drop_last()));
        lemma_insert_then_delete_dir(childb, b2, sub);
        lemma_delete_then_insert_dir(childa, a2, sub);
        assert(model_rename_dir(m1, b, a) =~= m) by {
            assert(model_delete_dir(m1, b) == DirModel {
                dirs: m1.dirs.insert(b[0], model_delete_dir(inner_b, b2)),
                files: m.files,
            });
            let m2d = model_delete_dir(m1, b);
            assert(m2d.dirs[a[0]] == da);
            assert(m2d.dirs.contains_key(a[0]));
            assert(model_rename_dir(m1, b, a) == DirModel {
                dirs: m2d.dirs.insert(a[0], model_insert_dir(da, a2, sub)),
                files: m.files,
            });
            assert(m2d.dirs.insert(a[0], childa) =~= m.dirs);
        }
    }
}


/// After binding `idx` at `p`, the destination's parent exists and holds
/// `idx` under the final name (missing ancestors were created).
proof fn lemma_create_file_lookup(c: DirModel, p: Seq<Seq<char>>, idx: nat)
    requires
        p.len() >= 1,
    ensures
        match model_lookup_dir(model_create_file(c, p, idx), p.drop_last()) {
            Option::Some(d) => d.files.contains_key(p.last()) && d.files[p.last()] == idx,
            Option::None => false,
        },
    decreases p.len(),
{
    if p.len() == 1 {
        assert(p.drop_last().len() == 0);
    } else {
        let h = p[0];
        let child = if c.dirs.contains_key(h) {
            c.dirs[h]
        } else {
            DirModel::empty()
        };
        assert(p.drop_first().drop_last() =~= p.drop_last().drop_first());
        assert(p.drop_first().last() == p.last());
        assert(p.drop_last()[0] == h);
        lemma_create_file_lookup(child, p.drop_first(), idx);
    }
}

/// Binding a free name whose parent exists, then deleting it again,
/// changes nothing.
proof fn lemma_create_then_delete_file(c: DirModel, p: Seq<Seq<char>>, idx: nat)
    requires
        p.len() >= 1,
        match model_lookup_dir(c, p.drop_last()) {
            Option::Some(d) => !d.files.contains_key(p.last()),
            Option::None => false,
        },
    ensures
        model_delete_file(model_create_file(c, p, idx), p) == c,
    decreases p.len(),
{
    if p.len() == 1 {
        assert(p.drop_last().len() == 0);
        assert(model_delete_file(model_create_file(c, p, idx), p) =~= c) by {
            assert(c.files.insert(p[0], idx).remove(p[0]) =~= c.files);
        }
    } else {
        let h = p[0];
        assert(p.drop_last()[0] == h);
        let child = c.dirs[h];
        assert(p.drop_first().drop_last() =~= p.drop_last().drop_first());
        assert(p.drop_first().last() == p.last());
        lemma_create_then_delete_file(child, p.drop_first(), idx);
        let inner = model_create_file(child, p.drop_first(), idx);
        let m1 = model_create_file(c, p, idx);
        assert(m1 == DirModel { dirs: c.dirs.insert(h, inner), files: c.files });
        assert(m1.dirs.contains_key(h));
        assert(m1.dirs[h] == inner);
        assert(model_delete_file(m1, p) =~= c) by {
            assert(c.dirs.insert(h, inner).insert(h, model_delete_file(inner, p.drop_first()))
                =~= c.dirs.insert(h, child));
            assert(c.dirs.insert(h, child) =~= c.dirs);
        }
    }
}

/// Deleting an existing file entry and binding it back restores the
/// tree.
proof fn lemma_delete_then_create_file(c: DirModel, p: Seq<Seq<char>>, idx: nat)
    requires
        p.len() >= 1,
        match model_lookup_dir(c, p.drop_last()) {
            Option::Some(d) => d.files.contains_key(p.last()) && d.files[p.last()] == idx,
            Option::None => false,
        },
    ensures
        model_create_file(model_delete_file(c, p), p, idx) == c,
    decreases p.len(),
{
    if p.len() == 1 {
        assert(p.drop_last().len() == 0);
        assert(model_create_file(model_delete_file(c, p), p, idx) =~= c) by {
            assert(c.files.remove(p[0]).insert(p[0], idx) =~= c.files);
        }
    } else {
        let h = p[0];
        assert(p.drop_last()[0] == h);
        let child = c.dirs[h];
        assert(p.drop_first().drop_last() =~= p.drop_last().drop_first());
        assert(p.drop_first().last() == p.last());
        lemma_delete_then_create_file(child, p.drop_first(), idx);
        let inner = model_delete_file(child, p.drop_first());
        let m1 = model_delete_file(c, p);
        assert(m1 == DirModel { dirs: c.dirs.insert(h, inner), files: c.files });
        assert(m1.dirs.contains_key(h));
        assert(model_create_file(m1, p, idx) =~= c) by {
            assert(c.dirs.insert(h, inner).insert(
                h,
                model_create_file(inner, p.drop_first(), idx),
            ) =~= c.dirs.insert(h, child));
            assert(c.dirs.insert(h, child) =~= c.dirs);
        }
    }
}

/// Rename reversibility for files, in the general form: when a file
/// stands at `a`, nothing stands at `b`, and `b`'s parent already
/// exists, renaming `a` to `b` and back is the identity; and in between,
/// the moved index stands at `b`.
pub proof fn lemma_rename_file_reversible(m: DirModel, a: Seq<Seq<char>>, b: Seq<Seq<char>>)
    requires
        a.len() >= 1,
        b.len() >= 1,
        a != b,
        match model_lookup_dir(m, a.drop_last()) {
            Option::Some(d) => d.files.contains_key(a.last()),
            Option::None => false,
        },
        match model_lookup_dir(m, b.drop_last()) {
            Option::Some(d) => !d.files.contains_key(b.last()),
            Option::None => false,
        },
    ensures
        ({
            let m1 = model_rename_file(m, a, b);
            let idx = model_lookup_dir(m, a.drop_last()).unwrap().files[a.last()];
            &&& match model_lookup_dir(m1, b.drop_last()) {
                Option::Some(d) => d.files.contains_key(b.last()) && d.files[b.last()] == idx,
                Option::None => false,
            }
            &&& model_rename_file(m1, b, a) == m
        }),
    decreases a.len() + b.len(),
{
    let idx = model_lookup_dir(m, a.drop_last()).unwrap().files[a.last()];
    let m1 = model_rename_file(m, a, b);
    assert(m1 == model_create_file(model_delete_file(m, a), b, idx));
    if a.len() >= 2 && b.len() >= 2 && a[0] == b[0] {
        let h = a[0];
        assert(a.drop_last()[0] == h);
        assert(b.drop_last()[0] == h);
        assert(m.dirs.contains_key(h));
        let child = m.dirs[h];
        let a2 = a.drop_first();
        let b2 = b.drop_first();
        assert(a2.drop_last() =~= a.drop_last().drop_first());
        assert(b2.drop_last() =~= b.drop_last().drop_first());
        assert(a2.last() == a.last());
        assert(b2.last() == b.last());
        assert(a2 != b2) by {
            if a2 == b2 {
                assert(a =~= b);
            }
        }
        lemma_rename_file_reversible(child, a2, b2);
        let child1 = model_rename_file(child, a2, b2);
        assert(child1 == model_create_file(model_delete_file(child, a2), b2, idx));
        assert(model_delete_file(m, a) == DirModel {
            dirs: m.dirs.insert(h, model_delete_file(child, a2)),
            files: m.files,
        });
        assert(m1 =~= DirModel { dirs: m.dirs.insert(h, child1), files: m.files }) by {
            assert(m.dirs.insert(h, model_delete_file(child, a2)).insert(
                h,
                model_create_file(model_delete_file(child, a2), b2, idx),
            ) =~= m.dirs.insert(h, child1));
        }
        assert(model_lookup_dir(m1, b.drop_last()) == model_lookup_dir(child1, b2.drop_last()));
        assert(model_rename_file(m1, b, a) =~= m) by {
            assert(model_delete_file(m1, b) == DirModel {
                dirs: m1.dirs.insert(h, model_delete_file(child1, b2)),
                files: m1.files,
            });
            assert(model_rename_file(m1, b, a) == model_create_file(
                model_delete_file(m1, b),
                a,
                idx,
            ));
            assert(model_rename_file(child1, b2, a2) == model_create_file(
                model_delete_file(child1, b2),
                a2,
                idx,
            ));
            assert(model_rename_file(m1, b, a) == DirModel {
                dirs: m1.dirs.insert(h, model_delete_file(child1, b2)).insert(
                    h,
                    model_create_file(model_delete_file(child1, b2), a2, idx),
                ),
                files: m.files,
            });
            assert(m1.dirs.insert(h, model_delete_file(child1, b2)).insert(
                h,
                model_rename_file(child1, b2, a2),
            ) =~= m.dirs.insert(h, child));
            assert(m.dirs.insert(h, child) =~= m.dirs);
        }
    } else if a.len() == 1 && b.len() == 1 {
        let x = a[0];
        let y = b[0];
        assert(a.drop_last().len() == 0);
        assert(b.drop_last().len() == 0);
        assert(x != y) by {
            if x == y {
                assert(a =~= b);
            }
        }
        assert(m1 =~= DirModel { dirs: m.dirs, files: m.files.remove(x).insert(y, idx) });
        assert(model_rename_file(m1, b, a) =~= m) by {
            assert(m1.files.remove(y) =~= m.files.remove(x));
            assert(m.files.remove(x).insert(x, idx) =~= m.files);
        }
    } else if a.len() == 1 {
        // b.len() >= 2; the destination descends a directory, which the
        // root-level file entry cannot collide with
        let x = a[0];
        assert(a.drop_last().len() == 0);
        assert(m.files.contains_key(x) && m.files[x] == idx);
        let b2 = b.drop_first();
        assert(b.drop_last()[0] == b[0]);
        assert(b2.drop_last() =~= b.drop_last().drop_first());
        assert(b2.last() == b.last());
        assert(m.dirs.contains_key(b[0]));
        let childb = m.dirs[b[0]];
        let inner = model_create_file(childb, b2, idx);
        assert(model_lookup_dir(m, b.drop_last()) == model_lookup_dir(childb, b2.drop_last()));
        assert(m1 =~= DirModel {
            dirs: m.dirs.insert(b[0], inner),
            files: m.files.remove(x),
        });
        lemma_create_file_lookup(childb, b2, idx);
        assert(model_lookup_dir(m1, b.drop_last()) == model_lookup_dir(inner, b2.drop_last()));
        lemma_create_then_delete_file(childb, b2, idx);
        assert(model_rename_file(m1, b, a) =~= m) by {
            assert(model_delete_file(m1, b) == DirModel {
                dirs: m1.dirs.insert(b[0], model_delete_file(inner, b2)),
                files: m1.files,
            });
            assert(m1.dirs.insert(b[0], childb) =~= m.dirs);
            assert(m.files.remove(x).insert(x, idx) =~= m.files);
        }
    } else if b.len() == 1 {
        // a.len() >= 2
        let y = b[0];
        assert(b.drop_last().len() == 0);
        assert(!m.files.contains_key(y));
        assert(a.drop_last()[0] == a[0]);
        assert(m.dirs.contains_key(a[0]));
        let childa = m.dirs[a[0]];
        let a2 = a.drop_first();
        assert(a2.drop_last() =~= a.drop_last().drop_first());
        assert(a2.last() == a.last());
        assert(model_lookup_dir(m, a.drop_last()) == model_lookup_dir(childa, a2.drop_last()));
        let da = model_delete_file(childa, a2);
        assert(model_delete_file(m, a) == DirModel {
            dirs: m.dirs.insert(a[0], da),
            files: m.files,
        });
        assert(m1 =~= DirModel {
            dirs: m.dirs.insert(a[0], da),
            files: m.files.insert(y, idx),
        });
        lemma_delete_then_create_file(childa, a2, idx);
        assert(model_rename_file(m1, b, a) =~= m) by {
            assert(model_delete_file(m1, b) == DirModel {
                dirs: m1.dirs,
                files: m1.files.remove(y),
            });
            assert(m1.files.remove(y) =~= m.files);
            assert(m1.dirs.contains_key(a[0]) && m1.dirs[a[0]] == da);
            assert(model_rename_file(m1, b, a) == DirModel {
                dirs: m1.dirs.insert(a[0], model_create_file(da, a2, idx)),
                files: m1.files.remove(y),
            });
            assert(m1.dirs.insert(a[0], childa) =~= m.dirs);
        }
    } else {
        // a.len() >= 2, b.len() >= 2, a[0] != b[0]: independent subtrees
        assert(a.drop_last()[0] == a[0]);
        assert(b.drop_last()[0] == b[0]);
        assert(m.dirs.contains_key(a[0]));
        assert(m.dirs.contains_key(b[0]));
        let childa = m.dirs[a[0]];
        let childb = m.dirs[b[0]];
        let a2 = a.drop_first();
        let b2 = b.drop_first();
        assert(a2.drop_last() =~= a.drop_last().drop_first());
        assert(b2.drop_last() =~= b.drop_last().drop_first());
        assert(a2.last() == a.last());
        assert(b2.last() == b.last());
        assert(model_lookup_dir(m, a.drop_last()) == model_lookup_dir(childa, a2.drop_last()));
        assert(model_lookup_dir(m, b.drop_last()) == model_lookup_dir(childb, b2.drop_last()));
        let da = model_delete_file(childa, a2);
        let inner_b = model_create_file(childb, b2, idx);
        assert(model_delete_file(m, a) == DirModel {
            dirs: m.dirs.insert(a[0], da),
            files: m.files,
        });
        assert(m1 =~= DirModel {
            dirs: m.dirs.insert(a[0], da).insert(b[0], inner_b),
            files: m.files,
        });
        lemma_create_file_lookup(childb, b2, idx);
        assert(m1.dirs[b[0]] == inner_b);
        assert(model_lookup_dir(m1, b.drop_last()) == model_lookup_dir(inner_b, b2.drop_last()));
        lemma_create_then_delete_file(childb, b2, idx);
        lemma_delete_then_create_file(childa, a2, idx);
        assert(model_rename_file(m1, b, a) =~= m) by {
            assert(model_delete_file(m1, b) == DirModel {
                dirs: m1.dirs.insert(b[0], model_delete_file(inner_b, b2)),
                files: m.files,
            });
            let m2d = model_delete_file(m1, b);
            assert(m2d.dirs[a[0]] == da);
            assert(m2d.dirs.contains_key(a[0]));
            assert(model_rename_file(m1, b, a) == DirModel {
                dirs: m2d.dirs.insert(a[0], model_create_file(da, a2, idx)),
                files: m.files,
            });
            assert(m2d.dirs.insert(a[0], childa) =~= m.dirs);
        }
    }
}

// ---------------------------------------------------------------------
// Order and canonicity.
// ---------------------------------------------------------------------

/// Inserting `x` at its lower-bound slot keeps the list strictly sorted.
pub proof fn lemma_sorted_insert(names: Seq<Seq<char>>, j: int, x: Seq<char>)
    requires
        0 <= j <= names.len(),
        strictly_sorted(names),
        forall|k: int| 0 <= k < j ==> str_lt(#[trigger] names[k], x),
        j < names.len() ==> str_lt(x, names[j]),
    ensures
        strictly_sorted(names.insert(j, x)),
{
    let s2 = names.insert(j, x);
    assert forall|p: int, q: int| 0 <= p < q < s2.len() implies str_lt(s2[p], s2[q]) by {
        if p < j && q == j {
        } else if p == j && q > j {
            if q - 1 > j {
                lemma_str_lt_trans(x, names[j], names[q - 1]);
            }
        } else if p < j && q > j {
            assert(s2[p] == names[p]);
            assert(s2[q] == names[q - 1]);
            if p == q - 1 {
            } else {
                assert(str_lt(names[p], names[q - 1]));
            }
        } else if p > j && q > j {
            assert(s2[p] == names[p - 1]);
            assert(s2[q] == names[q - 1]);
        }
    }
}

/// Two strictly sorted lists with the same members are equal.
pub proof fn lemma_sorted_same_set(a: Seq<Seq<char>>, b: Seq<Seq<char>>)
    requires
        strictly_sorted(a),
        strictly_sorted(b),
        forall|x: Seq<char>| a.contains(x) <==> b.contains(x),
    ensures
        a == b,
    decreases a.len(),
{
    if a.len() == 0 {
        if b.len() > 0 {
            assert(b.contains(b[0]));
            assert(a.contains(b[0]));
        }
        assert(a =~= b);
    } else {
        assert(a.contains(a[0]));
        assert(b.contains(a[0]));
        if b.len() == 0 {
            assert(!b.contains(a[0]));
        }
        let i = choose|i: int| 0 <= i < a.len() && a[i] == b[0];
        let j = choose|j: int| 0 <= j < b.len() && b[j] == a[0];
        assert(b.contains(b[0]));
        assert(a.contains(b[0]));
        if a[0] != b[0] {
            assert(i > 0 && str_lt(a[0], a[i]));
            assert(j > 0 && str_lt(b[0], b[j]));
            lemma_str_lt_asym(a[0], b[0]);
        }
        assert(a[0] == b[0]);
        let ta = a.drop_first();
        let tb = b.drop_first();
        assert forall|x: Seq<char>| ta.contains(x) <==> tb.contains(x) by {
            lemma_tail_contains(a, x);
            lemma_tail_contains(b, x);
        }
        assert(strictly_sorted(ta)) by {
            assert forall|p: int, q: int| 0 <= p < q < ta.len() implies str_lt(ta[p], ta[q]) by {
                assert(ta[p] == a[p + 1]);
                assert(ta[q] == a[q + 1]);
            }
        }
        assert(strictly_sorted(tb)) by {
            assert forall|p: int, q: int| 0 <= p < q < tb.len() implies str_lt(tb[p], tb[q]) by {
                assert(tb[p] == b[p + 1]);
                assert(tb[q] == b[q + 1]);
            }
        }
        lemma_sorted_same_set(ta, tb);
        assert forall|k: int| 0 <= k < a.len() implies a[k] == b[k] by {
            if k >= 1 {
                assert(a[k] == ta[k - 1]);
                assert(b[k] == tb[k - 1]);
            }
        }
        assert(a =~= b);
    }
}

/// In a strictly sorted list, the tail holds exactly the members other
/// than the head.
proof fn lemma_tail_contains(a: Seq<Seq<char>>, x: Seq<char>)
    requires
        strictly_sorted(a),
        a.len() > 0,
    ensures
        a.drop_first().contains(x) <==> (a.contains(x) && x != a[0]),
{
    let t = a.drop_first();
    if t.contains(x) {
        let k = choose|k: int| 0 <= k < t.len() && t[k] == x;
        assert(a[k + 1] == x);
        assert(a.contains(x));
        assert(str_lt(a[0], a[k + 1]));
        lemma_str_lt_irrefl(a[0]);
    }
    if a.contains(x) && x != a[0] {
        let k = choose|k: int| 0 <= k < a.len() && a[k] == x;
        assert(k >= 1);
        assert(t[k - 1] == x);
        assert(t.contains(x));
    }
}

/// A name list holds `x` exactly when some entry is named `x`.
pub proof fn lemma_dir_names_contains(s: Seq<DirEntry>, x: Seq<char>)
    ensures
        s.map_values(|e: DirEntry| e.name@).contains(x) <==> exists|i: int|
            0 <= i < s.len() && s[i].name@ == x,
{
    let names = s.map_values(|e: DirEntry| e.name@);
    if names.contains(x) {
        let k = choose|k: int| 0 <= k < names.len() && names[k] == x;
        assert(s[k].name@ == x);
    }
    if exists|i: int| 0 <= i < s.len() && s[i].name@ == x {
        let k = choose|k: int| 0 <= k < s.len() && s[k].name@ == x;
        assert(names[k] == x);
        assert(names.contains(x));
    }
}

/// A name list holds `x` exactly when some entry is named `x`.
pub proof fn lemma_file_names_contains(s: Seq<FileEntry>, x: Seq<char>)
    ensures
        s.map_values(|e: FileEntry| e.name@).contains(x) <==> exists|i: int|
            0 <= i < s.len() && s[i].name@ == x,
{
    let names = s.map_values(|e: FileEntry| e.name@);
    if names.contains(x) {
        let k = choose|k: int| 0 <= k < names.len() && names[k] == x;
        assert(s[k].name@ == x);
    }
    if exists|i: int| 0 <= i < s.len() && s[i].name@ == x {
        let k = choose|k: int| 0 <= k < s.len() && s[k].name@ == x;
        assert(names[k] == x);
        assert(names.contains(x));
    }
}

/// Well-formed trees are canonical: equal models force equal name lists,
/// equal file indices, and pairwise equal child models.
pub proof fn lemma_dirs_canon(c: VfsDirectory, d: VfsDirectory)
    requires
        dir_wf(c),
        dir_wf(d),
        dir_model(c) == dir_model(d),
    ensures
        dir_names(c) == dir_names(d),
        file_names(c) == file_names(d),
        c.directories@.len() == d.directories@.len(),
        c.files@.len() == d.files@.len(),
        forall|i: int|
            0 <= i < c.directories@.len() ==> dir_model(#[trigger] c.directories@[i].dir)
                == dir_model(d.directories@[i].dir),
        forall|i: int| 0 <= i < c.files@.len() ==> c.files@[i].index == #[trigger] d.files@[i].index,
{
    let cn = dir_names(c);
    let dn = dir_names(d);
    assert forall|x: Seq<char>| cn.contains(x) <==> dn.contains(x) by {
        lemma_dirs_model_contains(c.directories@, c.directories@.len() as int, x);
        lemma_dirs_model_contains(d.directories@, d.directories@.len() as int, x);
        lemma_dir_names_contains(c.directories@, x);
        lemma_dir_names_contains(d.directories@, x);
    }
    lemma_sorted_same_set(cn, dn);
    let cf = file_names(c);
    let df = file_names(d);
    assert forall|x: Seq<char>| cf.contains(x) <==> df.contains(x) by {
        lemma_files_model_contains(c.files@, c.files@.len() as int, x);
        lemma_files_model_contains(d.files@, d.files@.len() as int, x);
        lemma_file_names_contains(c.files@, x);
        lemma_file_names_contains(d.files@, x);
    }
    lemma_sorted_same_set(cf, df);
    lemma_sorted_distinct(cn);
    lemma_sorted_distinct(dn);
    lemma_sorted_distinct(cf);
    lemma_sorted_distinct(df);
    assert forall|i: int| 0 <= i < c.directories@.len() implies dir_model(
        #[trigger] c.directories@[i].dir,
    ) == dir_model(d.directories@[i].dir) by {
        assert forall|k: int| i < k < c.directories@.len() implies c.directories@[k].name@
            != c.directories@[i].name@ by {
            assert(cn[k] == c.directories@[k].name@);
            assert(cn[i] == c.directories@[i].name@);
        }
        assert forall|k: int| i < k < d.directories@.len() implies d.directories@[k].name@
            != d.directories@[i].name@ by {
            assert(dn[k] == d.directories@[k].name@);
            assert(dn[i] == d.directories@[i].name@);
        }
        lemma_dirs_model_get(c.directories@, c.directories@.len() as int, i);
        lemma_dirs_model_get(d.directories@, d.directories@.len() as int, i);
        assert(c.directories@[i].name@ == cn[i]);
        assert(d.directories@[i].name@ == dn[i]);
    }
    assert forall|i: int| 0 <= i < c.files@.len() implies c.files@[i].index
        == #[trigger] d.files@[i].index by {
        assert forall|k: int| i < k < c.files@.len() implies c.files@[k].name@
            != c.files@[i].name@ by {
            assert(cf[k] == c.files@[k].name@);
            assert(cf[i] == c.files@[i].name@);
        }
        assert forall|k: int| i < k < d.files@.len() implies d.files@[k].name@
            != d.files@[i].name@ by {
            assert(df[k] == d.files@[k].name@);
            assert(df[i] == d.files@[i].name@);
        }
        lemma_files_model_get(c.files@, c.files@.len() as int, i);
        lemma_files_model_get(d.files@, d.files@.len() as int, i);
        assert(c.files@[i].name@ == cf[i]);
        assert(d.files@[i].name@ == df[i]);
    }
}

/// Strict sortedness makes names pairwise distinct.
pub proof fn lemma_sorted_distinct(names: Seq<Seq<char>>)
    requires
        strictly_sorted(names),
    ensures
        forall|i: int, j: int| 0 <= i < j < names.len() ==> names[i] != names[j],
{
    assert forall|i: int, j: int| 0 <= i < j < names.len() implies names[i] != names[j] by {
        if names[i] == names[j] {
            lemma_str_lt_irrefl(names[i]);
        }
    }
}

proof fn lemma_dir_entries_distinct(s: Seq<DirEntry>)
    requires
        strictly_sorted(s.map_values(|e: DirEntry| e.name@)),
    ensures
        forall|k: int, l: int| 0 <= k < l < s.len() ==> s[k].name@ != s[l].name@,
{
    let names = s.map_values(|e: DirEntry| e.name@);
    lemma_sorted_distinct(names);
    assert forall|k: int, l: int| 0 <= k < l < s.len() implies s[k].name@ != s[l].name@ by {
        assert(names[k] == s[k].name@);
        assert(names[l] == s[l].name@);
    }
}

proof fn lemma_file_entries_distinct(s: Seq<FileEntry>)
    requires
        strictly_sorted(s.map_values(|e: FileEntry| e.name@)),
    ensures
        forall|k: int, l: int| 0 <= k < l < s.len() ==> s[k].name@ != s[l].name@,
{
    let names = s.map_values(|e: FileEntry| e.name@);
    lemma_sorted_distinct(names);
    assert forall|k: int, l: int| 0 <= k < l < s.len() implies s[k].name@ != s[l].name@ by {
        assert(names[k] == s[k].name@);
        assert(names[l] == s[l].name@);
    }
}

/// At a lower-bound slot whose entry does not match, the key is fresh,
/// and strictly below the entry at the slot.
pub proof fn lemma_lb_fresh(names: Seq<Seq<char>>, j: int, x: Seq<char>)
    requires
        strictly_sorted(names),
        0 <= j <= names.len(),
        forall|k: int| 0 <= k < j ==> str_lt(#[trigger] names[k], x),
        j < names.len() ==> !str_lt(names[j], x) && names[j] != x,
    ensures
        forall|k: int| 0 <= k < names.len() ==> names[k] != x,
        j < names.len() ==> str_lt(x, names[j]),
{
    if j < names.len() {
        lemma_str_lt_connex(x, names[j]);
    }
    assert forall|k: int| 0 <= k < names.len() implies names[k] != x by {
        if k < j {
            if names[k] == x {
                lemma_str_lt_irrefl(x);
            }
        } else if j < names.len() {
            if k > j {
                lemma_str_lt_trans(x, names[j], names[k]);
            }
            if names[k] == x {
                lemma_str_lt_irrefl(x);
            }
        }
    }
}

/// A deletion aimed at an absent target changes nothing.
pub proof fn lemma_model_delete_dir_noop(m: DirModel, comps: Seq<Seq<char>>)
    requires
        comps.len() >= 1,
        match model_lookup_dir(m, comps.drop_last()) {
            Option::None => true,
            Option::Some(p) => !p.dirs.contains_key(comps.last()),
        },
    ensures
        model_delete_dir(m, comps) == m,
    decreases comps.len(),
{
    if comps.len() == 1 {
        assert(comps.drop_last().len() == 0);
        assert(m.dirs.remove(comps[0]) =~= m.dirs);
        assert(model_delete_dir(m, comps) =~= m);
    } else {
        let dl = comps.drop_last();
        assert(dl[0] == comps[0]);
        if m.dirs.contains_key(comps[0]) {
            let child = m.dirs[comps[0]];
            assert(dl.drop_first() =~= comps.drop_first().drop_last());
            assert(comps.drop_first().last() == comps.last());
            lemma_model_delete_dir_noop(child, comps.drop_first());
            assert(m.dirs.insert(comps[0], child) =~= m.dirs);
            assert(model_delete_dir(m, comps) =~= m);
        }
    }
}

/// A file deletion aimed at an absent target changes nothing.
pub proof fn lemma_model_delete_file_noop(m: DirModel, comps: Seq<Seq<char>>)
    requires
        comps.len() >= 1,
        match model_lookup_dir(m, comps.drop_last()) {
            Option::None => true,
            Option::Some(p) => !p.files.contains_key(comps.last()),
        },
    ensures
        model_delete_file(m, comps) == m,
    decreases comps.len(),
{
    if comps.len() == 1 {
        assert(comps.drop_last().len() == 0);
        assert(m.files.remove(comps[0]) =~= m.files);
        assert(model_delete_file(m, comps) =~= m);
    } else {
        let dl = comps.drop_last();
        assert(dl[0] == comps[0]);
        if m.dirs.contains_key(comps[0]) {
            let child = m.dirs[comps[0]];
            assert(dl.drop_first() =~= comps.drop_first().drop_last());
            assert(comps.drop_first().last() == comps.last());
            lemma_model_delete_file_noop(child, comps.drop_first());
            assert(m.dirs.insert(comps[0], child) =~= m.dirs);
            assert(model_delete_file(m, comps) =~= m);
        }
    }
}

// ---------------------------------------------------------------------
// Executable operations.
// ---------------------------------------------------------------------

/// The lower-bound slot for `name` among sorted directory entries.
fn dir_lb(entries: &Vec<DirEntry>, name: &String) -> (j: usize)
    ensures
        j <= entries@.len(),
        forall|k: int| 0 <= k < j ==> str_lt(#[trigger] entries@[k].name@, name@),
        j < entries@.len() ==> !str_lt(entries@[j as int].name@, name@),
{
    let mut j: usize = 0;
    while j < entries.len() && string_lt(&entries[j].name, name)
        invariant
            j <= entries@.len(),
            forall|k: int| 0 <= k < j ==> str_lt(#[trigger] entries@[k].name@, name@),
        decreases entries@.len() - j,
    {
        j = j + 1;
    }
    j
}

/// The lower-bound slot for `name` among sorted file entries.
fn file_lb(entries: &Vec<FileEntry>, name: &String) -> (j: usize)
    ensures
        j <= entries@.len(),
        forall|k: int| 0 <= k < j ==> str_lt(#[trigger] entries@[k].name@, name@),
        j < entries@.len() ==> !str_lt(entries@[j as int].name@, name@),
{
    let mut j: usize = 0;
    while j < entries.len() && string_lt(&entries[j].name, name)
        invariant
            j <= entries@.len(),
            forall|k: int| 0 <= k < j ==> str_lt(#[trigger] entries@[k].name@, name@),
        decreases entries@.len() - j,
    {
        j = j + 1;
    }
    j
}

impl VfsDirectory {
    /// An empty directory node.
    pub fn new() -> (r: VfsDirectory)
        ensures
            dir_wf(r),
            dir_model(r) == DirModel::empty(),
    {
        let r = VfsDirectory { directories: Vec::new(), files: Vec::new() };
        proof {
            assert(dir_names(r) =~= Seq::<Seq<char>>::empty());
            assert(file_names(r) =~= Seq::<Seq<char>>::empty());
            assert(dir_model(r) =~= DirModel::empty());
        }
        r
    }
}

/// Creates the directory named by `comps[i..]` under `d`, with every
/// missing ancestor.
fn create_dir_at(d: &mut VfsDirectory, comps: &Vec<String>, i: usize)
    requires
        dir_wf(*old(d)),
        i <= comps@.len(),
        forall|k: int| 0 <= k < comps@.len() ==> valid_component(#[trigger] comps@[k]@),
    ensures
        dir_wf(*final(d)),
        dir_model(*final(d)) == model_create_dir(
            dir_model(*old(d)),
            views_of(comps@).subrange(i as int, comps@.len() as int),
        ),
    decreases comps@.len() - i,
{
    let ghost m = dir_model(*old(d));
    let ghost rest = views_of(comps@).subrange(i as int, comps@.len() as int);
    if i == comps.len() {
        proof {
            assert(model_create_dir(m, rest) == m);
        }
        return;
    }
    let name: &String = &comps[i];
    let ghost nm = name@;
    let ghost n0 = old(d).directories@.len() as int;
    proof {
        assert(rest[0] == nm);
        assert(rest.drop_first() =~= views_of(comps@).subrange(i as int + 1, comps@.len() as int));
    }
    let j = dir_lb(&d.directories, name);
    let found = j < d.directories.len() && d.directories[j].name == *name;
    if found {
        proof {
            lemma_dir_entries_distinct(old(d).directories@);
            lemma_dirs_model_get(old(d).directories@, n0, j as int);
        }
        let mut entry: DirEntry = d.directories.remove(j);
        create_dir_at(&mut entry.dir, comps, i + 1);
        let ghost e2 = entry;
        d.directories.insert(j, entry);
        proof {
            assert(d.directories@ =~= old(d).directories@.update(j as int, e2));
            lemma_dirs_model_update(old(d).directories@, n0, j as int, e2);
            assert(m.dirs.contains_key(nm));
            assert(dir_model(e2.dir) == model_create_dir(m.dirs[nm], rest.drop_first()));
            assert(dir_model(*d) =~= model_create_dir(m, rest));
            assert(dir_names(*d) =~= dir_names(*old(d)));
            assert forall|k: int| 0 <= k < d.directories@.len() implies dir_wf(
                #[trigger] d.directories@[k].dir,
            ) by {
                if k != j {
                    assert(d.directories@[k] == old(d).directories@[k]);
                }
            }
            assert(dir_wf(*d));
        }
    } else {
        proof {
            lemma_lb_fresh(dir_names(*old(d)), j as int, nm);
            assert forall|k: int| 0 <= k < n0 implies old(d).directories@[k].name@ != nm by {
                assert(dir_names(*old(d))[k] == old(d).directories@[k].name@);
            }
            lemma_dirs_model_contains(old(d).directories@, n0, nm);
            assert(!m.dirs.contains_key(nm));
        }
        let mut entry = DirEntry { name: name.clone(), dir: VfsDirectory::new() };
        create_dir_at(&mut entry.dir, comps, i + 1);
        let ghost e2 = entry;
        d.directories.insert(j, entry);
        proof {
            assert(d.directories@ =~= old(d).directories@.insert(j as int, e2));
            lemma_dirs_model_insert(old(d).directories@, n0, j as int, e2);
            assert(dir_model(e2.dir) == model_create_dir(DirModel::empty(), rest.drop_first()));
            assert(dir_model(*d) =~= model_create_dir(m, rest));
            assert(dir_names(*d) =~= dir_names(*old(d)).insert(j as int, nm));
            lemma_sorted_insert(dir_names(*old(d)), j as int, nm);
            assert forall|k: int| 0 <= k < d.directories@.len() implies dir_wf(
                #[trigger] d.directories@[k].dir,
            ) && valid_component(d.directories@[k].name@) by {
                if k < j {
                    assert(d.directories@[k] == old(d).directories@[k]);
                } else if k > j {
                    assert(d.directories@[k] == old(d).directories@[k - 1]);
                }
            }
            assert(dir_wf(*d));
        }
    }
}

/// Binds `comps[i..]` to `index` under `d`, creating missing ancestors and
/// overwriting an existing file entry of the same name.
fn create_file_at(d: &mut VfsDirectory, comps: &Vec<String>, i: usize, index: usize)
    requires
        dir_wf(*old(d)),
        i < comps@.len(),
        forall|k: int| 0 <= k < comps@.len() ==> valid_component(#[trigger] comps@[k]@),
    ensures
        dir_wf(*final(d)),
        dir_model(*final(d)) == model_create_file(
            dir_model(*old(d)),
            views_of(comps@).subrange(i as int, comps@.len() as int),
            index as nat,
        ),
    decreases comps@.len() - i,
{
    let ghost m = dir_model(*old(d));
    let ghost rest = views_of(comps@).subrange(i as int, comps@.len() as int);
    let name: &String = &comps[i];
    let ghost nm = name@;
    proof {
        assert(rest[0] == nm);
        assert(rest.drop_first() =~= views_of(comps@).subrange(i as int + 1, comps@.len() as int));
    }
    if i == comps.len() - 1 {
        let ghost f0 = old(d).files@.len() as int;
        let j = file_lb(&d.files, name);
        let found = j < d.files.len() && d.files[j].name == *name;
        let entry = FileEntry { name: name.clone(), index };
        let ghost e2 = entry;
        if found {
            proof {
                lemma_file_entries_distinct(old(d).files@);
            }
            let _old_entry = d.files.remove(j);
            d.files.insert(j, entry);
            proof {
                assert(d.files@ =~= old(d).files@.update(j as int, e2));
                lemma_files_model_update(old(d).files@, f0, j as int, e2);
                assert(dir_model(*d) =~= model_create_file(m, rest, index as nat));
                assert(file_names(*d) =~= file_names(*old(d)));
                assert(dir_names(*d) =~= dir_names(*old(d)));
                assert forall|k: int| 0 <= k < d.directories@.len() implies dir_wf(
                    #[trigger] d.directories@[k].dir,
                ) by {
                    assert(d.directories@[k] == old(d).directories@[k]);
                }
                assert(dir_wf(*d));
            }
        } else {
            proof {
                lemma_lb_fresh(file_names(*old(d)), j as int, nm);
                assert forall|k: int| 0 <= k < f0 implies old(d).files@[k].name@ != nm by {
                    assert(file_names(*old(d))[k] == old(d).files@[k].name@);
                }
            }
            d.files.insert(j, entry);
            proof {
                assert(d.files@ =~= old(d).files@.insert(j as int, e2));
                lemma_files_model_insert(old(d).files@, f0, j as int, e2);
                assert(dir_model(*d) =~= model_create_file(m, rest, index as nat));
                assert(file_names(*d) =~= file_names(*old(d)).insert(j as int, nm));
                lemma_sorted_insert(file_names(*old(d)), j as int, nm);
                assert(dir_names(*d) =~= dir_names(*old(d)));
                assert forall|k: int| 0 <= k < d.directories@.len() implies dir_wf(
                    #[trigger] d.directories@[k].dir,
                ) by {
                    assert(d.directories@[k] == old(d).directories@[k]);
                }
                assert forall|k: int| 0 <= k < d.files@.len() implies valid_component(
                    #[trigger] d.files@[k].name@,
                ) by {
                    if k < j {
                        assert(d.files@[k] == old(d).files@[k]);
                    } else if k > j {
                        assert(d.files@[k] == old(d).files@[k - 1]);
                    }
                }
                assert(dir_wf(*d));
            }
        }
        return;
    }
    let ghost n0 = old(d).directories@.len() as int;
    let j = dir_lb(&d.directories, name);
    let found = j < d.directories.len() && d.directories[j].name == *name;
    if found {
        proof {
            lemma_dir_entries_distinct(old(d).directories@);
            lemma_dirs_model_get(old(d).directories@, n0, j as int);
        }
        let mut entry: DirEntry = d.directories.remove(j);
        create_file_at(&mut entry.dir, comps, i + 1, index);
        let ghost e2 = entry;
        d.directories.insert(j, entry);
        proof {
            assert(d.directories@ =~= old(d).directories@.update(j as int, e2));
            lemma_dirs_model_update(old(d).directories@, n0, j as int, e2);
            assert(m.dirs.contains_key(nm));
            assert(dir_model(*d) =~= model_create_file(m, rest, index as nat));
            assert(dir_names(*d) =~= dir_names(*old(d)));
            assert forall|k: int| 0 <= k < d.directories@.len() implies dir_wf(
                #[trigger] d.directories@[k].dir,
            ) by {
                if k != j {
                    assert(d.directories@[k] == old(d).directories@[k]);
                }
            }
            assert(dir_wf(*d));
        }
    } else {
        proof {
            lemma_lb_fresh(dir_names(*old(d)), j as int, nm);
            assert forall|k: int| 0 <= k < n0 implies old(d).directories@[k].name@ != nm by {
                assert(dir_names(*old(d))[k] == old(d).directories@[k].name@);
            }
            lemma_dirs_model_contains(old(d).directories@, n0, nm);
            assert(!m.dirs.contains_key(nm));
        }
        let mut entry = DirEntry { name: name.clone(), dir: VfsDirectory::new() };
        create_file_at(&mut entry.dir, comps, i + 1, index);
        let ghost e2 = entry;
        d.directories.insert(j, entry);
        proof {
            assert(d.directories@ =~= old(d).directories@.insert(j as int, e2));
            lemma_dirs_model_insert(old(d).directories@, n0, j as int, e2);
            assert(dir_model(e2.dir) == model_create_file(
                DirModel::empty(),
                rest.drop_first(),
                index as nat,
            ));
            assert(dir_model(*d) =~= model_create_file(m, rest, index as nat));
            assert(dir_names(*d) =~= dir_names(*old(d)).insert(j as int, nm));
            lemma_sorted_insert(dir_names(*old(d)), j as int, nm);
            assert forall|k: int| 0 <= k < d.directories@.len() implies dir_wf(
                #[trigger] d.directories@[k].dir,
            ) && valid_component(d.directories@[k].name@) by {
                if k < j {
                    assert(d.directories@[k] == old(d).directories@[k]);
                } else if k > j {
                    assert(d.directories@[k] == old(d).directories@[k - 1]);
                }
            }
            assert(dir_wf(*d));
        }
    }
}

proof fn lemma_comps_valid(comps: Seq<String>, pv: Seq<Seq<char>>)
    requires
        views_of(comps) == pv,
        valid_components(pv),
    ensures
        forall|k: int| 0 <= k < comps.len() ==> valid_component(#[trigger] comps[k]@),
{
    assert forall|k: int| 0 <= k < comps.len() implies valid_component(#[trigger] comps[k]@) by {
        assert(views_of(comps)[k] == comps[k]@);
    }
}

/// Removing one name keeps a sorted list sorted.
proof fn lemma_sorted_remove(names: Seq<Seq<char>>, j: int)
    requires
        strictly_sorted(names),
        0 <= j < names.len(),
    ensures
        strictly_sorted(names.remove(j)),
{
    let s2 = names.remove(j);
    assert forall|p: int, q: int| 0 <= p < q < s2.len() implies str_lt(s2[p], s2[q]) by {
        if p < j {
            assert(s2[p] == names[p]);
        } else {
            assert(s2[p] == names[p + 1]);
        }
        if q < j {
            assert(s2[q] == names[q]);
        } else {
            assert(s2[q] == names[q + 1]);
        }
    }
}

/// Looks the file named by `comps[i..]` up, mutating nothing.
fn find_file_at(d: &VfsDirectory, comps: &Vec<String>, i: usize) -> (r: Option<usize>)
    requires
        dir_wf(*d),
        i < comps@.len(),
    ensures
        ({
            let found = model_find_file(
                dir_model(*d),
                views_of(comps@).subrange(i as int, comps@.len() as int),
            );
            match r {
                Option::Some(x) => found == Option::<nat>::Some(x as nat),
                Option::None => found is None,
            }
        }),
    decreases comps@.len() - i,
{
    let ghost m = dir_model(*d);
    let ghost rest = views_of(comps@).subrange(i as int, comps@.len() as int);
    let name: &String = &comps[i];
    let ghost nm = name@;
    proof {
        assert(rest[0] == nm);
        assert(rest.drop_first() =~= views_of(comps@).subrange(i as int + 1, comps@.len() as int));
    }
    if i == comps.len() - 1 {
        let j = file_lb(&d.files, name);
        if j < d.files.len() && d.files[j].name == *name {
            proof {
                lemma_file_entries_distinct(d.files@);
                lemma_files_model_get(d.files@, d.files@.len() as int, j as int);
            }
            Some(d.files[j].index)
        } else {
            proof {
                lemma_lb_fresh(file_names(*d), j as int, nm);
                assert forall|k: int| 0 <= k < d.files@.len() implies d.files@[k].name@ != nm by {
                    assert(file_names(*d)[k] == d.files@[k].name@);
                }
                lemma_files_model_contains(d.files@, d.files@.len() as int, nm);
            }
            None
        }
    } else {
        let j = dir_lb(&d.directories, name);
        if j < d.directories.len() && d.directories[j].name == *name {
            proof {
                lemma_dir_entries_distinct(d.directories@);
                lemma_dirs_model_get(d.directories@, d.directories@.len() as int, j as int);
            }
            find_file_at(&d.directories[j].dir, comps, i + 1)
        } else {
            proof {
                lemma_lb_fresh(dir_names(*d), j as int, nm);
                assert forall|k: int| 0 <= k < d.directories@.len()
                    implies d.directories@[k].name@ != nm by {
                    assert(dir_names(*d)[k] == d.directories@[k].name@);
                }
                lemma_dirs_model_contains(d.directories@, d.directories@.len() as int, nm);
            }
            None
        }
    }
}

/// Detaches the subtree named by `comps[i..]` and hands it back; no
/// change besides the detachment, and none at all when the source is
/// absent.
fn take_dir_at(d: &mut VfsDirectory, comps: &Vec<String>, i: usize) -> (r: Option<VfsDirectory>)
    requires
        dir_wf(*old(d)),
        i < comps@.len(),
    ensures
        dir_wf(*final(d)),
        ({
            let m = dir_model(*old(d));
            let rest = views_of(comps@).subrange(i as int, comps@.len() as int);
            match r {
                Option::Some(sub) => {
                    &&& dir_wf(sub)
                    &&& match model_lookup_dir(m, rest.drop_last()) {
                        Option::Some(p) => p.dirs.contains_key(rest.last()) && dir_model(sub)
                            == p.dirs[rest.last()],
                        Option::None => false,
                    }
                    &&& dir_model(*final(d)) == model_delete_dir(m, rest)
                },
                Option::None => {
                    &&& dir_model(*final(d)) == m
                    &&& match model_lookup_dir(m, rest.drop_last()) {
                        Option::Some(p) => !p.dirs.contains_key(rest.last()),
                        Option::None => true,
                    }
                },
            }
        }),
    decreases comps@.len() - i,
{
    let ghost m = dir_model(*old(d));
    let ghost rest = views_of(comps@).subrange(i as int, comps@.len() as int);
    let name: &String = &comps[i];
    let ghost nm = name@;
    let ghost n0 = old(d).directories@.len() as int;
    proof {
        assert(rest[0] == nm);
        assert(rest.drop_first() =~= views_of(comps@).subrange(i as int + 1, comps@.len() as int));
    }
    let j = dir_lb(&d.directories, name);
    let found = j < d.directories.len() && d.directories[j].name == *name;
    if i == comps.len() - 1 {
        proof {
            assert(rest.drop_last().len() == 0);
            assert(rest.last() == nm);
        }
        if found {
            proof {
                lemma_dir_entries_distinct(old(d).directories@);
                lemma_dirs_model_get(old(d).directories@, n0, j as int);
                lemma_dirs_model_remove(old(d).directories@, n0, j as int);
            }
            let entry = d.directories.remove(j);
            proof {
                assert(d.directories@ =~= old(d).directories@.remove(j as int));
                assert(dir_model(*d) =~= model_delete_dir(m, rest));
                assert(dir_names(*d) =~= dir_names(*old(d)).remove(j as int));
                lemma_sorted_remove(dir_names(*old(d)), j as int);
                assert forall|k: int| 0 <= k < d.directories@.len() implies dir_wf(
                    #[trigger] d.directories@[k].dir,
                ) && valid_component(d.directories@[k].name@) by {
                    if k < j {
                        assert(d.directories@[k] == old(d).directories@[k]);
                    } else {
                        assert(d.directories@[k] == old(d).directories@[k + 1]);
                    }
                }
                assert(dir_wf(*d));
            }
            Some(entry.dir)
        } else {
            proof {
                lemma_lb_fresh(dir_names(*old(d)), j as int, nm);
                assert forall|k: int| 0 <= k < n0 implies old(d).directories@[k].name@ != nm by {
                    assert(dir_names(*old(d))[k] == old(d).directories@[k].name@);
                }
                lemma_dirs_model_contains(old(d).directories@, n0, nm);
            }
            None
        }
    } else {
        if found {
            proof {
                lemma_dir_entries_distinct(old(d).directories@);
                lemma_dirs_model_get(old(d).directories@, n0, j as int);
                assert(rest.drop_last()[0] == nm);
                assert(rest.drop_last().drop_first() =~= rest.drop_first().drop_last());
                assert(rest.drop_first().last() == rest.last());
            }
            let mut entry: DirEntry = d.directories.remove(j);
            let r = take_dir_at(&mut entry.dir, comps, i + 1);
            let ghost e2 = entry;
            d.directories.insert(j, entry);
            proof {
                assert(d.directories@ =~= old(d).directories@.update(j as int, e2));
                lemma_dirs_model_update(old(d).directories@, n0, j as int, e2);
                assert(m.dirs.contains_key(nm));
                if r is Some {
                    assert(dir_model(e2.dir) == model_delete_dir(m.dirs[nm], rest.drop_first()));
                    assert(dir_model(*d) =~= model_delete_dir(m, rest));
                } else {
                    assert(dir_model(e2.dir) == m.dirs[nm]);
                    assert(m.dirs.insert(nm, m.dirs[nm]) =~= m.dirs);
                    assert(dir_model(*d) =~= m);
                }
                assert(dir_names(*d) =~= dir_names(*old(d)));
                assert forall|k: int| 0 <= k < d.directories@.len() implies dir_wf(
                    #[trigger] d.directories@[k].dir,
                ) by {
                    if k != j {
                        assert(d.directories@[k] == old(d).directories@[k]);
                    }
                }
                assert(dir_wf(*d));
            }
            r
        } else {
            proof {
                lemma_lb_fresh(dir_names(*old(d)), j as int, nm);
                assert forall|k: int| 0 <= k < n0 implies old(d).directories@[k].name@ != nm by {
                    assert(dir_names(*old(d))[k] == old(d).directories@[k].name@);
                }
                lemma_dirs_model_contains(old(d).directories@, n0, nm);
                assert(rest.drop_last()[0] == nm);
            }
            None
        }
    }
}

/// Detaches the file entry named by `comps[i..]` and returns its index.
fn take_file_at(d: &mut VfsDirectory, comps: &Vec<String>, i: usize) -> (r: Option<usize>)
    requires
        dir_wf(*old(d)),
        i < comps@.len(),
    ensures
        dir_wf(*final(d)),
        ({
            let m = dir_model(*old(d));
            let rest = views_of(comps@).subrange(i as int, comps@.len() as int);
            match r {
                Option::Some(x) => {
                    &&& match model_lookup_dir(m, rest.drop_last()) {
                        Option::Some(p) => p.files.contains_key(rest.last()) && x as nat
                            == p.files[rest.last()],
                        Option::None => false,
                    }
                    &&& dir_model(*final(d)) == model_delete_file(m, rest)
                },
                Option::None => {
                    &&& dir_model(*final(d)) == m
                    &&& match model_lookup_dir(m, rest.drop_last()) {
                        Option::Some(p) => !p.files.contains_key(rest.last()),
                        Option::None => true,
                    }
                },
            }
        }),
    decreases comps@.len() - i,
{
    let ghost m = dir_model(*old(d));
    let ghost rest = views_of(comps@).subrange(i as int, comps@.len() as int);
    let name: &String = &comps[i];
    let ghost nm = name@;
    proof {
        assert(rest[0] == nm);
        assert(rest.drop_first() =~= views_of(comps@).subrange(i as int + 1, comps@.len() as int));
    }
    if i == comps.len() - 1 {
        let ghost f0 = old(d).files@.len() as int;
        proof {
            assert(rest.drop_last().len() == 0);
            assert(rest.last() == nm);
        }
        let j = file_lb(&d.files, name);
        if j < d.files.len() && d.files[j].name == *name {
            proof {
                lemma_file_entries_distinct(old(d).files@);
                lemma_files_model_get(old(d).files@, f0, j as int);
                lemma_files_model_remove(old(d).files@, f0, j as int);
            }
            let entry = d.files.remove(j);
            proof {
                assert(d.files@ =~= old(d).files@.remove(j as int));
                assert(dir_model(*d) =~= model_delete_file(m, rest));
                assert(file_names(*d) =~= file_names(*old(d)).remove(j as int));
                lemma_sorted_remove(file_names(*old(d)), j as int);
                assert(dir_names(*d) =~= dir_names(*old(d)));
                assert forall|k: int| 0 <= k < d.files@.len() implies valid_component(
                    #[trigger] d.files@[k].name@,
                ) by {
                    if k < j {
                        assert(d.files@[k] == old(d).files@[k]);
                    } else {
                        assert(d.files@[k] == old(d).files@[k + 1]);
                    }
                }
                assert forall|k: int| 0 <= k < d.directories@.len() implies dir_wf(
                    #[trigger] d.directories@[k].dir,
                ) by {
                    assert(d.directories@[k] == old(d).directories@[k]);
                }
                assert(dir_wf(*d));
            }
            Some(entry.index)
        } else {
            proof {
                lemma_lb_fresh(file_names(*old(d)), j as int, nm);
                assert forall|k: int| 0 <= k < f0 implies old(d).files@[k].name@ != nm by {
                    assert(file_names(*old(d))[k] == old(d).files@[k].name@);
                }
                lemma_files_model_contains(old(d).files@, f0, nm);
            }
            None
        }
    } else {
        let ghost n0 = old(d).directories@.len() as int;
        let j = dir_lb(&d.directories, name);
        if j < d.directories.len() && d.directories[j].name == *name {
            proof {
                lemma_dir_entries_distinct(old(d).directories@);
                lemma_dirs_model_get(old(d).directories@, n0, j as int);
                assert(rest.drop_last()[0] == nm);
                assert(rest.drop_last().drop_first() =~= rest.drop_first().drop_last());
                assert(rest.drop_first().last() == rest.last());
            }
            let mut entry: DirEntry = d.directories.remove(j);
            let r = take_file_at(&mut entry.dir, comps, i + 1);
            let ghost e2 = entry;
            d.directories.insert(j, entry);
            proof {
                assert(d.directories@ =~= old(d).directories@.update(j as int, e2));
                lemma_dirs_model_update(old(d).directories@, n0, j as int, e2);
                assert(m.dirs.contains_key(nm));
                if r is Some {
                    assert(dir_model(e2.dir) == model_delete_file(m.dirs[nm], rest.drop_first()));
                    assert(dir_model(*d) =~= model_delete_file(m, rest));
                } else {
                    assert(dir_model(e2.dir) == m.dirs[nm]);
                    assert(m.dirs.insert(nm, m.dirs[nm]) =~= m.dirs);
                    assert(dir_model(*d) =~= m);
                }
                assert(dir_names(*d) =~= dir_names(*old(d)));
                assert forall|k: int| 0 <= k < d.directories@.len() implies dir_wf(
                    #[trigger] d.directories@[k].dir,
                ) by {
                    if k != j {
                        assert(d.directories@[k] == old(d).directories@[k]);
                    }
                }
                assert(dir_wf(*d));
            }
            r
        } else {
            proof {
                lemma_lb_fresh(dir_names(*old(d)), j as int, nm);
                assert forall|k: int| 0 <= k < n0 implies old(d).directories@[k].name@ != nm by {
                    assert(dir_names(*old(d))[k] == old(d).directories@[k].name@);
                }
                lemma_dirs_model_contains(old(d).directories@, n0, nm);
                assert(rest.drop_last()[0] == nm);
            }
            None
        }
    }
}

/// Places the subtree `sub` at `comps[i..]`, creating missing ancestors
/// and overwriting any directory entry already there.
fn insert_dir_at(d: &mut VfsDirectory, comps: &Vec<String>, i: usize, sub: VfsDirectory)
    requires
        dir_wf(*old(d)),
        dir_wf(sub),
        i < comps@.len(),
        forall|k: int| 0 <= k < comps@.len() ==> valid_component(#[trigger] comps@[k]@),
    ensures
        dir_wf(*final(d)),
        dir_model(*final(d)) == model_insert_dir(
            dir_model(*old(d)),
            views_of(comps@).subrange(i as int, comps@.len() as int),
            dir_model(sub),
        ),
    decreases comps@.len() - i,
{
    let ghost m = dir_model(*old(d));
    let ghost rest = views_of(comps@).subrange(i as int, comps@.len() as int);
    let name: &String = &comps[i];
    let ghost nm = name@;
    let ghost n0 = old(d).directories@.len() as int;
    proof {
        assert(rest[0] == nm);
        assert(rest.drop_first() =~= views_of(comps@).subrange(i as int + 1, comps@.len() as int));
    }
    let j = dir_lb(&d.directories, name);
    let found = j < d.directories.len() && d.directories[j].name == *name;
    if i == comps.len() - 1 {
        let entry = DirEntry { name: name.clone(), dir: sub };
        let ghost e2 = entry;
        if found {
            proof {
                lemma_dir_entries_distinct(old(d).directories@);
            }
            let _old_entry = d.directories.remove(j);
            d.directories.insert(j, entry);
            proof {
                assert(d.directories@ =~= old(d).directories@.update(j as int, e2));
                lemma_dirs_model_update(old(d).directories@, n0, j as int, e2);
                assert(dir_model(*d) =~= model_insert_dir(m, rest, dir_model(e2.dir)));
                assert(dir_names(*d) =~= dir_names(*old(d)));
                assert forall|k: int| 0 <= k < d.directories@.len() implies dir_wf(
                    #[trigger] d.directories@[k].dir,
                ) by {
                    if k != j {
                        assert(d.directories@[k] == old(d).directories@[k]);
                    }
                }
                assert(dir_wf(*d));
            }
        } else {
            proof {
                lemma_lb_fresh(dir_names(*old(d)), j as int, nm);
                assert forall|k: int| 0 <= k < n0 implies old(d).directories@[k].name@ != nm by {
                    assert(dir_names(*old(d))[k] == old(d).directories@[k].name@);
                }
                lemma_dirs_model_contains(old(d).directories@, n0, nm);
            }
            d.directories.insert(j, entry);
            proof {
                assert(d.directories@ =~= old(d).directories@.insert(j as int, e2));
                lemma_dirs_model_insert(old(d).directories@, n0, j as int, e2);
                assert(dir_model(*d) =~= model_insert_dir(m, rest, dir_model(e2.dir)));
                assert(dir_names(*d) =~= dir_names(*old(d)).insert(j as int, nm));
                lemma_sorted_insert(dir_names(*old(d)), j as int, nm);
                assert forall|k: int| 0 <= k < d.directories@.len() implies dir_wf(
                    #[trigger] d.directories@[k].dir,
                ) && valid_component(d.directories@[k].name@) by {
                    if k < j {
                        assert(d.directories@[k] == old(d).directories@[k]);
                    } else if k > j {
                        assert(d.directories@[k] == old(d).directories@[k - 1]);
                    }
                }
                assert(dir_wf(*d));
            }
        }
        return;
    }
    if found {
        proof {
            lemma_dir_entries_distinct(old(d).directories@);
            lemma_dirs_model_get(old(d).directories@, n0, j as int);
        }
        let mut entry: DirEntry = d.directories.remove(j);
        insert_dir_at(&mut entry.dir, comps, i + 1, sub);
        let ghost e2 = entry;
        d.directories.insert(j, entry);
        proof {
            assert(d.directories@ =~= old(d).directories@.update(j as int, e2));
            lemma_dirs_model_update(old(d).directories@, n0, j as int, e2);
            assert(m.dirs.contains_key(nm));
            assert(dir_model(*d) =~= model_insert_dir(m, rest, dir_model(sub)));
            assert(dir_names(*d) =~= dir_names(*old(d)));
            assert forall|k: int| 0 <= k < d.directories@.len() implies dir_wf(
                #[trigger] d.directories@[k].dir,
            ) by {
                if k != j {
                    assert(d.directories@[k] == old(d).directories@[k]);
                }
            }
            assert(dir_wf(*d));
        }
    } else {
        proof {
            lemma_lb_fresh(dir_names(*old(d)), j as int, nm);
            assert forall|k: int| 0 <= k < n0 implies old(d).directories@[k].name@ != nm by {
                assert(dir_names(*old(d))[k] == old(d).directories@[k].name@);
            }
            lemma_dirs_model_contains(old(d).directories@, n0, nm);
            assert(!m.dirs.contains_key(nm));
        }
        let mut entry = DirEntry { name: name.clone(), dir: VfsDirectory::new() };
        insert_dir_at(&mut entry.dir, comps, i + 1, sub);
        let ghost e2 = entry;
        d.directories.insert(j, entry);
        proof {
            assert(d.directories@ =~= old(d).directories@.insert(j as int, e2));
            lemma_dirs_model_insert(old(d).directories@, n0, j as int, e2);
            assert(dir_model(*d) =~= model_insert_dir(m, rest, dir_model(sub)));
            assert(dir_names(*d) =~= dir_names(*old(d)).insert(j as int, nm));
            lemma_sorted_insert(dir_names(*old(d)), j as int, nm);
            assert forall|k: int| 0 <= k < d.directories@.len() implies dir_wf(
                #[trigger] d.directories@[k].dir,
            ) && valid_component(d.directories@[k].name@) by {
                if k < j {
                    assert(d.directories@[k] == old(d).directories@[k]);
                } else if k > j {
                    assert(d.directories@[k] == old(d).directories@[k - 1]);
                }
            }
            assert(dir_wf(*d));
        }
    }
}

/// Equal entries position by position give equal maps.
pub proof fn lemma_dirs_model_pointwise(s: Seq<DirEntry>, t: Seq<DirEntry>, n: int)
    requires
        0 <= n <= s.len(),
        n <= t.len(),
        forall|k: int|
            0 <= k < n ==> (#[trigger] s[k]).name@ == t[k].name@ && dir_model(s[k].dir)
                == dir_model(t[k].dir),
    ensures
        dirs_model_upto(s, n) == dirs_model_upto(t, n),
    decreases n,
{
    if n > 0 {
        lemma_dirs_model_pointwise(s, t, n - 1);
        assert(dirs_model_upto(s, n) =~= dirs_model_upto(t, n));
    }
}

/// Equal entries position by position give equal maps.
pub proof fn lemma_files_model_pointwise(s: Seq<FileEntry>, t: Seq<FileEntry>, n: int)
    requires
        0 <= n <= s.len(),
        n <= t.len(),
        forall|k: int|
            0 <= k < n ==> (#[trigger] s[k]).name@ == t[k].name@ && s[k].index == t[k].index,
    ensures
        files_model_upto(s, n) == files_model_upto(t, n),
    decreases n,
{
    if n > 0 {
        lemma_files_model_pointwise(s, t, n - 1);
        assert(files_model_upto(s, n) =~= files_model_upto(t, n));
    }
}

/// Deep-copies a tree.  The copy is a new structure with the same model:
/// later mutation of either tree cannot affect the other.
pub fn clone_dir(d: &VfsDirectory) -> (r: VfsDirectory)
    requires
        dir_wf(*d),
    ensures
        dir_wf(r),
        dir_model(r) == dir_model(*d),
    decreases *d,
{
    let mut directories: Vec<DirEntry> = Vec::new();
    let mut i: usize = 0;
    while i < d.directories.len()
        invariant
            dir_wf(*d),
            i <= d.directories@.len(),
            directories@.len() == i,
            forall|k: int|
                0 <= k < i ==> (#[trigger] directories@[k]).name@ == d.directories@[k].name@
                    && dir_model(directories@[k].dir) == dir_model(d.directories@[k].dir)
                    && dir_wf(directories@[k].dir),
        decreases d.directories@.len() - i,
    {
        let sub = clone_dir(&d.directories[i].dir);
        directories.push(DirEntry { name: d.directories[i].name.clone(), dir: sub });
        i = i + 1;
    }
    let mut files: Vec<FileEntry> = Vec::new();
    let mut j: usize = 0;
    while j < d.files.len()
        invariant
            j <= d.files@.len(),
            files@.len() == j,
            forall|k: int|
                0 <= k < j ==> (#[trigger] files@[k]).name@ == d.files@[k].name@ && files@[k].index
                    == d.files@[k].index,
        decreases d.files@.len() - j,
    {
        files.push(FileEntry { name: d.files[j].name.clone(), index: d.files[j].index });
        j = j + 1;
    }
    let r = VfsDirectory { directories, files };
    proof {
        lemma_dirs_model_pointwise(r.directories@, d.directories@, r.directories@.len() as int);
        lemma_files_model_pointwise(r.files@, d.files@, r.files@.len() as int);
        assert(dir_model(r) =~= dir_model(*d));
        assert(dir_names(r) =~= dir_names(*d));
        assert(file_names(r) =~= file_names(*d));
        assert(dir_wf(r));
    }
    r
}

/// Decides whether two well-formed trees have the same model.  Sorted
/// storage makes well-formed trees canonical, so a structural walk
/// decides model equality.
pub fn dir_equal(a: &VfsDirectory, b: &VfsDirectory) -> (r: bool)
    requires
        dir_wf(*a),
        dir_wf(*b),
    ensures
        r == (dir_model(*a) == dir_model(*b)),
    decreases *a,
{
    if a.directories.len() != b.directories.len() || a.files.len() != b.files.len() {
        proof {
            if dir_model(*a) == dir_model(*b) {
                lemma_dirs_canon(*a, *b);
            }
        }
        return false;
    }
    let mut i: usize = 0;
    while i < a.files.len()
        invariant
            dir_wf(*a),
            dir_wf(*b),
            a.files@.len() == b.files@.len(),
            a.directories@.len() == b.directories@.len(),
            i <= a.files@.len(),
            forall|k: int|
                0 <= k < i ==> (#[trigger] a.files@[k]).name@ == b.files@[k].name@
                    && a.files@[k].index == b.files@[k].index,
        decreases a.files@.len() - i,
    {
        if !(a.files[i].name == b.files[i].name) || a.files[i].index != b.files[i].index {
            proof {
                if dir_model(*a) == dir_model(*b) {
                    lemma_dirs_canon(*a, *b);
                    assert(file_names(*a)[i as int] == file_names(*b)[i as int]);
                    assert(a.files@[i as int].name@ == b.files@[i as int].name@);
                }
            }
            return false;
        }
        i = i + 1;
    }
    let mut j: usize = 0;
    while j < a.directories.len()
        invariant
            dir_wf(*a),
            dir_wf(*b),
            a.files@.len() == b.files@.len(),
            a.directories@.len() == b.directories@.len(),
            j <= a.directories@.len(),
            forall|k: int|
                0 <= k < a.files@.len() ==> (#[trigger] a.files@[k]).name@ == b.files@[k].name@
                    && a.files@[k].index == b.files@[k].index,
            forall|k: int|
                0 <= k < j ==> (#[trigger] a.directories@[k]).name@ == b.directories@[k].name@
                    && dir_model(a.directories@[k].dir) == dir_model(b.directories@[k].dir),
        decreases a.directories@.len() - j,
    {
        let names_equal = a.directories[j].name == b.directories[j].name;
        let subs_equal = if names_equal {
            dir_equal(&a.directories[j].dir, &b.directories[j].dir)
        } else {
            false
        };
        if !names_equal || !subs_equal {
            proof {
                if dir_model(*a) == dir_model(*b) {
                    lemma_dirs_canon(*a, *b);
                    assert(dir_names(*a)[j as int] == dir_names(*b)[j as int]);
                    assert(a.directories@[j as int].name@ == b.directories@[j as int].name@);
                }
            }
            return false;
        }
        j = j + 1;
    }
    proof {
        lemma_dirs_model_pointwise(
            a.directories@,
            b.directories@,
            a.directories@.len() as int,
        );
        lemma_files_model_pointwise(a.files@, b.files@, a.files@.len() as int);
        assert(dir_model(*a) =~= dir_model(*b));
    }
    true
}

impl VfsRoot {
    /// The model of the whole tree.
    pub open spec fn model(&self) -> DirModel {
        dir_model(self.0)
    }

    /// The tree is well-formed.
    pub open spec fn wf(&self) -> bool {
        dir_wf(self.0)
    }

    /// An empty tree.
    pub fn new() -> (r: VfsRoot)
        ensures
            r.wf(),
            r.model() == DirModel::empty(),
    {
        VfsRoot(VfsDirectory::new())
    }

    /// Creates the directory at `path`, creating any missing ancestor.
    /// Idempotent.
    pub fn create_directory(&mut self, path: &VfsPath)
        requires
            old(self).wf(),
            path.wf(),
        ensures
            final(self).wf(),
            final(self).model() == model_create_dir(old(self).model(), path@),
    {
        let comps = path.components();
        proof {
            lemma_comps_valid(comps@, path@);
        }
        create_dir_at(&mut self.0, comps, 0);
        proof {
            assert(views_of(comps@).subrange(0, path@.len() as int) =~= path@);
        }
    }

    /// Deletes the directory at `path` with its subtree; a warning, not an
    /// error, when it is absent.
    pub fn delete_directory(&mut self, path: &VfsPath)
        requires
            old(self).wf(),
            path.wf(),
        ensures
            final(self).wf(),
            final(self).model() == model_delete_dir(old(self).model(), path@),
    {
        let comps = path.components();
        let taken = take_dir_at(&mut self.0, comps, 0);
        proof {
            assert(views_of(comps@).subrange(0, path@.len() as int) =~= path@);
            if taken is None {
                lemma_model_delete_dir_noop(old(self).model(), path@);
            }
        }
    }

    /// Moves the directory at `old_path` so that its path becomes
    /// `new_path`, creating the destination's missing ancestors and
    /// replacing any directory already there; a warning when the source is
    /// absent.
    pub fn rename_directory(&mut self, old_path: &VfsPath, new_path: &VfsPath)
        requires
            old(self).wf(),
            old_path.wf(),
            new_path.wf(),
        ensures
            final(self).wf(),
            final(self).model() == model_rename_dir(old(self).model(), old_path@, new_path@),
    {
        let ghost m = old(self).model();
        let old_comps = old_path.components();
        let taken = take_dir_at(&mut self.0, old_comps, 0);
        proof {
            assert(views_of(old_comps@).subrange(0, old_path@.len() as int) =~= old_path@);
        }
        match taken {
            Option::Some(sub) => {
                let new_comps = new_path.components();
                proof {
                    lemma_comps_valid(new_comps@, new_path@);
                }
                insert_dir_at(&mut self.0, new_comps, 0, sub);
                proof {
                    assert(views_of(new_comps@).subrange(0, new_path@.len() as int) =~= new_path@);
                }
            },
            Option::None => {
            },
        }
    }

    /// Binds `path` to `file_index`, creating missing ancestors and
    /// overwriting any file entry of the same name.
    pub fn create_file(&mut self, path: &VfsPath, file_index: usize)
        requires
            old(self).wf(),
            path.wf(),
        ensures
            final(self).wf(),
            final(self).model() == model_create_file(old(self).model(), path@, file_index as nat),
    {
        let comps = path.components();
        proof {
            lemma_comps_valid(comps@, path@);
        }
        create_file_at(&mut self.0, comps, 0, file_index);
        proof {
            assert(views_of(comps@).subrange(0, path@.len() as int) =~= path@);
        }
    }

    /// Deletes the file entry at `path`; a warning when it is absent.
    pub fn delete_file(&mut self, path: &VfsPath)
        requires
            old(self).wf(),
            path.wf(),
        ensures
            final(self).wf(),
            final(self).model() == model_delete_file(old(self).model(), path@),
    {
        let comps = path.components();
        let taken = take_file_at(&mut self.0, comps, 0);
        proof {
            assert(views_of(comps@).subrange(0, path@.len() as int) =~= path@);
            if taken is None {
                lemma_model_delete_file_noop(old(self).model(), path@);
            }
        }
    }

    /// Moves the file entry at `old_path` to `new_path`, creating the
    /// destination's missing ancestors and replacing any file entry
    /// already there; a warning when the source is absent.
    pub fn rename_file(&mut self, old_path: &VfsPath, new_path: &VfsPath)
        requires
            old(self).wf(),
            old_path.wf(),
            new_path.wf(),
        ensures
            final(self).wf(),
            final(self).model() == model_rename_file(old(self).model(), old_path@, new_path@),
    {
        let old_comps = old_path.components();
        let taken = take_file_at(&mut self.0, old_comps, 0);
        proof {
            assert(views_of(old_comps@).subrange(0, old_path@.len() as int) =~= old_path@);
        }
        match taken {
            Option::Some(index) => {
                let new_comps = new_path.components();
                proof {
                    lemma_comps_valid(new_comps@, new_path@);
                }
                create_file_at(&mut self.0, new_comps, 0, index);
                proof {
                    assert(views_of(new_comps@).subrange(0, new_path@.len() as int) =~= new_path@);
                }
            },
            Option::None => {
            },
        }
    }

    /// The file-store index bound to `path`, if any; never mutates.
    pub fn find_file(&self, path: &VfsPath) -> (r: Option<usize>)
        requires
            self.wf(),
            path.wf(),
        ensures
            match r {
                Option::Some(x) => model_find_file(self.model(), path@) == Option::<nat>::Some(
                    x as nat,
                ),
                Option::None => model_find_file(self.model(), path@) is None,
            },
    {
        let comps = path.components();
        let r = find_file_at(&self.0, comps, 0);
        proof {
            assert(views_of(comps@).subrange(0, path@.len() as int) =~= path@);
        }
        r
    }
}

} // verus!
