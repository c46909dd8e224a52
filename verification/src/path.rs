//! Normalised relative paths: the keys of the virtual file system.
//!
//! A path is a non-empty sequence of name components.  Construction
//! accepts an optional leading separator (discarded: every path is
//! relative to the root) and an optional trailing separator, and rejects
//! parent references, current-directory references and empty components.

use vstd::prelude::*;
use vstd::string::*;

use crate::errors::GuideError;
use crate::text::{join_seq, join_with, lemma_split_seq_props, split_seq, split_str, str_eq, views_of};

verus! {

/// A name usable as one path component: non-empty, free of separators,
/// and neither a current-directory nor a parent reference.
pub open spec fn valid_component(c: Seq<char>) -> bool {
    &&& c.len() > 0
    &&& (forall|j: int| 0 <= j < c.len() ==> c[j] != '/')
    &&& !(c.len() == 1 && c[0] == '.')
    &&& !(c.len() == 2 && c[0] == '.' && c[1] == '.')
}

/// A usable component sequence: at least one component, all of them valid.
pub open spec fn valid_components(cs: Seq<Seq<char>>) -> bool {
    &&& cs.len() > 0
    &&& (forall|i: int| 0 <= i < cs.len() ==> valid_component(cs[i]))
}

/// The components a character sequence is read as: an optional leading
/// separator and an optional trailing separator are dropped, the rest is
/// split at `'/'`.
pub open spec fn raw_components(s: Seq<char>) -> Seq<Seq<char>> {
    let lo: int = if s.len() > 0 && s[0] == '/' {
        1
    } else {
        0
    };
    let hi: int = if s.len() > lo && s[s.len() - 1] == '/' {
        s.len() - 1
    } else {
        s.len() as int
    };
    split_seq(s.subrange(lo, hi), '/')
}

/// What `VfsPath::new` accepts: the components of `s` when they are all
/// valid, nothing otherwise.
pub open spec fn parse_path(s: Seq<char>) -> Option<Seq<Seq<char>>> {
    if valid_components(raw_components(s)) {
        Some(raw_components(s))
    } else {
        None
    }
}

/// A validated path.  Its view is the sequence of component views.
#[derive(Debug, Hash)]
pub struct VfsPath {
    components: Vec<String>,
}

impl PartialEq for VfsPath {
    /// Equality is component-wise.
    fn eq(&self, other: &VfsPath) -> (r: bool) {
        if self.components.len() != other.components.len() {
            proof {
                assert(self@.len() != other@.len());
            }
            return false;
        }
        let n: usize = self.components.len();
        let mut i: usize = 0;
        while i < n
            invariant
                i <= n,
                n == self.components@.len(),
                n == other.components@.len(),
                forall|k: int| 0 <= k < i ==> self@[k] == #[trigger] other@[k],
            decreases n - i,
        {
            if !str_eq(self.components[i].as_str(), other.components[i].as_str()) {
                proof {
                    assert(self@[i as int] != other@[i as int]);
                }
                return false;
            }
            i = i + 1;
        }
        proof {
            assert(self@ =~= other@);
        }
        true
    }
}

impl Eq for VfsPath {

}

impl vstd::std_specs::cmp::PartialEqSpecImpl for VfsPath {
    open spec fn obeys_eq_spec() -> bool {
        true
    }

    open spec fn eq_spec(&self, other: &VfsPath) -> bool {
        self@ == other@
    }
}

impl View for VfsPath {
    type V = Seq<Seq<char>>;

    closed spec fn view(&self) -> Seq<Seq<char>> {
        views_of(self.components@)
    }
}

impl VfsPath {
    /// Every component of the path is valid and there is at least one.
    pub open spec fn wf(&self) -> bool {
        valid_components(self@)
    }

    /// Validates `path` and builds the path value from its components.
    pub fn new(path: &str) -> (r: Result<VfsPath, GuideError>)
        ensures
            match r {
                Ok(p) => parse_path(path@) == Some(p@) && p.wf(),
                Err(e) => parse_path(path@) is None && e == GuideError::InvalidPath,
            },
    {
        let len: usize = path.unicode_len();
        let lo: usize = if len > 0 && path.get_char(0) == '/' {
            1
        } else {
            0
        };
        let hi: usize = if len > lo && path.get_char(len - 1) == '/' {
            len - 1
        } else {
            len
        };
        let middle: &str = path.substring_char(lo, hi);
        let comps: Vec<String> = split_str(middle, '/');
        proof {
            assert(views_of(comps@) == raw_components(path@));
            lemma_split_seq_props(middle@, '/');
        }
        let mut i: usize = 0;
        while i < comps.len()
            invariant
                i <= comps.len(),
                views_of(comps@) == raw_components(path@),
                comps@.len() >= 1,
                forall|k: int| 0 <= k < i ==> valid_component(views_of(comps@)[k]),
            decreases comps.len() - i,
        {
            let ok = component_ok(&comps[i]);
            proof {
                assert(views_of(comps@)[i as int] == comps@[i as int]@);
            }
            if !ok {
                return Err(GuideError::InvalidPath);
            }
            i = i + 1;
        }
        Ok(VfsPath { components: comps })
    }

    /// Wraps components that are already known to be valid.
    pub(crate) fn from_components(components: Vec<String>) -> (r: VfsPath)
        requires
            valid_components(views_of(components@)),
        ensures
            r@ == views_of(components@),
            r.wf(),
    {
        VfsPath { components }
    }

    /// The path with the final component removed.
    pub fn parent(&self) -> (r: VfsPath)
        requires
            self.wf(),
            self@.len() >= 2,
        ensures
            r@ == self@.drop_last(),
            r.wf(),
    {
        let mut components: Vec<String> = Vec::new();
        let n: usize = self.components.len();
        let mut i: usize = 0;
        while i < n - 1
            invariant
                self.wf(),
                i <= n - 1,
                n == self.components.len(),
                n >= 2,
                views_of(components@) == self@.subrange(0, i as int),
            decreases n - 1 - i,
        {
            let piece: String = self.components[i].clone();
            proof {
                assert(views_of(components@.push(piece)) =~= views_of(components@).push(piece@));
                assert(views_of(components@).push(self@[i as int]) =~= self@.subrange(
                    0,
                    i as int + 1,
                ));
            }
            components.push(piece);
            i = i + 1;
        }
        proof {
            assert(self@.subrange(0, n - 1) =~= self@.drop_last());
        }
        VfsPath { components }
    }

    /// The final component.
    pub fn file_name(&self) -> (r: &str)
        requires
            self.wf(),
        ensures
            r@ == self@.last(),
    {
        self.components[self.components.len() - 1].as_str()
    }

    /// The components, in order.
    pub fn components(&self) -> (r: &Vec<String>)
        ensures
            views_of(r@) == self@,
    {
        &self.components
    }

    /// The textual form, components joined by a single separator.
    pub fn into_string(self) -> (r: String)
        ensures
            r@ == join_seq(self@, '/'),
    {
        join_with(&self.components)
    }

    /// The textual form of a borrowed path.
    pub fn as_str(&self) -> (r: String)
        ensures
            r@ == join_seq(self@, '/'),
    {
        join_with(&self.components)
    }
}

/// Decides `valid_component`.
pub(crate) fn component_ok(c: &String) -> (r: bool)
    ensures
        r == valid_component(c@),
{
    let n: usize = c.as_str().unicode_len();
    if n == 0 {
        return false;
    }
    let mut j: usize = 0;
    while j < n
        invariant
            j <= n,
            n == c@.len(),
            forall|k: int| 0 <= k < j ==> c@[k] != '/',
        decreases n - j,
    {
        if c.as_str().get_char(j) == '/' {
            return false;
        }
        j = j + 1;
    }
    if n == 1 && c.as_str().get_char(0) == '.' {
        return false;
    }
    if n == 2 && c.as_str().get_char(0) == '.' && c.as_str().get_char(1) == '.' {
        return false;
    }
    true
}

/// Construction refuses every string one of whose components is empty, a
/// current-directory reference or a parent reference.
pub proof fn lemma_path_construction_rejects(s: Seq<char>, i: int)
    requires
        0 <= i < raw_components(s).len(),
        !valid_component(raw_components(s)[i]),
    ensures
        parse_path(s) is None,
{
}

/// The components of the parent, extended with the file name, are exactly
/// the components of the path.
pub proof fn lemma_parent_file_name(p: VfsPath)
    requires
        p.wf(),
        p@.len() >= 2,
    ensures
        p@.drop_last().push(p@.last()) == p@,
{
    assert(p@.drop_last().push(p@.last()) =~= p@);
}

} // verus!
