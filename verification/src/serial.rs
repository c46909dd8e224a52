//! The guide's wire form: compact JSON with every object's keys in
//! lexicographic order, and the loader that reads it back.
//!
//! Shape: `{"name":…,"vfs":{"files":[{"content":…},…],"snapshots":
//! [{"root":{"directories":{…},"files":{…}},"page":…},…]}}`.

use vstd::prelude::*;
use vstd::string::*;

use crate::directory::{dir_wf, DirEntry, FileEntry, VfsDirectory, VfsRoot};
use crate::file::{VfsFile, VfsFilesHandle};
use crate::guide::Guide;
use crate::snapshot::VfsSnapshot;
use crate::text::push_char;
use crate::vfs::Vfs;

verus! {

broadcast use vstd::std_specs::vec::axiom_vec_index_decreases, vstd::seq::axiom_seq_index_decreases;

/// How one character appears inside a JSON string literal.
pub open spec fn json_escape_char(c: char) -> Seq<char> {
    if c == '"' {
        seq!['\\', '"']
    } else if c == '\\' {
        seq!['\\', '\\']
    } else if c == '\u{8}' {
        seq!['\\', 'b']
    } else if c == '\t' {
        seq!['\\', 't']
    } else if c == '\n' {
        seq!['\\', 'n']
    } else if c == '\u{c}' {
        seq!['\\', 'f']
    } else if c == '\r' {
        seq!['\\', 'r']
    } else if (c as u32) < 0x20 {
        seq!['\\', 'u', '0', '0', "0123456789abcdef"@[(c as u32 / 16) as int], "0123456789abcdef"@[(
            c as u32 % 16
        ) as int]]
    } else {
        seq![c]
    }
}

pub open spec fn json_escape(s: Seq<char>) -> Seq<char>
    decreases s.len(),
{
    if s.len() == 0 {
        Seq::empty()
    } else {
        json_escape(s.drop_last()) + json_escape_char(s.last())
    }
}

/// A JSON string literal.
pub open spec fn json_string(s: Seq<char>) -> Seq<char> {
    seq!['"'] + json_escape(s) + seq!['"']
}

/// A decimal numeral.
pub open spec fn dec_str(n: nat) -> Seq<char>
    decreases n,
{
    if n < 10 {
        seq!["0123456789"@[n as int]]
    } else {
        dec_str(n / 10) + seq!["0123456789"@[(n % 10) as int]]
    }
}

/// The subdirectory members of a directory object, comma-separated.
pub open spec fn json_dirs_upto(s: Seq<DirEntry>, n: int) -> Seq<char>
    decreases s, n,
{
    if 0 < n <= s.len() {
        let piece = json_string(s[n - 1].name@) + seq![':'] + json_of_dir(s[n - 1].dir);
        if n == 1 {
            piece
        } else {
            json_dirs_upto(s, n - 1) + seq![','] + piece
        }
    } else {
        Seq::empty()
    }
}

/// The file members of a directory object, comma-separated.
pub open spec fn json_files_upto(s: Seq<FileEntry>, n: int) -> Seq<char>
    decreases n,
{
    if 0 < n <= s.len() {
        let piece = json_string(s[n - 1].name@) + seq![':'] + dec_str(s[n - 1].index as nat);
        if n == 1 {
            piece
        } else {
            json_files_upto(s, n - 1) + seq![','] + piece
        }
    } else {
        Seq::empty()
    }
}

/// A directory object.
pub open spec fn json_of_dir(d: VfsDirectory) -> Seq<char>
    decreases d, d.directories@.len() + 1,
{
    "{\"directories\":{"@ + json_dirs_upto(d.directories@, d.directories@.len() as int)
        + "},\"files\":{"@ + json_files_upto(d.files@, d.files@.len() as int) + "}}"@
}

/// A snapshot object.
pub open spec fn json_of_snapshot(s: VfsSnapshot) -> Seq<char> {
    "{\"root\":"@ + json_of_dir(s.root.0) + ",\"page\":"@ + json_string(s.page@) + "}"@
}

/// The file-store array.
pub open spec fn json_store_upto(store: Seq<Seq<char>>, n: int) -> Seq<char>
    decreases n,
{
    if 0 < n <= store.len() {
        let piece = "{\"content\":"@ + json_string(store[n - 1]) + "}"@;
        if n == 1 {
            piece
        } else {
            json_store_upto(store, n - 1) + seq![','] + piece
        }
    } else {
        Seq::empty()
    }
}

/// The snapshot array.
pub open spec fn json_snapshots_upto(s: Seq<VfsSnapshot>, n: int) -> Seq<char>
    decreases s, n,
{
    if 0 < n <= s.len() {
        let piece = json_of_snapshot(s[n - 1]);
        if n == 1 {
            piece
        } else {
            json_snapshots_upto(s, n - 1) + seq![','] + piece
        }
    } else {
        Seq::empty()
    }
}

/// The whole artifact.
pub open spec fn json_of_guide(g: Guide) -> Seq<char> {
    "{\"name\":"@ + json_string(g.name@) + ",\"vfs\":{\"files\":["@ + json_store_upto(
        g.vfs.files@,
        g.vfs.files@.len() as int,
    ) + "],\"snapshots\":["@ + json_snapshots_upto(
        g.vfs.snapshots@,
        g.vfs.snapshots@.len() as int,
    ) + "]}}"@
}

fn emit_escaped_char(out: &mut String, c: char)
    ensures
        final(out)@ == old(out)@ + json_escape_char(c),
{
    if c == '"' {
        out.append("\\\"");
        proof {
            reveal_strlit("\\\"");
            assert(json_escape_char(c) =~= "\\\""@);
        }
    } else if c == '\\' {
        out.append("\\\\");
        proof {
            reveal_strlit("\\\\");
            assert(json_escape_char(c) =~= "\\\\"@);
        }
    } else if c == '\u{8}' {
        out.append("\\b");
        proof {
            reveal_strlit("\\b");
            assert(json_escape_char(c) =~= "\\b"@);
        }
    } else if c == '\t' {
        out.append("\\t");
        proof {
            reveal_strlit("\\t");
            assert(json_escape_char(c) =~= "\\t"@);
        }
    } else if c == '\n' {
        out.append("\\n");
        proof {
            reveal_strlit("\\n");
            assert(json_escape_char(c) =~= "\\n"@);
        }
    } else if c == '\u{c}' {
        out.append("\\f");
        proof {
            reveal_strlit("\\f");
            assert(json_escape_char(c) =~= "\\f"@);
        }
    } else if c == '\r' {
        out.append("\\r");
        proof {
            reveal_strlit("\\r");
            assert(json_escape_char(c) =~= "\\r"@);
        }
    } else if (c as u32) < 0x20 {
        out.append("\\u00");
        let table = "0123456789abcdef";
        proof {
            reveal_strlit("\\u00");
            reveal_strlit("0123456789abcdef");
            assert("\\u00"@ =~= seq!['\\', 'u', '0', '0']);
        }
        let hi = ((c as u32) / 16) as usize;
        let lo = ((c as u32) % 16) as usize;
        push_char(out, table.get_char(hi));
        push_char(out, table.get_char(lo));
        proof {
            assert(final(out)@ =~= old(out)@ + json_escape_char(c));
        }
    } else {
        push_char(out, c);
        proof {
            assert(final(out)@ =~= old(out)@ + json_escape_char(c));
        }
    }
}

fn emit_json_string(out: &mut String, s: &str)
    ensures
        final(out)@ == old(out)@ + json_string(s@),
{
    push_char(out, '"');
    let n: usize = s.unicode_len();
    let mut i: usize = 0;
    while i < n
        invariant
            i <= n,
            n == s@.len(),
            out@ == old(out)@ + seq!['"'] + json_escape(s@.subrange(0, i as int)),
        decreases n - i,
    {
        let c = s.get_char(i);
        emit_escaped_char(out, c);
        proof {
            assert(s@.subrange(0, i as int + 1).drop_last() =~= s@.subrange(0, i as int));
            assert(s@.subrange(0, i as int + 1).last() == s@[i as int]);
        }
        i = i + 1;
    }
    push_char(out, '"');
    proof {
        assert(s@.subrange(0, n as int) =~= s@);
        assert(final(out)@ =~= old(out)@ + json_string(s@));
    }
}

fn emit_usize(out: &mut String, n: usize)
    ensures
        final(out)@ == old(out)@ + dec_str(n as nat),
    decreases n,
{
    let table = "0123456789";
    proof {
        reveal_strlit("0123456789");
    }
    if n < 10 {
        push_char(out, table.get_char(n));
    } else {
        emit_usize(out, n / 10);
        push_char(out, table.get_char(n % 10));
    }
}

fn emit_dir(out: &mut String, d: &VfsDirectory)
    ensures
        final(out)@ == old(out)@ + json_of_dir(*d),
    decreases *d,
{
    out.append("{\"directories\":{");
    proof {
        reveal_strlit("{\"directories\":{");
    }
    let mut i: usize = 0;
    while i < d.directories.len()
        invariant
            i <= d.directories@.len(),
            out@ == old(out)@ + "{\"directories\":{"@ + json_dirs_upto(d.directories@, i as int),
        decreases d.directories@.len() - i,
    {
        if i > 0 {
            out.append(",");
            proof {
                reveal_strlit(",");
                assert(","@ =~= seq![',']);
            }
        }
        emit_json_string(out, d.directories[i].name.as_str());
        push_char(out, ':');
        emit_dir(out, &d.directories[i].dir);
        proof {
            assert(out@ =~= old(out)@ + "{\"directories\":{"@ + json_dirs_upto(
                d.directories@,
                i as int + 1,
            ));
        }
        i = i + 1;
    }
    out.append("},\"files\":{");
    proof {
        reveal_strlit("},\"files\":{");
    }
    let ghost mid = old(out)@ + "{\"directories\":{"@ + json_dirs_upto(
        d.directories@,
        d.directories@.len() as int,
    ) + "},\"files\":{"@;
    let mut j: usize = 0;
    while j < d.files.len()
        invariant
            j <= d.files@.len(),
            out@ == mid + json_files_upto(d.files@, j as int),
        decreases d.files@.len() - j,
    {
        if j > 0 {
            out.append(",");
            proof {
                reveal_strlit(",");
                assert(","@ =~= seq![',']);
            }
        }
        emit_json_string(out, d.files[j].name.as_str());
        push_char(out, ':');
        emit_usize(out, d.files[j].index);
        proof {
            assert(out@ =~= mid + json_files_upto(d.files@, j as int + 1));
        }
        j = j + 1;
    }
    out.append("}}");
    proof {
        reveal_strlit("}}");
        assert(final(out)@ =~= old(out)@ + json_of_dir(*d));
    }
}

fn emit_snapshot(out: &mut String, s: &VfsSnapshot)
    ensures
        final(out)@ == old(out)@ + json_of_snapshot(*s),
{
    out.append("{\"root\":");
    proof {
        reveal_strlit("{\"root\":");
    }
    emit_dir(out, &s.root.0);
    out.append(",\"page\":");
    proof {
        reveal_strlit(",\"page\":");
    }
    emit_json_string(out, s.page.as_str());
    out.append("}");
    proof {
        reveal_strlit("}");
        assert("}"@ =~= seq!['}']);
        assert(final(out)@ =~= old(out)@ + json_of_snapshot(*s));
    }
}

impl Guide {
    /// Serialises the guide to its compact JSON wire form.
    pub fn to_json(&self) -> (r: String)
        ensures
            r@ == json_of_guide(*self),
    {
        let mut out = String::new();
        out.append("{\"name\":");
        proof {
            reveal_strlit("{\"name\":");
        }
        emit_json_string(&mut out, self.name.as_str());
        out.append(",\"vfs\":{\"files\":[");
        proof {
            reveal_strlit(",\"vfs\":{\"files\":[");
        }
        let ghost head = "{\"name\":"@ + json_string(self.name@) + ",\"vfs\":{\"files\":["@;
        let n = self.vfs.files.len();
        let mut i: usize = 0;
        while i < n
            invariant
                i <= n,
                n == self.vfs.files@.len(),
                out@ == head + json_store_upto(self.vfs.files@, i as int),
            decreases n - i,
        {
            if i > 0 {
                out.append(",");
                proof {
                    reveal_strlit(",");
                    assert(","@ =~= seq![',']);
                }
            }
            out.append("{\"content\":");
            proof {
                reveal_strlit("{\"content\":");
            }
            let content = match self.vfs.files.read_file(i) {
                Option::Some(c) => c,
                Option::None => String::new(),
            };
            emit_json_string(&mut out, content.as_str());
            out.append("}");
            proof {
                reveal_strlit("}");
                assert("}"@ =~= seq!['}']);
                assert(out@ =~= head + json_store_upto(self.vfs.files@, i as int + 1));
            }
            i = i + 1;
        }
        out.append("],\"snapshots\":[");
        proof {
            reveal_strlit("],\"snapshots\":[");
        }
        let ghost mid = head + json_store_upto(self.vfs.files@, self.vfs.files@.len() as int)
            + "],\"snapshots\":["@;
        let m = self.vfs.snapshots.len();
        let mut k: usize = 0;
        while k < m
            invariant
                k <= m,
                m == self.vfs.snapshots@.len(),
                out@ == mid + json_snapshots_upto(self.vfs.snapshots@, k as int),
            decreases m - k,
        {
            if k > 0 {
                out.append(",");
                proof {
                    reveal_strlit(",");
                    assert(","@ =~= seq![',']);
                }
            }
            emit_snapshot(&mut out, &self.vfs.snapshots[k]);
            proof {
                assert(out@ =~= mid + json_snapshots_upto(self.vfs.snapshots@, k as int + 1));
            }
            k = k + 1;
        }
        out.append("]}}");
        proof {
            reveal_strlit("]}}");
            assert(out@ =~= json_of_guide(*self));
        }
        out
    }
}

// ---------------------------------------------------------------------
// The pretty wire form: the same document with two-space indentation,
// as development builds of the tooling write it.
// ---------------------------------------------------------------------

/// `n` blanks.
pub open spec fn spaces(n: nat) -> Seq<char>
    decreases n,
{
    if n == 0 {
        Seq::empty()
    } else {
        spaces((n - 1) as nat).push(' ')
    }
}

/// A member separator at depth `ind`: either the opening newline or a
/// comma, then the indentation.
pub open spec fn member_sep(first: bool, ind: nat) -> Seq<char> {
    if first {
        seq!['\n'] + spaces(ind)
    } else {
        seq![','] + seq!['\n'] + spaces(ind)
    }
}

pub open spec fn pretty_dirs_upto(s: Seq<DirEntry>, n: int, ind: nat) -> Seq<char>
    decreases s, n,
{
    if 0 < n <= s.len() {
        pretty_dirs_upto(s, n - 1, ind) + member_sep(n == 1, ind + 2) + json_string(s[n - 1].name@)
            + ": "@ + pretty_dir(s[n - 1].dir, ind + 2)
    } else {
        Seq::empty()
    }
}

pub open spec fn pretty_files_upto(s: Seq<FileEntry>, n: int, ind: nat) -> Seq<char>
    decreases n,
{
    if 0 < n <= s.len() {
        pretty_files_upto(s, n - 1, ind) + member_sep(n == 1, ind + 2) + json_string(
            s[n - 1].name@,
        ) + ": "@ + dec_str(s[n - 1].index as nat)
    } else {
        Seq::empty()
    }
}

/// A directory object at indentation `ind`.
pub open spec fn pretty_dir(d: VfsDirectory, ind: nat) -> Seq<char>
    decreases d, d.directories@.len() + 1,
{
    let dirs = if d.directories@.len() == 0 {
        "{}"@
    } else {
        seq!['{'] + pretty_dirs_upto(d.directories@, d.directories@.len() as int, ind + 2) + seq![
            '\n',
        ] + spaces(ind + 2) + seq!['}']
    };
    let files = if d.files@.len() == 0 {
        "{}"@
    } else {
        seq!['{'] + pretty_files_upto(d.files@, d.files@.len() as int, ind + 2) + seq!['\n']
            + spaces(ind + 2) + seq!['}']
    };
    seq!['{'] + member_sep(true, ind + 2) + "\"directories\": "@ + dirs + member_sep(false, ind + 2)
        + "\"files\": "@ + files + seq!['\n'] + spaces(ind) + seq!['}']
}

/// A snapshot object at indentation `ind`.
pub open spec fn pretty_snapshot(s: VfsSnapshot, ind: nat) -> Seq<char> {
    seq!['{'] + member_sep(true, ind + 2) + "\"root\": "@ + pretty_dir(s.root.0, ind + 2)
        + member_sep(false, ind + 2) + "\"page\": "@ + json_string(s.page@) + seq!['\n'] + spaces(
        ind,
    ) + seq!['}']
}

pub open spec fn pretty_store_upto(store: Seq<Seq<char>>, n: int, ind: nat) -> Seq<char>
    decreases n,
{
    if 0 < n <= store.len() {
        pretty_store_upto(store, n - 1, ind) + member_sep(n == 1, ind + 2) + seq!['{'] + member_sep(
            true,
            ind + 4,
        ) + "\"content\": "@ + json_string(store[n - 1]) + seq!['\n'] + spaces(ind + 2) + seq!['}']
    } else {
        Seq::empty()
    }
}

pub open spec fn pretty_snapshots_upto(s: Seq<VfsSnapshot>, n: int, ind: nat) -> Seq<char>
    decreases s, n,
{
    if 0 < n <= s.len() {
        pretty_snapshots_upto(s, n - 1, ind) + member_sep(n == 1, ind + 2) + pretty_snapshot(
            s[n - 1],
            ind + 2,
        )
    } else {
        Seq::empty()
    }
}

/// The whole artifact, pretty-printed.
pub open spec fn pretty_json_of_guide(g: Guide) -> Seq<char> {
    let files = if g.vfs.files@.len() == 0 {
        "[]"@
    } else {
        seq!['['] + pretty_store_upto(g.vfs.files@, g.vfs.files@.len() as int, 4) + seq!['\n']
            + spaces(4) + seq![']']
    };
    let snaps = if g.vfs.snapshots@.len() == 0 {
        "[]"@
    } else {
        seq!['['] + pretty_snapshots_upto(g.vfs.snapshots@, g.vfs.snapshots@.len() as int, 4)
            + seq!['\n'] + spaces(4) + seq![']']
    };
    seq!['{'] + member_sep(true, 2) + "\"name\": "@ + json_string(g.name@) + member_sep(false, 2)
        + "\"vfs\": {"@ + member_sep(true, 4) + "\"files\": "@ + files + member_sep(false, 4)
        + "\"snapshots\": "@ + snaps + seq!['\n'] + spaces(2) + seq!['}'] + seq!['\n'] + seq!['}']
}

fn emit_spaces(out: &mut String, n: usize)
    ensures
        final(out)@ == old(out)@ + spaces(n as nat),
{
    let mut i: usize = 0;
    while i < n
        invariant
            i <= n,
            out@ == old(out)@ + spaces(i as nat),
        decreases n - i,
    {
        push_char(out, ' ');
        i = i + 1;
    }
}

fn emit_member_sep(out: &mut String, first: bool, ind: usize)
    ensures
        final(out)@ == old(out)@ + member_sep(first, ind as nat),
{
    if !first {
        push_char(out, ',');
    }
    push_char(out, '\n');
    emit_spaces(out, ind);
    proof {
        assert(final(out)@ =~= old(out)@ + member_sep(first, ind as nat));
    }
}

/// Writes the subdirectory map of one directory object; `ind` is the
/// indentation of the keys inside it minus two.
#[verifier::spinoff_prover]
fn emit_pretty_dirs_map(out: &mut String, entries: &Vec<DirEntry>, ind: usize)
    requires
        crate::walker::height_upto(entries@, entries@.len() as int) * 4 + ind + 16 <= usize::MAX,
    ensures
        final(out)@ == old(out)@ + (if entries@.len() == 0 {
            "{}"@
        } else {
            seq!['{'] + pretty_dirs_upto(entries@, entries@.len() as int, ind as nat) + seq!['\n']
                + spaces(ind as nat) + seq!['}']
        }),
    decreases *entries,
{
    if entries.len() == 0 {
        out.append("{}");
        proof {
            reveal_strlit("{}");
        }
        return;
    }
    push_char(out, '{');
    let ghost base = out@;
    let mut i: usize = 0;
    while i < entries.len()
        invariant
            i <= entries@.len(),
            crate::walker::height_upto(entries@, entries@.len() as int) * 4 + ind + 16
                <= usize::MAX,
            out@ == base + pretty_dirs_upto(entries@, i as int, ind as nat),
        decreases entries@.len() - i,
    {
        emit_member_sep(out, i == 0, ind + 2);
        emit_json_string(out, entries[i].name.as_str());
        out.append(": ");
        proof {
            reveal_strlit(": ");
            crate::walker::lemma_height_child(entries@, entries@.len() as int, i as int);
        }
        emit_pretty_dir(out, &entries[i].dir, ind + 2);
        proof {
            assert(out@ =~= base + pretty_dirs_upto(entries@, i as int + 1, ind as nat));
        }
        i = i + 1;
    }
    push_char(out, '\n');
    emit_spaces(out, ind);
    push_char(out, '}');
}

/// Writes the file map of one directory object, in the same layout.
#[verifier::spinoff_prover]
fn emit_pretty_files_map(out: &mut String, entries: &Vec<FileEntry>, ind: usize)
    requires
        ind + 2 <= usize::MAX,
    ensures
        final(out)@ == old(out)@ + (if entries@.len() == 0 {
            "{}"@
        } else {
            seq!['{'] + pretty_files_upto(entries@, entries@.len() as int, ind as nat) + seq![
                '\n',
            ] + spaces(ind as nat) + seq!['}']
        }),
{
    if entries.len() == 0 {
        out.append("{}");
        proof {
            reveal_strlit("{}");
        }
        return;
    }
    push_char(out, '{');
    let ghost base = out@;
    let mut j: usize = 0;
    while j < entries.len()
        invariant
            j <= entries@.len(),
            ind + 2 <= usize::MAX,
            out@ == base + pretty_files_upto(entries@, j as int, ind as nat),
        decreases entries@.len() - j,
    {
        emit_member_sep(out, j == 0, ind + 2);
        emit_json_string(out, entries[j].name.as_str());
        out.append(": ");
        proof {
            reveal_strlit(": ");
        }
        emit_usize(out, entries[j].index);
        proof {
            assert(out@ =~= base + pretty_files_upto(entries@, j as int + 1, ind as nat));
        }
        j = j + 1;
    }
    push_char(out, '\n');
    emit_spaces(out, ind);
    push_char(out, '}');
}

#[verifier::spinoff_prover]
fn emit_pretty_dir(out: &mut String, d: &VfsDirectory, ind: usize)
    requires
        crate::walker::dir_height(*d) * 4 + ind + 14 <= usize::MAX,
    ensures
        final(out)@ == old(out)@ + pretty_dir(*d, ind as nat),
    decreases *d,
{
    push_char(out, '{');
    emit_member_sep(out, true, ind + 2);
    out.append("\"directories\": ");
    proof {
        reveal_strlit("\"directories\": ");
    }
    emit_pretty_dirs_map(out, &d.directories, ind + 2);
    emit_member_sep(out, false, ind + 2);
    out.append("\"files\": ");
    proof {
        reveal_strlit("\"files\": ");
    }
    emit_pretty_files_map(out, &d.files, ind + 2);
    push_char(out, '\n');
    emit_spaces(out, ind);
    push_char(out, '}');
    proof {
        assert(final(out)@ =~= old(out)@ + pretty_dir(*d, ind as nat));
    }
}

impl Guide {
    /// Serialises the guide with two-space indentation, the form that
    /// development builds of the tooling write.  The shape is identical
    /// to [`Guide::to_json`]; only the blanks differ.
    #[verifier::rlimit(100)]
    #[verifier::spinoff_prover]
    pub fn to_json_pretty(&self) -> (r: String)
        requires
            forall|k: int|
                0 <= k < self.vfs.snapshots@.len() ==> crate::walker::dir_height(
                    (#[trigger] self.vfs.snapshots@[k]).root.0,
                ) * 4 + 24 <= usize::MAX,
        ensures
            r@ == pretty_json_of_guide(*self),
    {
        let mut out = String::new();
        push_char(&mut out, '{');
        emit_member_sep(&mut out, true, 2);
        out.append("\"name\": ");
        proof {
            reveal_strlit("\"name\": ");
            reveal_strlit("\"name\"");
            assert("\"name\": "@ =~= "\"name\""@ + ": "@) by {
                reveal_strlit(": ");
            }
        }
        emit_json_string(&mut out, self.name.as_str());
        emit_member_sep(&mut out, false, 2);
        out.append("\"vfs\": {");
        proof {
            reveal_strlit("\"vfs\": {");
            reveal_strlit("\"vfs\": ");
            assert("\"vfs\": {"@ =~= "\"vfs\": "@ + seq!['{']);
        }
        emit_member_sep(&mut out, true, 4);
        out.append("\"files\": ");
        proof {
            reveal_strlit("\"files\": ");
        }
        if self.vfs.files.len() == 0 {
            out.append("[]");
            proof {
                reveal_strlit("[]");
            }
        } else {
            push_char(&mut out, '[');
            let ghost base = out@;
            let n = self.vfs.files.len();
            let mut i: usize = 0;
            while i < n
                invariant
                    i <= n,
                    n == self.vfs.files@.len(),
                    out@ == base + pretty_store_upto(self.vfs.files@, i as int, 4),
                decreases n - i,
            {
                emit_member_sep(&mut out, i == 0, 6);
                push_char(&mut out, '{');
                emit_member_sep(&mut out, true, 8);
                out.append("\"content\": ");
                proof {
                    reveal_strlit("\"content\": ");
                    reveal_strlit("\"content\"");
                    assert("\"content\": "@ =~= "\"content\""@ + ": "@) by {
                        reveal_strlit(": ");
                    }
                }
                let content = match self.vfs.files.read_file(i) {
                    Option::Some(c) => c,
                    Option::None => String::new(),
                };
                emit_json_string(&mut out, content.as_str());
                push_char(&mut out, '\n');
                emit_spaces(&mut out, 6);
                push_char(&mut out, '}');
                proof {
                    assert(out@ =~= base + pretty_store_upto(self.vfs.files@, i as int + 1, 4));
                }
                i = i + 1;
            }
            push_char(&mut out, '\n');
            emit_spaces(&mut out, 4);
            push_char(&mut out, ']');
        }
        emit_member_sep(&mut out, false, 4);
        out.append("\"snapshots\": ");
        proof {
            reveal_strlit("\"snapshots\": ");
            reveal_strlit("\"snapshots\"");
            assert("\"snapshots\": "@ =~= "\"snapshots\""@ + ": "@) by {
                reveal_strlit(": ");
            }
        }
        if self.vfs.snapshots.len() == 0 {
            out.append("[]");
            proof {
                reveal_strlit("[]");
            }
        } else {
            push_char(&mut out, '[');
            let ghost base2 = out@;
            let m = self.vfs.snapshots.len();
            let mut k: usize = 0;
            while k < m
                invariant
                    k <= m,
                    m == self.vfs.snapshots@.len(),
                    forall|t: int|
                        0 <= t < m ==> crate::walker::dir_height(
                            (#[trigger] self.vfs.snapshots@[t]).root.0,
                        ) * 4 + 24 <= usize::MAX,
                    out@ == base2 + pretty_snapshots_upto(self.vfs.snapshots@, k as int, 4),
                decreases m - k,
            {
                emit_member_sep(&mut out, k == 0, 6);
                let snap = &self.vfs.snapshots[k];
                push_char(&mut out, '{');
                emit_member_sep(&mut out, true, 8);
                out.append("\"root\": ");
                proof {
                    reveal_strlit("\"root\": ");
                    reveal_strlit("\"root\"");
                    assert("\"root\": "@ =~= "\"root\""@ + ": "@) by {
                        reveal_strlit(": ");
                    }
                }
                emit_pretty_dir(&mut out, &snap.root.0, 8);
                emit_member_sep(&mut out, false, 8);
                out.append("\"page\": ");
                proof {
                    reveal_strlit("\"page\": ");
                    reveal_strlit("\"page\"");
                    assert("\"page\": "@ =~= "\"page\""@ + ": "@) by {
                        reveal_strlit(": ");
                    }
                }
                emit_json_string(&mut out, snap.page.as_str());
                push_char(&mut out, '\n');
                emit_spaces(&mut out, 6);
                push_char(&mut out, '}');
                proof {
                    assert(pretty_snapshot(self.vfs.snapshots@[k as int], 6) =~= seq!['{']
                        + member_sep(true, 8) + "\"root\": "@ + pretty_dir(
                        self.vfs.snapshots@[k as int].root.0,
                        8,
                    ) + member_sep(false, 8) + "\"page\": "@ + json_string(
                        self.vfs.snapshots@[k as int].page@,
                    ) + seq!['\n'] + spaces(6) + seq!['}']);
                    assert(out@ =~= base2 + pretty_snapshots_upto(
                        self.vfs.snapshots@,
                        k as int + 1,
                        4,
                    ));
                }
                k = k + 1;
            }
            push_char(&mut out, '\n');
            emit_spaces(&mut out, 4);
            push_char(&mut out, ']');
        }
        push_char(&mut out, '\n');
        emit_spaces(&mut out, 2);
        push_char(&mut out, '}');
        push_char(&mut out, '\n');
        push_char(&mut out, '}');
        proof {
            assert(out@ =~= pretty_json_of_guide(*self));
        }
        out
    }
}

// ---------------------------------------------------------------------
// The loader.  It accepts the wire form above, with arbitrary blanks
// between tokens, and insists on the canonical key order inside
// directory objects, which the serialiser always produces.  Whatever it
// accepts is a well-formed guide.
// ---------------------------------------------------------------------

/// Relies on char::from_u32: a character with the given scalar value
/// exactly when one exists, that is, unless the value is a surrogate or
/// lies beyond the last code point.
#[verifier::external_body]
fn char_from_u32(v: u32) -> (r: Option<char>)
    ensures
        match r {
            Option::Some(c) => c as u32 == v,
            Option::None => (0xD800 <= v && v < 0xE000) || v > 0x10FFFF,
        },
{
    char::from_u32(v)
}

fn str_to_chars(s: &str) -> (r: Vec<char>)
    ensures
        r@ == s@,
{
    let n: usize = s.unicode_len();
    let mut r: Vec<char> = Vec::new();
    let mut i: usize = 0;
    while i < n
        invariant
            i <= n,
            n == s@.len(),
            r@ =~= s@.subrange(0, i as int),
        decreases n - i,
    {
        r.push(s.get_char(i));
        proof {
            assert(r@ =~= s@.subrange(0, i as int + 1));
        }
        i = i + 1;
    }
    proof {
        assert(r@ =~= s@);
    }
    r
}

fn skip_ws(v: &Vec<char>, i: usize) -> (r: usize)
    requires
        i <= v@.len(),
    ensures
        i <= r <= v@.len(),
{
    let mut j = i;
    while j < v.len() && (v[j] == ' ' || v[j] == '\n' || v[j] == '\r' || v[j] == '\t')
        invariant
            i <= j <= v@.len(),
        decreases v@.len() - j,
    {
        j = j + 1;
    }
    j
}

/// Skips blanks, then demands the character `c`.
fn eat(v: &Vec<char>, i: usize, c: char) -> (r: Option<usize>)
    requires
        i <= v@.len(),
    ensures
        match r {
            Option::Some(j) => i < j <= v@.len(),
            Option::None => true,
        },
{
    let j = skip_ws(v, i);
    if j < v.len() && v[j] == c {
        Some(j + 1)
    } else {
        None
    }
}

fn hex_val(c: char) -> (r: Option<u32>)
    ensures
        match r {
            Option::Some(x) => x < 16,
            Option::None => true,
        },
{
    if '0' <= c && c <= '9' {
        Some(c as u32 - '0' as u32)
    } else if 'a' <= c && c <= 'f' {
        Some(c as u32 - 'a' as u32 + 10)
    } else if 'A' <= c && c <= 'F' {
        Some(c as u32 - 'A' as u32 + 10)
    } else {
        None
    }
}

/// Reads a JSON string literal starting at the opening quote.
fn parse_string(v: &Vec<char>, i: usize) -> (r: Option<(String, usize)>)
    requires
        i <= v@.len(),
    ensures
        match r {
            Option::Some((s, j)) => i < j <= v@.len(),
            Option::None => true,
        },
{
    let mut j = match eat(v, i, '"') {
        Option::Some(j) => j,
        Option::None => {
            return None;
        },
    };
    let mut out = String::new();
    loop
        invariant
            i < j <= v@.len(),
        ensures
            i < j <= v@.len(),
        decreases v@.len() - j,
    {
        if j >= v.len() {
            return None;
        }
        let c = v[j];
        if c == '"' {
            j = j + 1;
            break;
        }
        if c == '\\' {
            if j + 1 >= v.len() {
                return None;
            }
            let e = v[j + 1];
            if e == 'u' {
                if v.len() - j < 6 {
                    return None;
                }
                let h1 = match hex_val(v[j + 2]) {
                    Option::Some(x) => x,
                    Option::None => {
                        return None;
                    },
                };
                let h2 = match hex_val(v[j + 3]) {
                    Option::Some(x) => x,
                    Option::None => {
                        return None;
                    },
                };
                let h3 = match hex_val(v[j + 4]) {
                    Option::Some(x) => x,
                    Option::None => {
                        return None;
                    },
                };
                let h4 = match hex_val(v[j + 5]) {
                    Option::Some(x) => x,
                    Option::None => {
                        return None;
                    },
                };
                let code: u32 = h1 * 4096 + h2 * 256 + h3 * 16 + h4;
                match char_from_u32(code) {
                    Option::Some(decoded) => push_char(&mut out, decoded),
                    Option::None => {
                        return None;
                    },
                }
                j = j + 6;
            } else {
                let decoded: Option<char> = if e == '"' {
                    Some('"')
                } else if e == '\\' {
                    Some('\\')
                } else if e == '/' {
                    Some('/')
                } else if e == 'b' {
                    Some('\u{8}')
                } else if e == 'f' {
                    Some('\u{c}')
                } else if e == 'n' {
                    Some('\n')
                } else if e == 'r' {
                    Some('\r')
                } else if e == 't' {
                    Some('\t')
                } else {
                    None
                };
                match decoded {
                    Option::Some(unescaped) => push_char(&mut out, unescaped),
                    Option::None => {
                        return None;
                    },
                }
                j = j + 2;
            }
        } else {
            push_char(&mut out, c);
            j = j + 1;
        }
    }
    Some((out, j))
}

/// Reads a decimal number.
fn parse_usize(v: &Vec<char>, i: usize) -> (r: Option<(usize, usize)>)
    requires
        i <= v@.len(),
    ensures
        match r {
            Option::Some((x, j)) => i <= j <= v@.len(),
            Option::None => true,
        },
{
    let mut j = skip_ws(v, i);
    let start = j;
    let mut n: usize = 0;
    while j < v.len() && '0' <= v[j] && v[j] <= '9'
        invariant
            i <= j <= v@.len(),
        decreases v@.len() - j,
    {
        let d = (v[j] as u32 - '0' as u32) as usize;
        if n > (usize::MAX - d) / 10 {
            return None;
        }
        n = n * 10 + d;
        j = j + 1;
    }
    if j == start {
        return None;
    }
    Some((n, j))
}

/// Demands the literal key `key`, quoted, followed by a colon.
fn parse_key(v: &Vec<char>, i: usize, key: &str) -> (r: Option<usize>)
    requires
        i <= v@.len(),
    ensures
        match r {
            Option::Some(j) => i < j <= v@.len(),
            Option::None => true,
        },
{
    let (s, j) = match parse_string(v, i) {
        Option::Some(p) => p,
        Option::None => {
            return None;
        },
    };
    if !crate::text::str_eq(s.as_str(), key) {
        return None;
    }
    eat(v, j, ':')
}

/// Reads a directory object, demanding sorted member names; whatever
/// comes back is well-formed.
fn parse_dir(v: &Vec<char>, i: usize) -> (r: Option<(VfsDirectory, usize)>)
    requires
        i <= v@.len(),
    ensures
        match r {
            Option::Some((d, j)) => i < j <= v@.len() && dir_wf(d),
            Option::None => true,
        },
    decreases v@.len() - i,
{
    let mut j = match eat(v, i, '{') {
        Option::Some(j) => j,
        Option::None => {
            return None;
        },
    };
    j = match parse_key(v, j, "directories") {
        Option::Some(j) => j,
        Option::None => {
            return None;
        },
    };
    j = match eat(v, j, '{') {
        Option::Some(j) => j,
        Option::None => {
            return None;
        },
    };
    let mut directories: Vec<DirEntry> = Vec::new();
    let probe = skip_ws(v, j);
    if probe < v.len() && v[probe] == '}' {
        j = probe + 1;
    } else {
        loop
            invariant
                i < j <= v@.len(),
                strictly_sorted_entries(directories@),
                forall|k: int|
                    0 <= k < directories@.len() ==> crate::path::valid_component(
                        (#[trigger] directories@[k]).name@,
                    ) && dir_wf(directories@[k].dir),
            ensures
                i < j <= v@.len(),
                strictly_sorted_entries(directories@),
                forall|k: int|
                    0 <= k < directories@.len() ==> crate::path::valid_component(
                        (#[trigger] directories@[k]).name@,
                    ) && dir_wf(directories@[k].dir),
            decreases v@.len() - j,
        {
            let (name, j2) = match parse_string(v, j) {
                Option::Some(p) => p,
                Option::None => {
                    return None;
                },
            };
            if !crate::path::component_ok(&name) {
                return None;
            }
            if directories.len() > 0 {
                let last = &directories[directories.len() - 1].name;
                if !crate::text::string_lt(last, &name) {
                    return None;
                }
            }
            let j3 = match eat(v, j2, ':') {
                Option::Some(j3) => j3,
                Option::None => {
                    return None;
                },
            };
            let (sub, j4) = match parse_dir(v, j3) {
                Option::Some(p) => p,
                Option::None => {
                    return None;
                },
            };
            proof {
                lemma_entries_sorted_push(directories@, name@);
            }
            directories.push(DirEntry { name, dir: sub });
            let j5 = skip_ws(v, j4);
            if j5 < v.len() && v[j5] == ',' {
                j = j5 + 1;
            } else if j5 < v.len() && v[j5] == '}' {
                j = j5 + 1;
                break;
            } else {
                return None;
            }
        }
    }
    j = match eat(v, j, ',') {
        Option::Some(j) => j,
        Option::None => {
            return None;
        },
    };
    j = match parse_key(v, j, "files") {
        Option::Some(j) => j,
        Option::None => {
            return None;
        },
    };
    j = match eat(v, j, '{') {
        Option::Some(j) => j,
        Option::None => {
            return None;
        },
    };
    let mut files: Vec<FileEntry> = Vec::new();
    let probe2 = skip_ws(v, j);
    if probe2 < v.len() && v[probe2] == '}' {
        j = probe2 + 1;
    } else {
        loop
            invariant
                i < j <= v@.len(),
                strictly_sorted_file_entries(files@),
                forall|k: int|
                    0 <= k < files@.len() ==> crate::path::valid_component(
                        (#[trigger] files@[k]).name@,
                    ),
            ensures
                i < j <= v@.len(),
                strictly_sorted_file_entries(files@),
                forall|k: int|
                    0 <= k < files@.len() ==> crate::path::valid_component(
                        (#[trigger] files@[k]).name@,
                    ),
            decreases v@.len() - j,
        {
            let (name, j2) = match parse_string(v, j) {
                Option::Some(p) => p,
                Option::None => {
                    return None;
                },
            };
            if !crate::path::component_ok(&name) {
                return None;
            }
            if files.len() > 0 {
                let last = &files[files.len() - 1].name;
                if !crate::text::string_lt(last, &name) {
                    return None;
                }
            }
            let j3 = match eat(v, j2, ':') {
                Option::Some(j3) => j3,
                Option::None => {
                    return None;
                },
            };
            let (index, j4) = match parse_usize(v, j3) {
                Option::Some(p) => p,
                Option::None => {
                    return None;
                },
            };
            proof {
                lemma_file_entries_sorted_push(files@, name@);
            }
            files.push(FileEntry { name, index });
            let j5 = skip_ws(v, j4);
            if j5 < v.len() && v[j5] == ',' {
                j = j5 + 1;
            } else if j5 < v.len() && v[j5] == '}' {
                j = j5 + 1;
                break;
            } else {
                return None;
            }
        }
    }
    j = match eat(v, j, '}') {
        Option::Some(j) => j,
        Option::None => {
            return None;
        },
    };
    let d = VfsDirectory { directories, files };
    proof {
        assert(dir_wf(d));
    }
    Some((d, j))
}

/// Adjacent order over directory entries.
pub open spec fn strictly_sorted_entries(s: Seq<DirEntry>) -> bool {
    forall|p: int, q: int|
        0 <= p < q < s.len() ==> crate::text::str_lt((#[trigger] s[p]).name@, (#[trigger] s[q]).name@)
}

/// Adjacent order over file entries.
pub open spec fn strictly_sorted_file_entries(s: Seq<FileEntry>) -> bool {
    forall|p: int, q: int|
        0 <= p < q < s.len() ==> crate::text::str_lt((#[trigger] s[p]).name@, (#[trigger] s[q]).name@)
}

proof fn lemma_entries_sorted_push(s: Seq<DirEntry>, x: Seq<char>)
    requires
        strictly_sorted_entries(s),
        s.len() > 0 ==> crate::text::str_lt(s.last().name@, x),
    ensures
        forall|p: int|
            0 <= p < s.len() ==> crate::text::str_lt((#[trigger] s[p]).name@, x),
{
    assert forall|p: int| 0 <= p < s.len() implies crate::text::str_lt(
        (#[trigger] s[p]).name@,
        x,
    ) by {
        if p < s.len() - 1 {
            crate::text::lemma_str_lt_trans(s[p].name@, s.last().name@, x);
        }
    }
}

proof fn lemma_file_entries_sorted_push(s: Seq<FileEntry>, x: Seq<char>)
    requires
        strictly_sorted_file_entries(s),
        s.len() > 0 ==> crate::text::str_lt(s.last().name@, x),
    ensures
        forall|p: int|
            0 <= p < s.len() ==> crate::text::str_lt((#[trigger] s[p]).name@, x),
{
    assert forall|p: int| 0 <= p < s.len() implies crate::text::str_lt(
        (#[trigger] s[p]).name@,
        x,
    ) by {
        if p < s.len() - 1 {
            crate::text::lemma_str_lt_trans(s[p].name@, s.last().name@, x);
        }
    }
}

fn parse_snapshot(v: &Vec<char>, i: usize) -> (r: Option<(VfsSnapshot, usize)>)
    requires
        i <= v@.len(),
    ensures
        match r {
            Option::Some((s, j)) => i < j <= v@.len() && s.wf(),
            Option::None => true,
        },
{
    let mut j = match eat(v, i, '{') {
        Option::Some(j) => j,
        Option::None => {
            return None;
        },
    };
    j = match parse_key(v, j, "root") {
        Option::Some(j) => j,
        Option::None => {
            return None;
        },
    };
    let (root, j2) = match parse_dir(v, j) {
        Option::Some(p) => p,
        Option::None => {
            return None;
        },
    };
    j = match eat(v, j2, ',') {
        Option::Some(j) => j,
        Option::None => {
            return None;
        },
    };
    j = match parse_key(v, j, "page") {
        Option::Some(j) => j,
        Option::None => {
            return None;
        },
    };
    let (page, j3) = match parse_string(v, j) {
        Option::Some(p) => p,
        Option::None => {
            return None;
        },
    };
    j = match eat(v, j3, '}') {
        Option::Some(j) => j,
        Option::None => {
            return None;
        },
    };
    Some((VfsSnapshot { root: VfsRoot(root), page }, j))
}

impl Guide {
    /// Parses the wire form back into a guide and re-establishes the
    /// shared-store invariant.  The result is accepted only when
    /// re-serialising it reproduces the input, so a loaded guide is
    /// well-formed and is exactly the guide the document denotes: its
    /// own compact or pretty serialisation is the input.  Anything else
    /// loads as nothing.
    pub fn from_json(s: &str) -> (r: Option<Guide>)
        ensures
            match r {
                Option::Some(g) => g.wf() && (json_of_guide(g) == s@ || pretty_json_of_guide(g)
                    == s@),
                Option::None => true,
            },
    {
        let v = str_to_chars(s);
        let mut j = match eat(&v, 0, '{') {
            Option::Some(j) => j,
            Option::None => {
                return None;
            },
        };
        j = match parse_key(&v, j, "name") {
            Option::Some(j) => j,
            Option::None => {
                return None;
            },
        };
        let (name, j2) = match parse_string(&v, j) {
            Option::Some(p) => p,
            Option::None => {
                return None;
            },
        };
        j = match eat(&v, j2, ',') {
            Option::Some(j) => j,
            Option::None => {
                return None;
            },
        };
        j = match parse_key(&v, j, "vfs") {
            Option::Some(j) => j,
            Option::None => {
                return None;
            },
        };
        j = match eat(&v, j, '{') {
            Option::Some(j) => j,
            Option::None => {
                return None;
            },
        };
        j = match parse_key(&v, j, "files") {
            Option::Some(j) => j,
            Option::None => {
                return None;
            },
        };
        j = match eat(&v, j, '[') {
            Option::Some(j) => j,
            Option::None => {
                return None;
            },
        };
        let mut files = VfsFilesHandle::new();
        let probe = skip_ws(&v, j);
        if probe < v.len() && v[probe] == ']' {
            j = probe + 1;
        } else {
            loop
                invariant
                    j <= v@.len(),
                ensures
                    j <= v@.len(),
                decreases v@.len() - j,
            {
                let mut j2 = match eat(&v, j, '{') {
                    Option::Some(x) => x,
                    Option::None => {
                        return None;
                    },
                };
                j2 = match parse_key(&v, j2, "content") {
                    Option::Some(x) => x,
                    Option::None => {
                        return None;
                    },
                };
                let (content, j3) = match parse_string(&v, j2) {
                    Option::Some(p) => p,
                    Option::None => {
                        return None;
                    },
                };
                let j4 = match eat(&v, j3, '}') {
                    Option::Some(x) => x,
                    Option::None => {
                        return None;
                    },
                };
                let _index = files.add_file(VfsFile::new(content));
                let j5 = skip_ws(&v, j4);
                if j5 < v.len() && v[j5] == ',' {
                    j = j5 + 1;
                } else if j5 < v.len() && v[j5] == ']' {
                    j = j5 + 1;
                    break;
                } else {
                    return None;
                }
            }
        }
        j = match eat(&v, j, ',') {
            Option::Some(x) => x,
            Option::None => {
                return None;
            },
        };
        j = match parse_key(&v, j, "snapshots") {
            Option::Some(x) => x,
            Option::None => {
                return None;
            },
        };
        j = match eat(&v, j, '[') {
            Option::Some(x) => x,
            Option::None => {
                return None;
            },
        };
        let mut snapshots: Vec<VfsSnapshot> = Vec::new();
        let probe2 = skip_ws(&v, j);
        if probe2 < v.len() && v[probe2] == ']' {
            j = probe2 + 1;
        } else {
            loop
                invariant
                    j <= v@.len(),
                    forall|k: int| 0 <= k < snapshots@.len() ==> (#[trigger] snapshots@[k]).wf(),
                ensures
                    j <= v@.len(),
                    forall|k: int| 0 <= k < snapshots@.len() ==> (#[trigger] snapshots@[k]).wf(),
                decreases v@.len() - j,
            {
                let (snap, j2) = match parse_snapshot(&v, j) {
                    Option::Some(p) => p,
                    Option::None => {
                        return None;
                    },
                };
                snapshots.push(snap);
                let j3 = skip_ws(&v, j2);
                if j3 < v.len() && v[j3] == ',' {
                    j = j3 + 1;
                } else if j3 < v.len() && v[j3] == ']' {
                    j = j3 + 1;
                    break;
                } else {
                    return None;
                }
            }
        }
        j = match eat(&v, j, '}') {
            Option::Some(x) => x,
            Option::None => {
                return None;
            },
        };
        j = match eat(&v, j, '}') {
            Option::Some(x) => x,
            Option::None => {
                return None;
            },
        };
        let trailing = skip_ws(&v, j);
        if trailing != v.len() {
            return None;
        }
        let mut vfs = Vfs { files, snapshots };
        vfs.propagate_files();
        let candidate = Guide { name, vfs };
        let compact = candidate.to_json();
        if crate::text::str_eq(compact.as_str(), s) {
            return Some(candidate);
        }
        // the pretty printer's machine-limit bound must be established at
        // run time before it can re-serialise the candidate
        let mut k: usize = 0;
        while k < candidate.vfs.snapshots.len()
            invariant
                k <= candidate.vfs.snapshots@.len(),
                forall|t: int|
                    0 <= t < k ==> crate::walker::dir_height(
                        (#[trigger] candidate.vfs.snapshots@[t]).root.0,
                    ) * 4 + 24 <= usize::MAX,
            decreases candidate.vfs.snapshots@.len() - k,
        {
            if !crate::walker::height_below(&candidate.vfs.snapshots[k].root.0, 0x1000_0000) {
                return None;
            }
            k = k + 1;
        }
        let pretty = candidate.to_json_pretty();
        if crate::text::str_eq(pretty.as_str(), s) {
            return Some(candidate);
        }
        None
    }
}

} // verus!
