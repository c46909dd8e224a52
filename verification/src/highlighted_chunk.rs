//! The viewer's reading of a `data-rel` attribute: which file a
//! highlighted chunk belongs to and which lines it covers.
//!
//! The attribute's syntax is `$path:$line_start..$line_end`.

use vstd::prelude::*;
use vstd::string::*;

use crate::errors::GuideError;
use crate::path::{parse_path, VfsPath};
use crate::text::first_sep;

verus! {

/// One highlighted chunk: a file, a line range, and the diff class the
/// viewer styles it with.
#[derive(Debug)]
pub struct HighlightedChunk {
    pub file: VfsPath,
    pub line_start: usize,
    pub line_end: usize,
    pub class: String,
}

/// Index of the first `".."` in `s`, or `s.len()` when there is none.
pub open spec fn first_dotdot(s: Seq<char>) -> int
    decreases s.len(),
{
    if s.len() == 0 {
        0
    } else if s.len() >= 2 && s[0] == '.' && s[1] == '.' {
        0
    } else {
        1 + first_dotdot(s.drop_first())
    }
}

proof fn lemma_first_dotdot(s: Seq<char>)
    ensures
        0 <= first_dotdot(s) <= s.len(),
        first_dotdot(s) < s.len() ==> first_dotdot(s) + 2 <= s.len() && s[first_dotdot(s)] == '.'
            && s[first_dotdot(s) + 1] == '.',
        forall|j: int|
            0 <= j < first_dotdot(s) && j + 1 < s.len() ==> !(#[trigger] s[j] == '.' && s[j + 1]
                == '.'),
    decreases s.len(),
{
    if s.len() > 0 && !(s.len() >= 2 && s[0] == '.' && s[1] == '.') {
        lemma_first_dotdot(s.drop_first());
        assert forall|j: int|
            0 <= j < first_dotdot(s) && j + 1 < s.len() implies !(#[trigger] s[j] == '.' && s[j + 1]
            == '.') by {
            if j >= 1 {
                assert(s[j] == s.drop_first()[j - 1]);
                assert(s[j + 1] == s.drop_first()[j]);
            }
        }
        if first_dotdot(s) < s.len() {
            assert(s[first_dotdot(s)] == s.drop_first()[first_dotdot(s) - 1]);
            assert(s[first_dotdot(s) + 1] == s.drop_first()[first_dotdot(s)]);
        }
    }
}

/// The value of a digit string, most significant first.
pub open spec fn dec_val(s: Seq<char>) -> int
    decreases s.len(),
{
    if s.len() == 0 {
        0
    } else {
        10 * dec_val(s.drop_last()) + ((s.last() as u32) - ('0' as u32))
    }
}

pub open spec fn all_digits(s: Seq<char>) -> bool {
    forall|j: int| 0 <= j < s.len() ==> '0' <= #[trigger] s[j] && s[j] <= '9'
}

/// What a numeric field means: its value, when it is a non-empty digit
/// string whose value fits the machine.
pub open spec fn parse_dec(s: Seq<char>) -> Option<int> {
    if s.len() > 0 && all_digits(s) && dec_val(s) <= usize::MAX {
        Option::Some(dec_val(s))
    } else {
        Option::None
    }
}

proof fn lemma_dec_val_nonneg(s: Seq<char>)
    requires
        all_digits(s),
    ensures
        dec_val(s) >= 0,
    decreases s.len(),
{
    if s.len() > 0 {
        assert(forall|j: int|
            0 <= j < s.drop_last().len() ==> s.drop_last()[j] == #[trigger] s[j]);
        lemma_dec_val_nonneg(s.drop_last());
    }
}

/// A digit string's value only grows as it is read left to right.
proof fn lemma_dec_val_grows(s: Seq<char>, i: int, j: int)
    requires
        all_digits(s),
        0 <= i <= j <= s.len(),
    ensures
        dec_val(s.subrange(0, i)) <= dec_val(s.subrange(0, j)),
    decreases j - i,
{
    if i < j {
        lemma_dec_val_grows(s, i, j - 1);
        let p = s.subrange(0, j);
        assert(p.drop_last() =~= s.subrange(0, j - 1));
        assert(forall|k: int| 0 <= k < p.len() ==> p[k] == #[trigger] s[k]);
        assert(forall|k: int|
            0 <= k < s.subrange(0, j - 1).len() ==> #[trigger] s.subrange(0, j - 1)[k] == s[k]);
        lemma_dec_val_nonneg(s.subrange(0, j - 1));
    }
}

/// Reads a numeric field.
fn parse_number(s: &str) -> (r: Option<usize>)
    ensures
        match r {
            Option::Some(v) => parse_dec(s@) == Option::Some(v as int),
            Option::None => parse_dec(s@) is None,
        },
{
    let n: usize = s.unicode_len();
    if n == 0 {
        return None;
    }
    let mut acc: usize = 0;
    let mut i: usize = 0;
    while i < n
        invariant
            i <= n,
            n == s@.len(),
            all_digits(s@.subrange(0, i as int)),
            acc as int == dec_val(s@.subrange(0, i as int)),
        decreases n - i,
    {
        let c = s.get_char(i);
        if !('0' <= c && c <= '9') {
            proof {
                assert(!all_digits(s@));
            }
            return None;
        }
        let d: usize = ((c as u32) - ('0' as u32)) as usize;
        proof {
            assert(s@.subrange(0, i as int + 1).drop_last() =~= s@.subrange(0, i as int));
            assert(s@.subrange(0, i as int + 1).last() == s@[i as int]);
        }
        if acc > (usize::MAX - d) / 10 {
            proof {
                if all_digits(s@) {
                    assert(dec_val(s@.subrange(0, i as int + 1)) > usize::MAX);
                    lemma_dec_val_grows(s@, i as int + 1, n as int);
                    assert(s@.subrange(0, n as int) =~= s@);
                }
            }
            return None;
        }
        acc = acc * 10 + d;
        i = i + 1;
    }
    proof {
        assert(s@.subrange(0, n as int) =~= s@);
    }
    Some(acc)
}

/// What a `data-rel` attribute means: the file's components and the two
/// line numbers, when every field is well formed.
pub open spec fn parse_data_rel(attr: Seq<char>) -> Option<(Seq<Seq<char>>, int, int)> {
    let c = first_sep(attr, ':');
    if c == attr.len() {
        Option::None
    } else {
        let file_part = attr.subrange(0, c);
        let lines = attr.subrange(c + 1, attr.len() as int);
        let lines_field = lines.subrange(0, first_sep(lines, ':'));
        let d = first_dotdot(lines_field);
        if d == lines_field.len() {
            Option::None
        } else {
            let start_part = lines_field.subrange(0, d);
            let after = lines_field.subrange(d + 2, lines_field.len() as int);
            let end_part = after.subrange(0, first_dotdot(after));
            match (parse_path(file_part), parse_dec(start_part), parse_dec(end_part)) {
                (Option::Some(comps), Option::Some(lo), Option::Some(hi)) => Option::Some(
                    (comps, lo, hi),
                ),
                _ => Option::None,
            }
        }
    }
}

impl HighlightedChunk {
    /// Reads a chunk out of a `data-rel` attribute.
    pub fn from_data_rel(attr: &str, class: String) -> (r: Result<HighlightedChunk, GuideError>)
        ensures
            match r {
                Ok(chunk) => parse_data_rel(attr@) == Option::Some(
                    (chunk.file@, chunk.line_start as int, chunk.line_end as int),
                ) && chunk.file.wf() && chunk.class == class,
                Err(e) => parse_data_rel(attr@) is None && e == GuideError::InvalidPath,
            },
    {
        let n: usize = attr.unicode_len();
        let mut c: usize = 0;
        while c < n && attr.get_char(c) != ':'
            invariant
                c <= n,
                n == attr@.len(),
                forall|k: int| 0 <= k < c ==> attr@[k] != ':',
            decreases n - c,
        {
            c = c + 1;
        }
        proof {
            crate::text::lemma_first_sep(attr@, ':');
            if first_sep(attr@, ':') < c {
                assert(attr@[first_sep(attr@, ':')] == ':');
            }
            if c < first_sep(attr@, ':') {
                assert(attr@[c as int] != ':');
            }
            assert(first_sep(attr@, ':') == c as int);
        }
        if c == n {
            return Err(GuideError::InvalidPath);
        }
        let file_part: &str = attr.substring_char(0, c);
        let lines_all: &str = attr.substring_char(c + 1, n);
        let lines_field: &str = take_until_colon(lines_all);
        let ln: usize = lines_field.unicode_len();
        let d = find_dotdot(lines_field);
        if d == ln {
            return Err(GuideError::InvalidPath);
        }
        proof {
            lemma_first_dotdot(lines_field@);
        }
        let start_part: &str = lines_field.substring_char(0, d);
        let after: &str = lines_field.substring_char(d + 2, ln);
        let end_part: &str = take_until_dotdot(after);
        let file = match VfsPath::new(file_part) {
            Ok(p) => p,
            Err(e) => {
                return Err(e);
            },
        };
        let line_start = match parse_number(start_part) {
            Option::Some(v) => v,
            Option::None => {
                return Err(GuideError::InvalidPath);
            },
        };
        let line_end = match parse_number(end_part) {
            Option::Some(v) => v,
            Option::None => {
                return Err(GuideError::InvalidPath);
            },
        };
        Ok(HighlightedChunk { file, line_start, line_end, class })
    }
}

/// The prefix of `s` before its first `':'`.
fn take_until_colon(s: &str) -> (r: &str)
    ensures
        r@ == s@.subrange(0, first_sep(s@, ':')),
{
    let n: usize = s.unicode_len();
    let mut c: usize = 0;
    while c < n && s.get_char(c) != ':'
        invariant
            c <= n,
            n == s@.len(),
            forall|k: int| 0 <= k < c ==> s@[k] != ':',
        decreases n - c,
    {
        c = c + 1;
    }
    proof {
        crate::text::lemma_first_sep(s@, ':');
        if first_sep(s@, ':') < c {
            assert(s@[first_sep(s@, ':')] == ':');
        }
        if c < first_sep(s@, ':') {
            assert(s@[c as int] != ':');
        }
        assert(first_sep(s@, ':') == c as int);
    }
    s.substring_char(0, c)
}

/// Index of the first `".."` in `s`, or its length.
fn find_dotdot(s: &str) -> (r: usize)
    ensures
        r as int == first_dotdot(s@),
        r <= s@.len(),
{
    let n: usize = s.unicode_len();
    let mut c: usize = 0;
    while c < n && !(c + 1 < n && s.get_char(c) == '.' && s.get_char(c + 1) == '.')
        invariant
            c <= n,
            n == s@.len(),
            forall|k: int|
                0 <= k < c && k + 1 < n ==> !(#[trigger] s@[k] == '.' && s@[k + 1] == '.'),
        decreases n - c,
    {
        if c + 1 >= n {
            // no room left for a separator: skip to the end
            c = n;
        } else {
            c = c + 1;
        }
    }
    proof {
        lemma_first_dotdot(s@);
        let fd = first_dotdot(s@);
        if fd < c {
            assert(s@[fd] == '.' && s@[fd + 1] == '.');
        }
        if c < fd {
            assert(c + 1 < n);
            assert(!(s@[c as int] == '.' && s@[c as int + 1] == '.'));
        }
        assert(fd == c as int);
    }
    c
}

/// The prefix of `s` before its first `".."`.
fn take_until_dotdot(s: &str) -> (r: &str)
    ensures
        r@ == s@.subrange(0, first_dotdot(s@)),
{
    let d = find_dotdot(s);
    s.substring_char(0, d)
}

} // verus!
