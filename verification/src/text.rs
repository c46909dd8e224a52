//! Character-sequence utilities shared by the whole crate: lexicographic
//! ordering of names, and splitting / joining around a separator character.

use vstd::prelude::*;
use vstd::string::*;

verus! {

/// Strict lexicographic order on character sequences, comparing scalar
/// values position by position; a proper prefix sorts before its extensions.
pub open spec fn str_lt(a: Seq<char>, b: Seq<char>) -> bool
    decreases a.len(),
{
    if b.len() == 0 {
        false
    } else if a.len() == 0 {
        true
    } else if a[0] < b[0] {
        true
    } else if a[0] == b[0] {
        str_lt(a.drop_first(), b.drop_first())
    } else {
        false
    }
}

pub proof fn lemma_str_lt_irrefl(a: Seq<char>)
    ensures
        !str_lt(a, a),
    decreases a.len(),
{
    if a.len() > 0 {
        lemma_str_lt_irrefl(a.drop_first());
    }
}

pub proof fn lemma_str_lt_trans(a: Seq<char>, b: Seq<char>, c: Seq<char>)
    requires
        str_lt(a, b),
        str_lt(b, c),
    ensures
        str_lt(a, c),
    decreases a.len(),
{
    if a.len() > 0 && b.len() > 0 && c.len() > 0 {
        if a[0] == b[0] && b[0] == c[0] {
            lemma_str_lt_trans(a.drop_first(), b.drop_first(), c.drop_first());
        }
    }
}

pub proof fn lemma_str_lt_connex(a: Seq<char>, b: Seq<char>)
    ensures
        str_lt(a, b) || str_lt(b, a) || a == b,
    decreases a.len(),
{
    if a.len() == 0 && b.len() == 0 {
        assert(a =~= b);
    }
    if a.len() > 0 && b.len() > 0 {
        if a[0] == b[0] {
            lemma_str_lt_connex(a.drop_first(), b.drop_first());
            if a.drop_first() == b.drop_first() {
                assert(a.drop_first().len() == a.len() - 1);
                assert(b.drop_first().len() == b.len() - 1);
                assert(a.len() == b.len());
                assert forall|i: int| 0 <= i < a.len() implies a[i] == b[i] by {
                    if i >= 1 {
                        assert(a[i] == a.drop_first()[i - 1]);
                        assert(b[i] == b.drop_first()[i - 1]);
                    }
                }
                assert(a =~= b);
            }
        } else {
            if a[0] < b[0] {
                assert(str_lt(a, b));
            } else {
                assert(b[0] < a[0]);
                assert(str_lt(b, a));
            }
        }
    }
}

pub proof fn lemma_str_lt_asym(a: Seq<char>, b: Seq<char>)
    requires
        str_lt(a, b),
    ensures
        !str_lt(b, a),
{
    if str_lt(b, a) {
        lemma_str_lt_trans(a, b, a);
        lemma_str_lt_irrefl(a);
    }
}

/// Bridge between the recursive definition of `str_lt` and an index-wise
/// scan: if the first `i` characters agree, the comparison is decided by
/// what follows position `i`.
pub proof fn lemma_str_lt_index(a: Seq<char>, b: Seq<char>, i: int)
    requires
        0 <= i <= a.len(),
        i <= b.len(),
        forall|j: int| 0 <= j < i ==> a[j] == b[j],
    ensures
        i == a.len() && i < b.len() ==> str_lt(a, b),
        i == b.len() ==> !str_lt(a, b),
        i < a.len() && i < b.len() && a[i] < b[i] ==> str_lt(a, b),
        i < a.len() && i < b.len() && b[i] < a[i] ==> !str_lt(a, b),
    decreases i,
{
    if i == 0 {
    } else {
        assert(a[0] == b[0]);
        assert(forall|j: int|
            0 <= j < i - 1 ==> a.drop_first()[j] == #[trigger] b.drop_first()[j]);
        lemma_str_lt_index(a.drop_first(), b.drop_first(), i - 1);
    }
}

/// Decides `str_lt` on two strings.
pub fn string_lt(a: &String, b: &String) -> (r: bool)
    ensures
        r == str_lt(a@, b@),
{
    let a_len: usize = a.as_str().unicode_len();
    let b_len: usize = b.as_str().unicode_len();
    let mut i: usize = 0;
    loop
        invariant
            i <= a_len,
            i <= b_len,
            a_len == a@.len(),
            b_len == b@.len(),
            forall|j: int| 0 <= j < i ==> a@[j] == b@[j],
        ensures
            i <= a_len,
            i <= b_len,
            i >= a_len || i >= b_len,
            forall|j: int| 0 <= j < i ==> a@[j] == b@[j],
        decreases a_len - i,
    {
        if i >= a_len || i >= b_len {
            break;
        }
        let ca = a.as_str().get_char(i);
        let cb = b.as_str().get_char(i);
        if ca != cb {
            proof {
                lemma_str_lt_index(a@, b@, i as int);
            }
            return ca < cb;
        }
        i = i + 1;
    }
    proof {
        lemma_str_lt_index(a@, b@, i as int);
    }
    a_len < b_len
}

/// Index of the first occurrence of `sep` in `s`, or `s.len()` if absent.
pub open spec fn first_sep(s: Seq<char>, sep: char) -> int
    decreases s.len(),
{
    if s.len() == 0 {
        0
    } else if s[0] == sep {
        0
    } else {
        1 + first_sep(s.drop_first(), sep)
    }
}

pub proof fn lemma_first_sep(s: Seq<char>, sep: char)
    ensures
        0 <= first_sep(s, sep) <= s.len(),
        forall|j: int| 0 <= j < first_sep(s, sep) ==> s[j] != sep,
        first_sep(s, sep) < s.len() ==> s[first_sep(s, sep)] == sep,
    decreases s.len(),
{
    if s.len() > 0 && s[0] != sep {
        lemma_first_sep(s.drop_first(), sep);
        assert forall|j: int| 0 <= j < first_sep(s, sep) implies s[j] != sep by {
            if j >= 1 {
                assert(s[j] == s.drop_first()[j - 1]);
            }
        }
        if first_sep(s, sep) < s.len() {
            assert(s[first_sep(s, sep)] == s.drop_first()[first_sep(s, sep) - 1]);
        }
    }
}

/// Splits `s` around `sep`.  The result always has at least one element;
/// splitting the empty sequence yields one empty component.
pub open spec fn split_seq(s: Seq<char>, sep: char) -> Seq<Seq<char>>
    decreases s.len(),
{
    let i = first_sep(s, sep);
    if 0 <= i < s.len() {
        seq![s.subrange(0, i)] + split_seq(s.subrange(i + 1, s.len() as int), sep)
    } else {
        seq![s]
    }
}

pub proof fn lemma_split_seq_props(s: Seq<char>, sep: char)
    ensures
        split_seq(s, sep).len() >= 1,
        forall|k: int, j: int|
            0 <= k < split_seq(s, sep).len() && 0 <= j < split_seq(s, sep)[k].len()
                ==> split_seq(s, sep)[k][j] != sep,
    decreases s.len(),
{
    lemma_first_sep(s, sep);
    let i = first_sep(s, sep);
    if i < s.len() {
        lemma_split_seq_props(s.subrange(i + 1, s.len() as int), sep);
    }
}

/// Joins `parts` with `sep` between consecutive elements.
pub open spec fn join_seq(parts: Seq<Seq<char>>, sep: char) -> Seq<char>
    decreases parts.len(),
{
    if parts.len() == 0 {
        Seq::empty()
    } else if parts.len() == 1 {
        parts[0]
    } else {
        parts[0] + seq![sep] + join_seq(parts.drop_first(), sep)
    }
}

pub proof fn lemma_join_seq_push(parts: Seq<Seq<char>>, sep: char, last: Seq<char>)
    requires
        parts.len() >= 1,
    ensures
        join_seq(parts.push(last), sep) == join_seq(parts, sep) + seq![sep] + last,
    decreases parts.len(),
{
    assert(parts.push(last)[0] == parts[0]);
    if parts.len() == 1 {
        assert(parts.push(last).drop_first() =~= seq![last]);
        assert(join_seq(seq![last], sep) == last);
        assert(join_seq(parts.push(last), sep) =~= parts[0] + seq![sep] + last);
        assert(join_seq(parts, sep) + seq![sep] + last =~= parts[0] + seq![sep] + last);
    } else {
        lemma_join_seq_push(parts.drop_first(), sep, last);
        assert(parts.push(last).drop_first() =~= parts.drop_first().push(last));
        assert(join_seq(parts.push(last), sep) =~= parts[0] + seq![sep] + join_seq(
            parts.drop_first().push(last),
            sep,
        ));
        assert(join_seq(parts, sep) + seq![sep] + last =~= parts[0] + seq![sep] + (join_seq(
            parts.drop_first(),
            sep,
        ) + seq![sep] + last));
    }
}

/// Relies on String::push: appends one character.
#[verifier::external_body]
pub(crate) fn push_char(s: &mut String, c: char)
    ensures
        final(s)@ == old(s)@.push(c),
{
    s.push(c);
}

/// Decides view equality of two strings.
pub fn str_eq(a: &str, b: &str) -> (r: bool)
    ensures
        r == (a@ == b@),
{
    let a_len: usize = a.unicode_len();
    let b_len: usize = b.unicode_len();
    if a_len != b_len {
        return false;
    }
    let mut i: usize = 0;
    while i < a_len
        invariant
            i <= a_len,
            a_len == a@.len(),
            a_len == b@.len(),
            forall|j: int| 0 <= j < i ==> a@[j] == b@[j],
        decreases a_len - i,
    {
        if a.get_char(i) != b.get_char(i) {
            return false;
        }
        i = i + 1;
    }
    proof {
        assert(a@ =~= b@);
    }
    true
}

/// The view of the strings in `v`.
pub open spec fn views_of(v: Seq<String>) -> Seq<Seq<char>> {
    v.map_values(|s: String| s@)
}

/// Joins the strings in `parts` with a single `'/'` between them.
pub fn join_with(parts: &Vec<String>) -> (r: String)
    ensures
        r@ == join_seq(views_of(parts@), '/'),
{
    let mut r = String::new();
    let mut i: usize = 0;
    while i < parts.len()
        invariant
            i <= parts.len(),
            r@ == join_seq(views_of(parts@).subrange(0, i as int), '/'),
        decreases parts.len() - i,
    {
        if i > 0 {
            r.append("/");
            proof {
                reveal_strlit("/");
            }
        }
        r.append(parts[i].as_str());
        proof {
            let pv = views_of(parts@);
            let upto = pv.subrange(0, i as int);
            if i > 0 {
                lemma_join_seq_push(upto, '/', pv[i as int]);
                assert(upto.push(pv[i as int]) =~= pv.subrange(0, i as int + 1));
            } else {
                assert(pv.subrange(0, 1) =~= seq![pv[0]]);
            }
        }
        i = i + 1;
    }
    proof {
        assert(views_of(parts@).subrange(0, parts@.len() as int) =~= views_of(parts@));
    }
    r
}

/// Splits `s` around `sep`, the executable counterpart of `split_seq`.
pub fn split_str(s: &str, sep: char) -> (r: Vec<String>)
    ensures
        views_of(r@) == split_seq(s@, sep),
{
    let len: usize = s.unicode_len();
    let mut r: Vec<String> = Vec::new();
    let mut start: usize = 0;
    proof {
        assert(s@.subrange(0, len as int) =~= s@);
    }
    loop
        invariant_except_break
            split_seq(s@, sep) =~= views_of(r@) + split_seq(
                s@.subrange(start as int, len as int),
                sep,
            ),
        invariant
            start <= len,
            len == s@.len(),
        ensures
            views_of(r@) =~= split_seq(s@, sep),
        decreases len - start,
    {
        let ghost rest = s@.subrange(start as int, len as int);
        let mut j: usize = start;
        while j < len && s.get_char(j) != sep
            invariant
                start <= j <= len,
                len == s@.len(),
                forall|k: int| start <= k < j ==> s@[k] != sep,
            decreases len - j,
        {
            j = j + 1;
        }
        proof {
            lemma_first_sep(rest, sep);
            let fs = first_sep(rest, sep);
            // the scan and `first_sep` agree: both name the first hit
            assert(forall|k: int| 0 <= k < j - start ==> rest[k] != sep);
            if fs < j - start {
                assert(rest[fs] == sep);
            }
            if j - start < fs {
                assert(j < len);
                assert(rest[j - start] != sep);
            }
            assert(fs == j - start);
            assert(rest.subrange(0, fs) =~= s@.subrange(start as int, j as int));
        }
        let piece: String = s.substring_char(start, j).to_owned();
        proof {
            assert(views_of(r@.push(piece)) =~= views_of(r@).push(piece@));
        }
        r.push(piece);
        if j < len {
            proof {
                let fs = first_sep(rest, sep);
                assert(rest.subrange(fs + 1, rest.len() as int) =~= s@.subrange(
                    j as int + 1,
                    len as int,
                ));
            }
            start = j + 1;
        } else {
            proof {
                assert(first_sep(rest, sep) == rest.len());
                assert(split_seq(rest, sep) =~= seq![rest]);
            }
            break;
        }
    }
    r
}

} // verus!
