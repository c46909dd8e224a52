//! The computations behind `page new`: where a page with a given title
//! lives, and what is first written into it.

use vstd::prelude::*;
use vstd::string::*;

verus! {

/// The slug of a title, as the slug crate computes it.
pub uninterp spec fn slug_of(s: Seq<char>) -> Seq<char>;

/// Relies on slug::slugify: the slug of `s`, made of lower-case ASCII
/// letters, digits and dashes only.
#[verifier::external_body]
fn slugify(s: &str) -> (r: String)
    ensures
        r@ == slug_of(s@),
        forall|i: int|
            0 <= i < r@.len() ==> (r@[i] == '-' || ('a' <= r@[i] && r@[i] <= 'z') || ('0' <= r@[i]
                && r@[i] <= '9')),
{
    slug::slugify(s)
}

/// The repository path of a new page titled `title`.
pub fn new_page_path(title: &str) -> (r: String)
    ensures
        r@ == "_pages/"@ + slug_of(title@) + ".md"@,
{
    let mut s: String = "_pages/".to_owned();
    let slugged = slugify(title);
    s.append(slugged.as_str());
    s.append(".md");
    s
}

/// The initial content of a new page: its heading and room to write.
pub fn new_page_heading(title: &str) -> (r: String)
    ensures
        r@ == "# "@ + title@ + "\n\n\n"@,
{
    let mut s: String = "# ".to_owned();
    s.append(title);
    s.append("\n\n\n");
    s
}

} // verus!
