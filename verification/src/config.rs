//! The two small configuration records of a guide repository, and the
//! exact text the tooling writes into them.

use vstd::prelude::*;
use vstd::string::*;

verus! {

/// `.codasai/guide.toml`: the guide's title and where its pages live.
#[derive(Debug)]
pub struct GuideConfig {
    pub title: String,
    pub pages_path: String,
}

/// `.codasai/rev.toml`: the narrative page of the current revision.
#[derive(Debug)]
pub struct PageConfig {
    pub page_path: String,
}

/// Where pages live when the configuration does not say.
pub fn default_pages_path() -> (r: String)
    ensures
        r@ == "_pages/"@,
{
    "_pages/".to_owned()
}

/// The content written into a fresh `guide.toml`.
pub fn guide_toml_contents(title: &str) -> (r: String)
    ensures
        r@ == "title = \""@ + title@ + "\"\n"@,
{
    let mut s: String = "title = \"".to_owned();
    s.append(title);
    s.append("\"\n");
    s
}

/// The content written into `rev.toml` to point at `page_path`.
pub fn rev_toml_contents(page_path: &str) -> (r: String)
    ensures
        r@ == "page_path = \""@ + page_path@ + "\"\n"@,
{
    let mut s: String = "page_path = \"".to_owned();
    s.append(page_path);
    s.append("\"\n");
    s
}

} // verus!
