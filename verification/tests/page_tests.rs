use codasai::config::{default_pages_path, guide_toml_contents, rev_toml_contents};
use codasai::page::{new_page_heading, new_page_path};

#[test]
fn page_new_slugifies_the_title() {
    assert_eq!(
        new_page_path("Setting up the environment"),
        "_pages/setting-up-the-environment.md"
    );
}

#[test]
fn page_new_writes_the_heading() {
    assert_eq!(
        new_page_heading("Setting up the environment"),
        "# Setting up the environment\n\n\n"
    );
}

#[test]
fn rev_toml_points_at_the_new_page() {
    assert_eq!(
        rev_toml_contents("_pages/setting-up-the-environment.md"),
        "page_path = \"_pages/setting-up-the-environment.md\"\n"
    );
}

#[test]
fn guide_toml_carries_the_title() {
    assert_eq!(guide_toml_contents("Simple Guide"), "title = \"Simple Guide\"\n");
}

#[test]
fn pages_live_under_the_default_directory() {
    assert_eq!(default_pages_path(), "_pages/");
}
