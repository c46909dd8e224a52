use codasai::{GuideError, VfsPath};

#[test]
fn accepts_plain_relative_paths() {
    let p = VfsPath::new("src/models/db.rs").unwrap();
    assert_eq!(p.components().clone(), vec!["src", "models", "db.rs"]);
    assert_eq!(p.file_name(), "db.rs");
    assert_eq!(p.as_str(), "src/models/db.rs");
    assert_eq!(p.into_string(), "src/models/db.rs");
}

#[test]
fn discards_leading_and_trailing_separators() {
    let p = VfsPath::new("/src/math/").unwrap();
    assert_eq!(p.components().clone(), vec!["src", "math"]);
    assert_eq!(p.as_str(), "src/math");
}

#[test]
fn rejects_parent_references() {
    assert_eq!(VfsPath::new("a/../b").unwrap_err(), GuideError::InvalidPath);
    assert_eq!(VfsPath::new("..").unwrap_err(), GuideError::InvalidPath);
}

#[test]
fn rejects_current_directory_references() {
    assert_eq!(VfsPath::new("./a").unwrap_err(), GuideError::InvalidPath);
    assert_eq!(VfsPath::new("a/./b").unwrap_err(), GuideError::InvalidPath);
}

#[test]
fn rejects_empty_components() {
    assert_eq!(VfsPath::new("").unwrap_err(), GuideError::InvalidPath);
    assert_eq!(VfsPath::new("/").unwrap_err(), GuideError::InvalidPath);
    assert_eq!(VfsPath::new("a//b").unwrap_err(), GuideError::InvalidPath);
}

#[test]
fn parent_and_file_name_partition_the_components() {
    let p = VfsPath::new("a/b/c").unwrap();
    let parent = p.parent();
    assert_eq!(parent.components().clone(), vec!["a", "b"]);
    assert_eq!(p.file_name(), "c");

    let mut rebuilt = parent.components().clone();
    rebuilt.push(p.file_name().to_string());
    assert_eq!(rebuilt, p.components().clone());
}
