use codasai::{GuideError, HighlightedChunk, VfsPath};

#[test]
fn reads_a_well_formed_data_rel() {
    let chunk = HighlightedChunk::from_data_rel("src/main.rs:1..3", "diff-insert".to_string())
        .unwrap();
    assert_eq!(chunk.file, VfsPath::new("src/main.rs").unwrap());
    assert_eq!(chunk.line_start, 1);
    assert_eq!(chunk.line_end, 3);
    assert_eq!(chunk.class, "diff-insert");
}

#[test]
fn extra_fields_after_the_range_are_ignored() {
    let chunk = HighlightedChunk::from_data_rel("a.rs:2..5:junk", "c".to_string()).unwrap();
    assert_eq!(chunk.line_start, 2);
    assert_eq!(chunk.line_end, 5);
}

#[test]
fn rejects_malformed_data_rel() {
    let class = || "c".to_string();
    assert_eq!(
        HighlightedChunk::from_data_rel("no-colon-here", class()).unwrap_err(),
        GuideError::InvalidPath
    );
    assert_eq!(
        HighlightedChunk::from_data_rel("a.rs:norange", class()).unwrap_err(),
        GuideError::InvalidPath
    );
    assert_eq!(
        HighlightedChunk::from_data_rel("a.rs:x..3", class()).unwrap_err(),
        GuideError::InvalidPath
    );
    assert_eq!(
        HighlightedChunk::from_data_rel("a.rs:1..", class()).unwrap_err(),
        GuideError::InvalidPath
    );
    assert_eq!(
        HighlightedChunk::from_data_rel("../evil:1..2", class()).unwrap_err(),
        GuideError::InvalidPath
    );
}

#[test]
fn path_equality_is_component_wise() {
    assert_eq!(VfsPath::new("/a/b/").unwrap(), VfsPath::new("a/b").unwrap());
    assert_ne!(VfsPath::new("a/b").unwrap(), VfsPath::new("a/c").unwrap());
}
