use codasai::{VfsDirectoryOrFile, VfsFilesHandle, VfsPath, VfsRoot, VfsSnapshot, VfsWalker};

fn path(s: &str) -> VfsPath {
    VfsPath::new(s).expect("a valid path")
}

/// Drains a walker into (path, level, is_dir, name) rows.
fn rows_of(mut walker: VfsWalker) -> Vec<(String, usize, bool, String)> {
    let mut rows = Vec::new();
    while let Some(entry) = walker.next() {
        let (is_dir, name) = match entry.entry {
            VfsDirectoryOrFile::Directory(n) => (true, n),
            VfsDirectoryOrFile::File(n) => (false, n),
        };
        rows.push((entry.path.as_str(), entry.level, is_dir, name));
    }
    rows
}

fn root_rows(root: &VfsRoot) -> Vec<(String, usize, bool, String)> {
    rows_of(VfsWalker::new(&root.0))
}

#[test]
fn test_root_create_directory() {
    let mut root = VfsRoot::new();
    root.create_directory(&path("src/models/db"));

    assert_eq!(
        root_rows(&root),
        vec![
            ("src".to_string(), 1, true, "src".to_string()),
            ("src/models".to_string(), 2, true, "models".to_string()),
            ("src/models/db".to_string(), 3, true, "db".to_string()),
        ]
    );
}

#[test]
fn test_root_delete_directory() {
    let mut root = VfsRoot::new();

    let directory_path = path("src/models/db");
    root.create_directory(&directory_path);
    root.delete_directory(&directory_path);

    assert_eq!(
        root_rows(&root),
        vec![
            ("src".to_string(), 1, true, "src".to_string()),
            ("src/models".to_string(), 2, true, "models".to_string()),
        ]
    );
}

#[test]
fn test_root_rename_directory() {
    let mut root = VfsRoot::new();

    root.create_directory(&path("/src/math/f64"));
    root.rename_directory(&path("/src/math/"), &path("/src/mathematics"));
    root.rename_directory(&path("/src/mathematics/f64"), &path("/src/mathematics/floating64"));

    assert_eq!(
        root_rows(&root),
        vec![
            ("src".to_string(), 1, true, "src".to_string()),
            ("src/mathematics".to_string(), 2, true, "mathematics".to_string()),
            ("src/mathematics/floating64".to_string(), 3, true, "floating64".to_string()),
        ]
    );
}

#[test]
fn test_root_create_file() {
    let mut root = VfsRoot::new();

    let file_path = path("/docs/README.md");
    root.create_file(&file_path, 0);

    assert_eq!(
        root_rows(&root),
        vec![
            ("docs".to_string(), 1, true, "docs".to_string()),
            ("docs/README.md".to_string(), 2, false, "README.md".to_string()),
        ]
    );
    assert_eq!(root.find_file(&file_path), Some(0));
}

#[test]
fn test_root_delete_file() {
    let mut root = VfsRoot::new();

    let file_path = path("/docs/README.md");
    root.create_file(&file_path, 0);
    root.delete_file(&file_path);

    assert_eq!(
        root_rows(&root),
        vec![("docs".to_string(), 1, true, "docs".to_string())]
    );
    assert_eq!(root.find_file(&file_path), None);
}

#[test]
fn test_root_rename_file() {
    let mut root = VfsRoot::new();

    let old_file_path = path("/docs/README.md");
    let new_file_path = path("/dev/docs/SUMMARY.md");
    root.create_file(&old_file_path, 0);
    root.rename_file(&old_file_path, &new_file_path);

    assert_eq!(
        root_rows(&root),
        vec![
            ("dev".to_string(), 1, true, "dev".to_string()),
            ("dev/docs".to_string(), 2, true, "docs".to_string()),
            ("dev/docs/SUMMARY.md".to_string(), 3, false, "SUMMARY.md".to_string()),
            ("docs".to_string(), 1, true, "docs".to_string()),
        ]
    );
    assert_eq!(root.find_file(&new_file_path), Some(0));
    assert_eq!(root.find_file(&old_file_path), None);
}

#[test]
fn test_root_find_file() {
    let mut root = VfsRoot::new();

    let p = path("/home/BarryBenson/porn/vannessa/1.jpg");
    root.create_file(&p, 15);
    assert_eq!(root.find_file(&p), Some(15));
}

#[test]
fn test_create_file() {
    let mut files = VfsFilesHandle::new();
    let mut snapshot = VfsSnapshot::new();
    snapshot.create_file(
        &mut files,
        &path("/src/main.rs"),
        "fn main() {\n    println!(\"Hello, world\");".into(),
    );

    assert_eq!(
        rows_of(snapshot.walk()),
        vec![
            ("src".to_string(), 1, true, "src".to_string()),
            ("src/main.rs".to_string(), 2, false, "main.rs".to_string()),
        ]
    );
    assert_eq!(snapshot.page, String::new());
    assert_eq!(
        snapshot.read_file(&files, &path("/src/main.rs")),
        Some("fn main() {\n    println!(\"Hello, world\");".to_string())
    );
}

#[test]
fn test_write_read_file() {
    let mut files = VfsFilesHandle::new();
    let mut snapshot = VfsSnapshot::new();

    let p = path("/src/main.rs");
    snapshot.create_file(&mut files, &p, "fn main() {\n    println!(\"Hello, world\");".into());

    snapshot.write_file(&mut files, &p, "fn main() {}".into());

    assert_eq!(snapshot.read_file(&files, &p), Some("fn main() {}".into()));
}

#[test]
fn walker_orders_directories_before_files() {
    let mut root = VfsRoot::new();
    root.create_file(&path("alpha.txt"), 0);
    root.create_directory(&path("zeta"));
    root.create_directory(&path("beta"));
    root.create_file(&path("omega.txt"), 1);

    assert_eq!(
        root_rows(&root),
        vec![
            ("beta".to_string(), 1, true, "beta".to_string()),
            ("zeta".to_string(), 1, true, "zeta".to_string()),
            ("alpha.txt".to_string(), 1, false, "alpha.txt".to_string()),
            ("omega.txt".to_string(), 1, false, "omega.txt".to_string()),
        ]
    );
}

#[test]
fn rename_directory_there_and_back_is_identity() {
    let mut root = VfsRoot::new();
    root.create_directory(&path("src/old"));
    root.create_file(&path("src/old/a.rs"), 3);
    let before = root_rows(&root);

    root.rename_directory(&path("src/old"), &path("src/new"));
    root.rename_directory(&path("src/new"), &path("src/old"));

    assert_eq!(root_rows(&root), before);
    assert_eq!(root.find_file(&path("src/old/a.rs")), Some(3));
}

#[test]
fn rename_file_there_and_back_is_identity() {
    let mut root = VfsRoot::new();
    root.create_file(&path("docs/a.md"), 7);
    let before = root_rows(&root);

    root.rename_file(&path("docs/a.md"), &path("docs/b.md"));
    root.rename_file(&path("docs/b.md"), &path("docs/a.md"));

    assert_eq!(root_rows(&root), before);
    assert_eq!(root.find_file(&path("docs/a.md")), Some(7));
}

#[test]
fn deleting_missing_targets_is_harmless() {
    let mut root = VfsRoot::new();
    root.create_directory(&path("kept"));
    root.delete_directory(&path("absent"));
    root.delete_file(&path("kept/absent.txt"));
    root.rename_file(&path("ghost.txt"), &path("other.txt"));

    assert_eq!(
        root_rows(&root),
        vec![("kept".to_string(), 1, true, "kept".to_string())]
    );
}

#[test]
fn rename_onto_an_existing_target_overwrites_it() {
    let mut root = VfsRoot::new();
    root.create_file(&path("a.txt"), 0);
    root.create_file(&path("b.txt"), 1);
    root.rename_file(&path("a.txt"), &path("b.txt"));

    assert_eq!(root.find_file(&path("a.txt")), None);
    assert_eq!(root.find_file(&path("b.txt")), Some(0));
}

#[test]
fn deleting_a_directory_removes_its_subtree() {
    let mut root = VfsRoot::new();
    root.create_file(&path("src/deep/nested/mod.rs"), 4);
    root.delete_directory(&path("src/deep"));

    assert_eq!(root.find_file(&path("src/deep/nested/mod.rs")), None);
    assert_eq!(
        root_rows(&root),
        vec![("src".to_string(), 1, true, "src".to_string())]
    );
}

#[test]
fn unicode_names_walk_in_scalar_order() {
    let mut root = VfsRoot::new();
    root.create_file(&path("caf\u{e9}.txt"), 0);
    root.create_file(&path("cafz.txt"), 1);

    // 'z' (U+007A) sorts before '\u{e9}' (U+00E9)
    let rows = root_rows(&root);
    assert_eq!(rows[0].3, "cafz.txt");
    assert_eq!(rows[1].3, "caf\u{e9}.txt");
}

#[test]
fn walking_an_empty_snapshot_yields_nothing() {
    let snapshot = VfsSnapshot::new();
    assert!(snapshot.walk().next().is_none());
}

#[test]
fn a_fresh_snapshot_copies_the_tree_and_starts_with_an_empty_page() {
    let mut vfs = codasai::Vfs::new();
    vfs.add_snapshot();
    let p = path("kept.txt");
    vfs.snapshots[0].create_file(&mut vfs.files, &p, "v1".to_string());
    vfs.snapshots[0].set_page("<h1>One</h1>\n".to_string());

    vfs.add_snapshot();
    assert_eq!(vfs.snapshots[1].page, "");
    assert!(vfs.snapshots[1].read_file(&vfs.files, &p).is_some());
}

#[test]
fn rename_directory_across_parents_and_back_is_identity() {
    let mut root = VfsRoot::new();
    root.create_file(&path("src/old/a.rs"), 3);
    root.create_directory(&path("dst"));
    let before = root_rows(&root);

    root.rename_directory(&path("src/old"), &path("dst/moved"));
    assert_eq!(root.find_file(&path("dst/moved/a.rs")), Some(3));
    root.rename_directory(&path("dst/moved"), &path("src/old"));

    assert_eq!(root_rows(&root), before);
    assert_eq!(root.find_file(&path("src/old/a.rs")), Some(3));
}

#[test]
fn rename_file_across_parents_and_back_is_identity() {
    let mut root = VfsRoot::new();
    root.create_file(&path("docs/a.md"), 7);
    root.create_directory(&path("attic"));
    let before = root_rows(&root);

    root.rename_file(&path("docs/a.md"), &path("attic/a.md"));
    assert_eq!(root.find_file(&path("attic/a.md")), Some(7));
    root.rename_file(&path("attic/a.md"), &path("docs/a.md"));

    assert_eq!(root_rows(&root), before);
    assert_eq!(root.find_file(&path("docs/a.md")), Some(7));
}
