use codasai::{
    build_guide, DeltaStatus, FirstRevision, GuideError, NextRevision, RevDelta, RevTreeEntry,
    Vfs, VfsPath,
};

fn entry(path: &str, is_dir: bool, content: &str) -> RevTreeEntry {
    RevTreeEntry { path: path.to_string(), is_dir, content: content.as_bytes().to_vec() }
}

fn delta(
    status: DeltaStatus,
    old_path: &str,
    new_path: &str,
    old_is_dir: bool,
    new_is_dir: bool,
    new_content: &str,
) -> RevDelta {
    RevDelta {
        status,
        old_path: old_path.to_string(),
        new_path: new_path.to_string(),
        old_is_dir,
        new_is_dir,
        new_content: new_content.as_bytes().to_vec(),
    }
}

#[test]
fn build_simple_guide() {
    let first = FirstRevision { entries: vec![], page: b"# Introduction".to_vec() };
    let guide = build_guide("Simple guide".to_string(), "_pages/", Some(first), &vec![]).unwrap();

    assert_eq!(guide.name, "Simple guide");
    assert_eq!(guide.vfs.files.len(), 0);
    assert_eq!(guide.vfs.snapshots.len(), 1);
    assert_eq!(guide.vfs.snapshots[0].page, "<h1>Introduction</h1>\n");
    assert!(guide.vfs.snapshots[0].walk().next().is_none());
}

#[test]
fn empty_history_has_no_saved_page() {
    let r = build_guide("G".to_string(), "_pages/", None, &vec![]);
    assert_eq!(r.unwrap_err(), GuideError::NoSavedPage);
}

#[test]
fn reserved_prefixes_stay_out_of_snapshots() {
    let first = FirstRevision {
        entries: vec![
            entry(".codasai/guide.toml", false, "title = \"G\"\n"),
            entry("_pages/intro.md", false, "# Intro"),
            entry("src", true, ""),
            entry("src/main.rs", false, "fn main() {}"),
        ],
        page: b"# Intro".to_vec(),
    };
    let guide = build_guide("G".to_string(), "_pages/", Some(first), &vec![]).unwrap();

    let snap = &guide.vfs.snapshots[0];
    assert!(snap.read_file(&guide.vfs.files, &VfsPath::new("src/main.rs").unwrap()).is_some());
    assert!(snap.read_file(&guide.vfs.files, &VfsPath::new("_pages/intro.md").unwrap()).is_none());
    assert!(
        snap.read_file(&guide.vfs.files, &VfsPath::new(".codasai/guide.toml").unwrap()).is_none()
    );
}

#[test]
fn coalesced_noop_revision_does_not_extend_the_guide() {
    let first = FirstRevision {
        entries: vec![entry("src/main.rs", false, "fn main() {}")],
        page: b"# Intro".to_vec(),
    };
    let touches_rev_toml = NextRevision {
        deltas: vec![delta(
            DeltaStatus::Modified,
            ".codasai/rev.toml",
            ".codasai/rev.toml",
            false,
            false,
            "page_path = \"_pages/intro.md\"\n",
        )],
        page: b"# Intro".to_vec(),
    };
    let real_change = NextRevision {
        deltas: vec![delta(
            DeltaStatus::Added,
            "src/lib.rs",
            "src/lib.rs",
            false,
            false,
            "pub fn lib() {}",
        )],
        page: b"# Intro".to_vec(),
    };
    let guide = build_guide(
        "G".to_string(),
        "_pages/",
        Some(first),
        &vec![touches_rev_toml, real_change],
    )
    .unwrap();

    // first revision + the real change; the rev.toml-only revision coalesced
    assert_eq!(guide.vfs.snapshots.len(), 2);
}

#[test]
fn page_change_alone_keeps_the_revision() {
    let first = FirstRevision { entries: vec![], page: b"# One".to_vec() };
    let new_page = NextRevision { deltas: vec![], page: b"# Two".to_vec() };
    let guide =
        build_guide("G".to_string(), "_pages/", Some(first), &vec![new_page]).unwrap();
    assert_eq!(guide.vfs.snapshots.len(), 2);
    assert_eq!(guide.vfs.snapshots[1].page, "<h1>Two</h1>\n");
}

#[test]
fn modified_delta_allocates_a_new_store_index() {
    let first = FirstRevision {
        entries: vec![entry("a.txt", false, "one")],
        page: b"# P".to_vec(),
    };
    let edit = NextRevision {
        deltas: vec![delta(DeltaStatus::Modified, "a.txt", "a.txt", false, false, "two")],
        page: b"# P".to_vec(),
    };
    let guide = build_guide("G".to_string(), "_pages/", Some(first), &vec![edit]).unwrap();

    // the store grows monotonically even under a pure edit
    assert_eq!(guide.vfs.files.len(), 2);
    let p = VfsPath::new("a.txt").unwrap();
    assert_eq!(
        guide.vfs.snapshots[0].read_file(&guide.vfs.files, &p),
        Some("one".to_string())
    );
    assert_eq!(
        guide.vfs.snapshots[1].read_file(&guide.vfs.files, &p),
        Some("two".to_string())
    );
}

#[test]
fn cross_kind_rename_is_an_invariant_violation() {
    let first = FirstRevision {
        entries: vec![entry("a", true, "")],
        page: b"# P".to_vec(),
    };
    let bad = NextRevision {
        deltas: vec![delta(DeltaStatus::Renamed, "a", "b", true, false, "")],
        page: b"# P".to_vec(),
    };
    let r = build_guide("G".to_string(), "_pages/", Some(first), &vec![bad]);
    assert_eq!(r.unwrap_err(), GuideError::InvariantViolation);
}

#[test]
fn directory_modification_is_an_invariant_violation() {
    let first = FirstRevision {
        entries: vec![entry("a", true, "")],
        page: b"# P".to_vec(),
    };
    let bad = NextRevision {
        deltas: vec![delta(DeltaStatus::Modified, "a", "a", true, true, "")],
        page: b"# P".to_vec(),
    };
    let r = build_guide("G".to_string(), "_pages/", Some(first), &vec![bad]);
    assert_eq!(r.unwrap_err(), GuideError::InvariantViolation);
}

#[test]
fn invalid_delta_path_is_rejected() {
    let first = FirstRevision { entries: vec![], page: b"# P".to_vec() };
    let bad = NextRevision {
        deltas: vec![delta(DeltaStatus::Added, "../weird", "../weird", false, false, "x")],
        page: b"# P".to_vec(),
    };
    let r = build_guide("G".to_string(), "_pages/", Some(first), &vec![bad]);
    assert_eq!(r.unwrap_err(), GuideError::InvalidPath);
}

#[test]
fn invalid_page_bytes_are_an_encoding_error() {
    let first = FirstRevision { entries: vec![], page: vec![0xff, 0xfe, 0x00] };
    let r = build_guide("G".to_string(), "_pages/", Some(first), &vec![]);
    assert_eq!(r.unwrap_err(), GuideError::EncodingError);
}

#[test]
fn binary_blob_content_becomes_the_sentinel() {
    let first = FirstRevision {
        entries: vec![RevTreeEntry {
            path: "blob.bin".to_string(),
            is_dir: false,
            content: vec![0xff, 0xfe, 0x00, 0x9c],
        }],
        page: b"# P".to_vec(),
    };
    let guide = build_guide("G".to_string(), "_pages/", Some(first), &vec![]).unwrap();
    assert_eq!(
        guide.vfs.snapshots[0]
            .read_file(&guide.vfs.files, &VfsPath::new("blob.bin").unwrap()),
        Some("binary data".to_string())
    );
}

#[test]
fn snapshots_share_the_store_but_not_the_trees() {
    let mut vfs = Vfs::new();
    vfs.add_snapshot();
    let p = VfsPath::new("shared.txt").unwrap();
    let (files, snapshots) = (&mut vfs.files, &mut vfs.snapshots);
    snapshots[0].create_file(files, &p, "v1".to_string());
    vfs.add_snapshot();

    // mutating the new snapshot's tree leaves the first snapshot alone
    vfs.snapshots[1].delete_file(&p);
    assert!(vfs.snapshots[0].read_file(&vfs.files, &p).is_some());
    assert!(vfs.snapshots[1].read_file(&vfs.files, &p).is_none());

    // overwriting a store record is visible through every snapshot
    // whose tree still holds the index
    vfs.files.write_file(0, "v2".to_string());
    assert_eq!(vfs.snapshots[0].read_file(&vfs.files, &p), Some("v2".to_string()));
}
