use codasai::{build_guide, FirstRevision, Guide, RevTreeEntry, VfsPath};

fn sample_guide() -> Guide {
    let first = FirstRevision {
        entries: vec![
            RevTreeEntry {
                path: "src".to_string(),
                is_dir: true,
                content: vec![],
            },
            RevTreeEntry {
                path: "src/main.rs".to_string(),
                is_dir: false,
                content: b"fn main() {\n\t\"quoted\\path\"\n}".to_vec(),
            },
            RevTreeEntry {
                path: "README.md".to_string(),
                is_dir: false,
                content: b"# Sample".to_vec(),
            },
        ],
        page: b"# Page one".to_vec(),
    };
    build_guide("Sample \"Guide\"".to_string(), "_pages/", Some(first), &vec![]).unwrap()
}

#[test]
fn empty_guide_wire_form_is_exact() {
    let first = FirstRevision { entries: vec![], page: b"# Introduction".to_vec() };
    let guide = build_guide("Simple guide".to_string(), "_pages/", Some(first), &vec![]).unwrap();
    let expected = "{\"name\":\"Simple guide\",\"vfs\":{\"files\":[],\"snapshots\":[{\"root\":{\"directories\":{},\"files\":{}},\"page\":\"<h1>Introduction</h1>\\n\"}]}}";
    assert_eq!(guide.to_json(), expected);
}

#[test]
fn wire_form_sorts_directory_keys() {
    let json = sample_guide().to_json();
    let readme = json.find("\"README.md\"").unwrap();
    let src = json.find("\"src\"").unwrap();
    assert!(src < readme, "directories must come grouped before files: {json}");
}

#[test]
fn wire_form_agrees_with_a_general_json_reader() {
    let guide = sample_guide();
    let json = guide.to_json();
    let value: serde_json::Value = serde_json::from_str(&json).unwrap();
    assert_eq!(value["name"], "Sample \"Guide\"");
    assert_eq!(value["vfs"]["files"].as_array().unwrap().len(), 2);
    assert_eq!(value["vfs"]["snapshots"].as_array().unwrap().len(), 1);
    assert_eq!(
        value["vfs"]["snapshots"][0]["root"]["files"]["README.md"],
        serde_json::Value::from(1)
    );
    assert_eq!(value["vfs"]["snapshots"][0]["page"], "<h1>Page one</h1>\n");
}

#[test]
fn load_of_serialise_is_the_identity() {
    let guide = sample_guide();
    let reloaded = Guide::from_json(&guide.to_json()).unwrap();

    assert_eq!(reloaded.name, guide.name);
    assert_eq!(reloaded.vfs.snapshots.len(), guide.vfs.snapshots.len());
    assert_eq!(reloaded.vfs.files.len(), guide.vfs.files.len());
    for (a, b) in reloaded.vfs.snapshots.iter().zip(guide.vfs.snapshots.iter()) {
        assert!(a.equals(b));
    }
    let p = VfsPath::new("src/main.rs").unwrap();
    assert_eq!(
        reloaded.vfs.snapshots[0].read_file(&reloaded.vfs.files, &p),
        guide.vfs.snapshots[0].read_file(&guide.vfs.files, &p),
    );
}

#[test]
fn escapes_round_trip_through_the_wire_form() {
    let first = FirstRevision {
        entries: vec![RevTreeEntry {
            path: "odd.txt".to_string(),
            is_dir: false,
            content: "quote \" slash \\ newline \n tab \t bell \u{7} end".as_bytes().to_vec(),
        }],
        page: b"# P".to_vec(),
    };
    let guide = build_guide("G".to_string(), "_pages/", Some(first), &vec![]).unwrap();
    let reloaded = Guide::from_json(&guide.to_json()).unwrap();
    assert_eq!(
        reloaded.vfs.snapshots[0]
            .read_file(&reloaded.vfs.files, &VfsPath::new("odd.txt").unwrap()),
        Some("quote \" slash \\ newline \n tab \t bell \u{7} end".to_string())
    );
}

#[test]
fn pretty_form_holds_the_same_document() {
    let guide = sample_guide();
    let compact: serde_json::Value = serde_json::from_str(&guide.to_json()).unwrap();
    let pretty: serde_json::Value = serde_json::from_str(&guide.to_json_pretty()).unwrap();
    assert_eq!(compact, pretty);
    assert!(guide.to_json_pretty().contains("\n  \"vfs\": {"));
}

#[test]
fn pretty_form_loads_back() {
    let guide = sample_guide();
    let reloaded = Guide::from_json(&guide.to_json_pretty()).unwrap();
    assert_eq!(reloaded.name, guide.name);
    for (a, b) in reloaded.vfs.snapshots.iter().zip(guide.vfs.snapshots.iter()) {
        assert!(a.equals(b));
    }
}

#[test]
fn pretty_form_matches_the_reference_printer() {
    // a general JSON reader re-sorts object keys, so compare on a document
    // whose keys are already in sorted order at every level
    let guide = codasai::Guide::new("Plain".to_string(), codasai::Vfs::new());
    let value: serde_json::Value = serde_json::from_str(&guide.to_json()).unwrap();
    assert_eq!(guide.to_json_pretty(), serde_json::to_string_pretty(&value).unwrap());
}

#[test]
fn the_simple_guide_artifact_loads() {
    let artifact = "{\"name\":\"Simple guide\",\"vfs\":{\"files\":[],\"snapshots\":[{\"root\":{\"directories\":{},\"files\":{}},\"page\":\"<h1>Introduction</h1>\\n\"}]}}";
    let guide = Guide::from_json(artifact).unwrap();
    assert_eq!(guide.name, "Simple guide");
    assert_eq!(guide.vfs.files.len(), 0);
    assert_eq!(guide.vfs.snapshots.len(), 1);
    assert_eq!(guide.vfs.snapshots[0].page, "<h1>Introduction</h1>\n");
    assert!(guide.vfs.snapshots[0].walk().next().is_none());
    assert_eq!(guide.to_json(), artifact);
}

#[test]
fn non_canonical_documents_load_as_nothing() {
    // structurally fine, but neither the compact nor the pretty wire form
    let spaced = sample_guide().to_json().replace("{\"name\"", "{ \"name\"");
    assert!(Guide::from_json(&spaced).is_none());
}

#[test]
fn malformed_documents_load_as_nothing() {
    assert!(Guide::from_json("").is_none());
    assert!(Guide::from_json("{\"name\":\"x\"}").is_none());
    assert!(Guide::from_json("{\"name\":\"x\",\"vfs\":{\"files\":[],\"snapshots\":[]}} trailing")
        .is_none());
}
