use codasai::markdown_to_html;
use codasai::markdown::highlight_to_html;

#[test]
fn renders_a_plain_heading() {
    assert_eq!(markdown_to_html("# Introduction"), "<h1>Introduction</h1>\n");
}

#[test]
fn fenced_rust_block_is_highlighted_with_prefixed_classes() {
    let html = markdown_to_html("```rust\nfn main() {}\n```\n");
    assert!(html.contains("<span class=\"cbsh-"), "no classed span in {html}");
    assert!(html.contains("cbsh-source"), "no source scope class in {html}");
}

#[test]
fn highlighter_reports_exactly_prefixed_classes() {
    let (html, classes) = highlight_to_html("fn main() {}\n", "rust");
    assert!(!classes.is_empty());
    for class in &classes {
        assert!(class.starts_with("cbsh-"), "class {class} lacks the prefix");
        assert!(html.contains(class.trim_start_matches("cbsh-")), "class {class} unused");
    }
}

#[test]
fn unknown_language_falls_back_to_plain_text() {
    let html = markdown_to_html("```nosuchlanguage\nhello\n```\n");
    assert!(html.contains("hello"));
}

#[test]
fn script_tags_are_stripped() {
    let html = markdown_to_html("hi <script>alert(1)</script> there");
    assert!(!html.contains("<script"));
    assert!(!html.contains("alert(1)"));
}

#[test]
fn event_handler_attributes_never_appear() {
    let html = markdown_to_html("<img src=x onerror=alert(1)> and [a](javascript:alert(1))");
    assert!(!html.contains("onerror"));
    assert!(!html.contains("javascript:"));
}

#[test]
fn sanitisation_is_idempotent_on_script_capable_constructs() {
    let first = markdown_to_html("<img src=x onerror=alert(1)><script>boom()</script>");
    let second = markdown_to_html(&first);
    assert!(!second.contains("<script"));
    assert!(!second.contains("onerror"));
    assert!(!second.contains("javascript:"));
}

#[test]
fn data_rel_attribute_survives_sanitisation() {
    let html = markdown_to_html("<div data-rel=\"src/main.rs:1..3\">x</div>");
    assert!(html.contains("data-rel=\"src/main.rs:1..3\""), "data-rel lost in {html}");
}

#[test]
fn extended_markdown_is_enabled() {
    let tables = markdown_to_html("| a | b |\n|---|---|\n| 1 | 2 |\n");
    assert!(tables.contains("<table>"), "no table in {tables}");

    let strike = markdown_to_html("~~gone~~");
    assert!(strike.contains("<del>"), "no strikethrough in {strike}");

    // task-list checkboxes parse as inputs, which the sanitiser strips
    let tasks = markdown_to_html("- [x] done\n- [ ] open\n");
    assert!(tasks.contains("<li>") && !tasks.contains("[x]"), "no task list in {tasks}");

    let notes = markdown_to_html("here[^1]\n\n[^1]: the note\n");
    assert!(notes.contains("<sup>"), "no footnote reference in {notes}");
}

#[test]
fn empty_page_renders_empty() {
    assert_eq!(markdown_to_html(""), "");
}
