use splice_files::collect::{collect_file_contents, file_matches, has_extension, is_markdown_output, render_separator, Entry};

fn file(name: &str, content: &str) -> Entry {
    Entry::File { name: name.to_string(), content: content.to_string() }
}

fn dir(entries: Vec<Entry>) -> Entry {
    Entry::Dir { entries }
}

fn names(v: &[&str]) -> Vec<String> {
    v.iter().map(|s| s.to_string()).collect()
}

#[test]
fn separator_substitutes_file_name() {
    assert_eq!(render_separator("## {filename}", "a.txt"), "## a.txt");
}

#[test]
fn separator_without_placeholder_is_literal() {
    assert_eq!(render_separator("-----", "a.txt"), "-----");
    assert_eq!(render_separator("-----", "b.txt"), "-----");
}

#[test]
fn separator_replaces_every_placeholder() {
    assert_eq!(render_separator("{filename}/{filename}", "x.rs"), "x.rs/x.rs");
    assert_eq!(render_separator("{filenam", "x.rs"), "{filenam");
    assert_eq!(render_separator("", "x.rs"), "");
}

#[test]
fn extension_rules() {
    assert!(has_extension("a.txt", "txt"));
    assert!(!has_extension("a.TXT", "txt"));
    assert!(!has_extension("txt", "txt"));
    assert!(!has_extension(".txt", "txt"));
    assert!(has_extension("a.b.txt", "txt"));
    assert!(!has_extension("a.txt.bak", "txt"));
}

#[test]
fn file_matching_uses_extension_and_exclusions() {
    let ex = names(&["skip.txt"]);
    assert!(file_matches(&"keep.txt".to_string(), "txt", &ex));
    assert!(!file_matches(&"skip.txt".to_string(), "txt", &ex));
    assert!(!file_matches(&"keep.rs".to_string(), "txt", &ex));
    assert!(file_matches(&"skip.txt".to_string(), "txt", &Vec::new()));
}

#[test]
fn markdown_output_detection() {
    assert!(is_markdown_output("output.md"));
    assert!(is_markdown_output("spliced_folder/output.md"));
    assert!(is_markdown_output("notes/x.md"));
    assert!(!is_markdown_output("notes/x.txt"));
    assert!(!is_markdown_output("md/x"));
    assert!(!is_markdown_output("notes.md/x"));
}

#[test]
fn markdown_output_wraps_in_fences() {
    let root = vec![file("a.txt", "hello")];
    let text = collect_file_contents(&root, "txt", "#### {filename}", "spliced_folder/output.md", &Vec::new());
    assert_eq!(text, "#### a.txt\n``` txt\nhello\n```\n");
}

#[test]
fn plain_output_has_no_fences() {
    let root = vec![file("a.txt", "hello")];
    let text = collect_file_contents(&root, "txt", "#### {filename}", "out/all.txt", &Vec::new());
    assert_eq!(text, "#### a.txt\nhello\n");
    assert!(!text.contains("```"));
}

#[test]
fn empty_root_gives_empty_text() {
    let text = collect_file_contents(&Vec::new(), "txt", "## {filename}", "out/all.md", &Vec::new());
    assert_eq!(text, "");
}

#[test]
fn no_matching_files_gives_empty_text() {
    let root = vec![file("a.rs", "fn main() {}"), dir(vec![]), dir(vec![file("b.md", "# b")])];
    let text = collect_file_contents(&root, "txt", "## {filename}", "out/all.md", &Vec::new());
    assert_eq!(text, "");
}

#[test]
fn excluded_file_leaves_no_trace() {
    let root = vec![file("skip.txt", "SKIPPED"), file("keep.txt", "KEPT")];
    let text = collect_file_contents(&root, "txt", "## {filename}", "out/all.txt", &names(&["skip.txt"]));
    assert_eq!(text, "## keep.txt\nKEPT\n");
    assert_eq!(text.matches("keep.txt").count(), 1);
    assert!(!text.contains("skip"));
    assert!(!text.contains("SKIPPED"));
}

#[test]
fn exclusion_applies_at_every_level() {
    let root = vec![dir(vec![file("skip.txt", "deep")]), file("skip.txt", "top")];
    let text = collect_file_contents(&root, "txt", "## {filename}", "out/all.txt", &names(&["skip.txt"]));
    assert_eq!(text, "");
}

#[test]
fn subdirectory_is_complete_before_next_sibling() {
    let root = vec![
        dir(vec![file("deep.txt", "DEEP"), file("other.rs", "x")]),
        file("top.txt", "TOP"),
    ];
    let text = collect_file_contents(&root, "txt", "## {filename}", "out/all.txt", &Vec::new());
    assert_eq!(text, "## deep.txt\nDEEP\n## top.txt\nTOP\n");
}

#[test]
fn listing_order_is_kept() {
    let root = vec![
        file("top.txt", "TOP"),
        dir(vec![dir(vec![file("z.txt", "Z")]), file("y.txt", "Y")]),
        file("a.txt", "A"),
    ];
    let text = collect_file_contents(&root, "txt", "[{filename}]", "output.md", &Vec::new());
    assert_eq!(
        text,
        "[top.txt]\n``` txt\nTOP\n```\n[z.txt]\n``` txt\nZ\n```\n[y.txt]\n``` txt\nY\n```\n[a.txt]\n``` txt\nA\n```\n"
    );
}

#[test]
fn every_selected_file_appears_once() {
    let root = vec![
        file("a.txt", "1"),
        dir(vec![file("b.txt", "2"), file("c.log", "3"), dir(vec![file("d.txt", "4")])]),
        file("e", "5"),
    ];
    let text = collect_file_contents(&root, "txt", "=={filename}==", "x.txt", &Vec::new());
    for n in ["a.txt", "b.txt", "d.txt"] {
        assert_eq!(text.matches(&format!("=={}==", n)).count(), 1);
    }
    assert!(!text.contains("c.log"));
    assert!(!text.contains("==e=="));
}
