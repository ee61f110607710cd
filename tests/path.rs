use splice_files::path::{determine_output_path, join_path, numbered_file_path, VersionScan};

#[test]
fn no_argument_goes_to_default_folder() {
    let t = determine_output_path(&None, false);
    assert_eq!(t.path, "spliced_folder/output.md");
    assert_eq!(t.dir_to_create, Some("spliced_folder".to_string()));
}

#[test]
fn directory_argument_gets_default_name() {
    let t = determine_output_path(&Some("out".to_string()), true);
    assert_eq!(t.path, "out/output.md");
    assert_eq!(t.dir_to_create, None);
    let t = determine_output_path(&Some("out/".to_string()), true);
    assert_eq!(t.path, "out/output.md");
}

#[test]
fn bare_name_goes_to_default_folder() {
    let t = determine_output_path(&Some("all.txt".to_string()), false);
    assert_eq!(t.path, "spliced_folder/all.txt");
    assert_eq!(t.dir_to_create, Some("spliced_folder".to_string()));
}

#[test]
fn full_path_is_kept() {
    let t = determine_output_path(&Some("docs/all.txt".to_string()), false);
    assert_eq!(t.path, "docs/all.txt");
    assert_eq!(t.dir_to_create, None);
}

#[test]
fn joining_paths() {
    assert_eq!(join_path("", "a.md"), "a.md");
    assert_eq!(join_path("d", "a.md"), "d/a.md");
    assert_eq!(join_path("d/", "a.md"), "d/a.md");
}

#[test]
fn versioned_names() {
    assert_eq!(numbered_file_path("spliced_folder/output.md", 1), "spliced_folder/output.md");
    assert_eq!(numbered_file_path("spliced_folder/output.md", 2), "spliced_folder/output-v2.md");
    assert_eq!(numbered_file_path("a/b/notes.txt", 10), "a/b/notes-v10.txt");
    assert_eq!(numbered_file_path("x.tar.gz", 3), "x.tar-v3.gz");
    assert_eq!(numbered_file_path("d/README", 1), "d/README.md");
    assert_eq!(numbered_file_path(".hidden", 2), ".hidden-v2.md");
    assert_eq!(numbered_file_path("d/", 1), "d/output.md");
    assert_eq!(numbered_file_path("f.md", 18446744073709551615), "f-v18446744073709551615.md");
}

#[test]
fn second_run_takes_next_version() {
    let existing = vec!["spliced_folder/output.md".to_string()];
    let mut scan = VersionScan::new("spliced_folder/output.md");
    let mut chosen = scan.candidate();
    while existing.contains(&chosen) {
        assert!(scan.advance());
        chosen = scan.candidate();
    }
    assert_eq!(chosen, "spliced_folder/output-v2.md");
}

#[test]
fn scan_does_not_reuse_gaps() {
    let existing = vec!["o/r.txt".to_string(), "o/r-v2.txt".to_string(), "o/r-v3.txt".to_string()];
    let mut scan = VersionScan::new("o/r.txt");
    let mut chosen = scan.candidate();
    while existing.contains(&chosen) {
        assert!(scan.advance());
        chosen = scan.candidate();
    }
    assert_eq!(chosen, "o/r-v4.txt");
}
