use agent_editor::scan::{
    debounce_skip, folder_slug, make_slug, make_slug_with, scan_doc_changed, ScanStats,
};

#[test]
fn test_make_slug() {
    let root = "/repo";
    let fp = "/repo/notes/Deep Topic.md";
    let slug = make_slug(root, fp);
    // relative path without extension, separators replaced with '__', spaces to '-'
    assert_eq!(slug, "notes__Deep-Topic");
}

#[test]
fn make_slug_outside_root_keeps_whole_path() {
    assert_eq!(make_slug("/other", "/repo/a b.md"), "__repo__a-b");
}

#[test]
fn folder_slug_takes_last_component() {
    assert_eq!(folder_slug(""), "");
    assert_eq!(folder_slug("notes/Deep Dive"), "Deep-Dive");
    assert_eq!(folder_slug("top"), "top");
}

#[test]
fn scan_stats_count_files_added_and_errors() {
    let mut s = ScanStats::new();
    s.record_file(&Ok(true));
    s.record_file(&Ok(false));
    s.record_file(&Err("boom".to_string()));
    s.record_walk_error();
    assert_eq!((s.files_scanned, s.docs_added, s.errors), (3, 1, 2));
}

#[test]
fn rescan_of_unchanged_content_changes_nothing() {
    let h = "doc1:abc".to_string();
    assert!(!scan_doc_changed(false, &Some(h.clone()), "doc1:abc"));
    assert!(scan_doc_changed(false, &Some(h), "doc1:def"));
    assert!(scan_doc_changed(false, &None, "doc1:abc"));
    assert!(scan_doc_changed(true, &Some("doc1:abc".to_string()), "doc1:abc"));
}

#[test]
fn debounce_skips_only_recent_events() {
    assert!(debounce_skip(Some(10), 200));
    assert!(!debounce_skip(Some(200), 200));
    assert!(!debounce_skip(None, 200));
}

#[test]
fn slugs_hold_no_separator_and_no_space() {
    let slug = make_slug("/repo", "/repo/a b/c d/e f.md");
    assert_eq!(slug, "a-b__c-d__e-f");
    assert!(!slug.contains('/') && !slug.contains(' '));
}

#[test]
fn slug_with_a_given_separator() {
    assert_eq!(make_slug_with("/repo", "/repo/notes/Deep Topic.md", '/'), "notes__Deep-Topic");
    // With '\\' as separator a '/' is an ordinary character of the name.
    assert_eq!(make_slug_with("/repo", "/repo/notes/Deep Topic.md", '\\'), "notes/Deep-Topic");
    assert_eq!(make_slug_with("/repo", "/repo/a\\b c.md", '\\'), "a__b-c");
}

#[test]
fn rescan_of_an_unchanged_tree_adds_nothing() {
    let files = [("doc1", "doc1:aaa"), ("doc2", "doc2:bbb"), ("doc3", "doc3:ccc")];
    let mut s = ScanStats::new();
    for (_, hash) in files.iter() {
        let changed = scan_doc_changed(false, &Some(hash.to_string()), hash);
        s.record_file(&Ok(changed));
    }
    assert_eq!((s.files_scanned, s.docs_added, s.errors), (3, 0, 0));
}
