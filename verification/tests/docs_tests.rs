use agent_editor::docs::{body_metrics, doc_version_hash, hash_matches, line_count, plan_doc_update, UpdatePlan};

#[test]
fn version_hash_is_scoped_to_the_document() {
    let h = doc_version_hash("doc1", "hello");
    assert_eq!(h, "doc1:ea8f163db38682925e4491c5e58d4bb3506ef8c14eb78a86e908c5624a67200f");
    let other = doc_version_hash("doc2", "hello");
    assert_ne!(h, other);
    assert!(other.ends_with(&h["doc1:".len()..]));
    assert_eq!(h.len(), "doc1".len() + 65);
}

#[test]
fn line_counts_follow_str_lines() {
    assert_eq!(line_count(""), 0);
    assert_eq!(line_count("a"), 1);
    assert_eq!(line_count("a\n"), 1);
    assert_eq!(line_count("a\r\nb\n\nc"), 4);
    assert_eq!(body_metrics("héllo\nworld"), (12, 2));
}

#[test]
fn hash_match_requires_a_current_version() {
    assert!(hash_matches(&Some("x:1".to_string()), "x:1"));
    assert!(!hash_matches(&Some("x:1".to_string()), "x:2"));
    assert!(!hash_matches(&None, "x:1"));
}

#[test]
fn same_body_twice_writes_one_version() {
    let first = plan_doc_update("d1", "body", &None);
    let hash = match first {
        UpdatePlan::NewVersion { hash, size_bytes, line_count } => {
            assert_eq!((size_bytes, line_count), (4, 1));
            hash
        }
        UpdatePlan::Unchanged => panic!("first update skipped"),
    };
    assert!(matches!(plan_doc_update("d1", "body", &Some(hash.clone())), UpdatePlan::Unchanged));
    assert!(matches!(plan_doc_update("d1", "other body", &Some(hash)), UpdatePlan::NewVersion { .. }));
}
