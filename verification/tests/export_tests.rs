use agent_editor::export::{
    attach_attachments, attach_versions, attachment_export, export_docs_sql, infer_mime_from_filename,
    parse_doc_filename_keys, sanitize_slug_for_filename, DocAttachmentExport, DocExportRow,
    DocVersionExport,
};

fn row(id: &str) -> DocExportRow {
    DocExportRow {
        id: id.to_string(),
        repo_id: "r".to_string(),
        slug: format!("slug-{id}"),
        title: "T".to_string(),
        body: "B".to_string(),
        updated_at: "2024-01-01".to_string(),
        is_deleted: false,
        versions: None,
        attachments: None,
    }
}

#[test]
fn sanitized_slugs() {
    assert_eq!(sanitize_slug_for_filename("Hello World!"), "hello-world-");
    assert_eq!(sanitize_slug_for_filename(""), "doc");
    assert_eq!(sanitize_slug_for_filename("Ünïcode_OK-1"), "-n-code_ok-1");
    let long = "a".repeat(50);
    assert_eq!(sanitize_slug_for_filename(&long), "a".repeat(40));
}

#[test]
fn sanitizing_twice_changes_nothing() {
    for s in ["Deep Topic/Notes", "", "ABC_def-1?", "x".repeat(60).as_str()] {
        let once = sanitize_slug_for_filename(s);
        assert_eq!(sanitize_slug_for_filename(&once), once);
        assert!(!once.is_empty() && once.len() <= 40);
    }
}

#[test]
fn filename_keys_read_slug_and_uuid() {
    assert_eq!(
        parse_doc_filename_keys("note-123e4567-e89b-12d3-a456-426614174000"),
        (Some("123e4567-e89b-12d3-a456-426614174000".to_string()), Some("note".to_string()))
    );
    assert_eq!(
        parse_doc_filename_keys("my-note-550e8400-e29b-41d4-a716-446655440000"),
        (Some("550e8400-e29b-41d4-a716-446655440000".to_string()), Some("my-note".to_string()))
    );
    assert_eq!(
        parse_doc_filename_keys("-550e8400-e29b-41d4-a716-446655440000"),
        (Some("550e8400-e29b-41d4-a716-446655440000".to_string()), None)
    );
}

#[test]
fn filename_keys_without_uuid_give_the_stem() {
    let bad = "note-550e8400-e29b-41d4-a716-44665544000g";
    assert_eq!(parse_doc_filename_keys(bad), (None, Some(bad.to_string())));
    let bare = "550e8400-e29b-41d4-a716-446655440000";
    assert_eq!(parse_doc_filename_keys(bare), (None, Some(bare.to_string())));
    assert_eq!(parse_doc_filename_keys(""), (None, None));
    assert_eq!(parse_doc_filename_keys("plain"), (None, Some("plain".to_string())));
}

#[test]
fn mime_types_by_extension() {
    assert_eq!(infer_mime_from_filename("Photo.PNG"), "image/png");
    assert_eq!(infer_mime_from_filename("a.jpeg"), "image/jpeg");
    assert_eq!(infer_mime_from_filename("notes.md"), "text/markdown");
    assert_eq!(infer_mime_from_filename("data.json"), "application/json");
    assert_eq!(infer_mime_from_filename("archive.tar.gz"), "application/octet-stream");
    assert_eq!(infer_mime_from_filename("README"), "application/octet-stream");
}

#[test]
fn export_query_variants() {
    let base = "SELECT d.id, d.repo_id, d.slug, d.title, COALESCE(fts.body,'') as body, d.updated_at, d.is_deleted FROM doc d JOIN doc_fts fts ON fts.rowid = d.rowid WHERE 1=1";
    assert_eq!(export_docs_sql(true, false), format!("{base} ORDER BY d.updated_at DESC"));
    assert_eq!(
        export_docs_sql(false, true),
        format!("{base} AND d.is_deleted=0 AND d.repo_id=?1 ORDER BY d.updated_at DESC")
    );
}

#[test]
fn attachment_content_is_base64() {
    let a = attachment_export("d1".to_string(), "f.txt".to_string(), "text/plain".to_string(), "base64".to_string(), &b"hello".to_vec());
    assert_eq!(a.data_base64, "aGVsbG8=");
    let b = attachment_export("d1".to_string(), "e".to_string(), "m".to_string(), "base64".to_string(), &vec![]);
    assert_eq!(b.data_base64, "");
}

#[test]
fn versions_and_attachments_go_to_their_documents() {
    let docs = vec![row("a"), row("b")];
    let versions = vec![
        DocVersionExport { id: "v1".to_string(), doc_id: "a".to_string(), created_at: "t1".to_string(), hash: "h1".to_string(), message: None },
        DocVersionExport { id: "v2".to_string(), doc_id: "a".to_string(), created_at: "t2".to_string(), hash: "h2".to_string(), message: Some("m".to_string()) },
    ];
    let docs = attach_versions(docs, &versions);
    let vs = docs[0].versions.as_ref().unwrap();
    assert_eq!(vs.len(), 2);
    assert_eq!(vs[1].id, "v2");
    assert!(docs[1].versions.is_none());
    let atts = vec![DocAttachmentExport { doc_id: "b".to_string(), filename: "x.png".to_string(), mime: "image/png".to_string(), encoding: "base64".to_string(), data_base64: "AA==".to_string() }];
    let docs = attach_attachments(docs, &atts);
    assert!(docs[0].attachments.is_none());
    assert_eq!(docs[1].attachments.as_ref().unwrap()[0].filename, "x.png");
}
