use agent_editor::archive::{
    archive_body, assemble_archive_docs, classify_archive_entry, docs_from_archive_parts, pending_attachment, ArchiveBody,
    ArchiveEntry, VersionBundle,
};
use agent_editor::import::{DocImportRow, DocVersionImport};

fn doc(id: Option<&str>, slug: &str, body: Option<&str>) -> DocImportRow {
    DocImportRow {
        id: id.map(|s| s.to_string()),
        repo_id: None,
        slug: slug.to_string(),
        title: None,
        body: body.map(|b| b.to_string()),
        is_deleted: None,
        updated_at: None,
        versions: None,
        attachments: None,
    }
}

fn version(id: &str) -> DocVersionImport {
    DocVersionImport { id: Some(id.to_string()), hash: None, created_at: None, message: None }
}

#[test]
fn entries_by_name() {
    assert!(matches!(classify_archive_entry("docs.json"), ArchiveEntry::DocsJson));
    assert!(matches!(classify_archive_entry("versions.json"), ArchiveEntry::VersionsJson));
    assert!(matches!(classify_archive_entry("docs/a-b.md"), ArchiveEntry::DocBody));
    assert!(matches!(classify_archive_entry("meta.json"), ArchiveEntry::Other));
    assert!(matches!(classify_archive_entry("attachments/only"), ArchiveEntry::Other));
    assert!(matches!(classify_archive_entry("attachments//file"), ArchiveEntry::Other));
    match classify_archive_entry("attachments/attachments/my-doc/img/a.png") {
        ArchiveEntry::Attachment { ident, filename } => {
            assert_eq!(ident, "my-doc");
            assert_eq!(filename, "img/a.png");
        }
        other => panic!("unexpected {:?}", other),
    }
}

#[test]
fn bodies_and_attachments_read_from_entries() {
    let b = archive_body("docs/my-note.md", "text".to_string()).unwrap();
    assert_eq!(b.stem, "my-note");
    assert_eq!(b.body, "text");
    let p = pending_attachment("my-note".to_string(), "a.png".to_string(), vec![1, 2, 3]).unwrap();
    assert_eq!(p.id_key, None);
    assert_eq!(p.slug_key, "my-note");
    let q = pending_attachment("note-123e4567-e89b-12d3-a456-426614174000".to_string(), "b.png".to_string(), vec![4]).unwrap();
    assert_eq!(q.id_key.as_deref(), Some("123e4567-e89b-12d3-a456-426614174000"));
    assert_eq!(q.slug_key, "note");
    assert_eq!(p.attachment.encoding, Some("binary".to_string()));
    assert_eq!(p.attachment.bytes, vec![1, 2, 3]);
}

#[test]
fn documents_take_versions_bodies_and_attachments() {
    let docs = vec![doc(Some("id-a"), "Note A", None), doc(Some("id-b"), "b", Some("own body"))];
    let bundles = Some(vec![
        VersionBundle { doc_id: "id-a".to_string(), versions: vec![version("v0")] },
        VersionBundle { doc_id: "id-a".to_string(), versions: vec![version("v1"), version("v2")] },
    ]);
    let bodies = vec![ArchiveBody { stem: "note-a".to_string(), body: "from file".to_string() }];
    let pending = vec![
        pending_attachment("note-a".to_string(), "x.png".to_string(), vec![7]).unwrap(),
        pending_attachment("b".to_string(), "y.txt".to_string(), vec![8]).unwrap(),
        pending_attachment("note-a".to_string(), "z.txt".to_string(), vec![9]).unwrap(),
    ];
    let out = match assemble_archive_docs(docs, bundles, bodies, pending) {
        Ok(v) => v,
        Err(e) => panic!("assembly failed: {e}"),
    };
    assert_eq!(out.len(), 2);
    assert_eq!(out[0].body.as_deref(), Some("from file"));
    let vs = out[0].versions.as_ref().unwrap();
    assert_eq!(vs.len(), 2);
    assert_eq!(vs[0].id.as_deref(), Some("v1"));
    let a0 = out[0].attachments.as_ref().unwrap();
    assert_eq!(a0.len(), 2);
    assert_eq!(a0[0].filename, "x.png");
    assert_eq!(a0[1].filename, "z.txt");
    assert_eq!(out[1].body.as_deref(), Some("own body"));
    assert!(out[1].versions.is_none());
    assert_eq!(out[1].attachments.as_ref().unwrap()[0].filename, "y.txt");
}

#[test]
fn document_without_body_fails_the_archive() {
    let docs = vec![doc(None, "Lost Doc", Some(""))];
    match assemble_archive_docs(docs, None, vec![], vec![]) {
        Err(e) => assert_eq!(e, "doc Lost Doc missing body in docs.json and docs/*.md"),
        Ok(_) => panic!("missing body accepted"),
    }
}

#[test]
fn unmatched_attachment_fails_the_archive() {
    let docs = vec![doc(None, "a", Some("x"))];
    let pending = vec![pending_attachment("nobody".to_string(), "f".to_string(), vec![1]).unwrap()];
    match assemble_archive_docs(docs, None, vec![], pending) {
        Err(e) => assert_eq!(e, "attachment for key nobody not matched to doc"),
        Ok(_) => panic!("unmatched attachment accepted"),
    }
}

#[test]
fn snapshot_named_slug_and_id_supplies_the_body() {
    let id = "123e4567-e89b-12d3-a456-426614174000";
    let docs = vec![doc(Some(id), "note", None)];
    let b = archive_body(&format!("docs/note-{id}.md"), "hello".to_string()).unwrap();
    let pending = vec![pending_attachment(format!("note-{id}"), "a.txt".to_string(), vec![1]).unwrap()];
    let out = match assemble_archive_docs(docs, None, vec![b], pending) {
        Ok(v) => v,
        Err(e) => panic!("assembly failed: {e}"),
    };
    assert_eq!(out.len(), 1);
    assert_eq!(out[0].body.as_deref(), Some("hello"));
    assert_eq!(out[0].attachments.as_ref().unwrap()[0].filename, "a.txt");
}

#[test]
fn empty_entries_are_dropped() {
    assert!(archive_body("docs/x.md", String::new()).is_none());
    assert!(pending_attachment("x".to_string(), "f".to_string(), vec![]).is_none());
    let docs = vec![doc(None, "x", None)];
    let bodies = vec![ArchiveBody { stem: "x".to_string(), body: String::new() }];
    match assemble_archive_docs(docs, None, bodies, vec![]) {
        Err(e) => assert_eq!(e, "doc x missing body in docs.json and docs/*.md"),
        Ok(_) => panic!("empty body accepted"),
    }
}

#[test]
fn every_assembled_document_has_a_body() {
    let docs = vec![doc(None, "a", Some("own")), doc(None, "b", None)];
    let bodies = vec![ArchiveBody { stem: "b".to_string(), body: "file".to_string() }];
    let out = assemble_archive_docs(docs, Some(vec![VersionBundle { doc_id: String::new(), versions: vec![version("v")] }]), bodies, vec![]).ok().unwrap();
    assert!(out.iter().all(|d| d.body.as_deref().map_or(false, |b| !b.is_empty())));
    assert!(out[0].versions.is_some() && out[1].versions.is_none());
}

#[test]
fn archive_without_docs_json_is_refused() {
    match docs_from_archive_parts(None, None, Vec::new(), Vec::new()) {
        Err(m) => assert_eq!(m, "docs.json missing from archive"),
        Ok(_) => panic!("an archive without docs.json must be refused"),
    }
    let ok = docs_from_archive_parts(Some(vec![doc(Some("d1"), "a", Some("text"))]), None, Vec::new(), Vec::new())
        .unwrap();
    assert_eq!(ok.len(), 1);
    assert_eq!(ok[0].body.as_deref(), Some("text"));
}
