use agent_editor::import::{
    checked_slug, import_action, import_format, import_settings, import_status, keeps_existing,
    plan_import, prepare_import_doc, progress_event, repo_target, root_folder, should_emit_progress,
    simulate_import, DocAttachmentImport, DocImportRow, DocVersionImport, ImportAction,
    ImportDocsPayload, ImportFormat, ImportPlan, ImportStats, RepoTarget,
};

fn doc(slug: &str, body: Option<&str>) -> DocImportRow {
    DocImportRow {
        id: Some("id1".to_string()),
        repo_id: None,
        slug: slug.to_string(),
        title: None,
        body: body.map(|b| b.to_string()),
        is_deleted: None,
        updated_at: None,
        versions: None,
        attachments: None,
    }
}

#[test]
fn formats_by_extension() {
    assert_eq!(import_format("/x/docs.json"), ImportFormat::Json);
    assert_eq!(import_format("/x/docs.jsonl"), ImportFormat::JsonLines);
    assert_eq!(import_format("/x/export.tar"), ImportFormat::Tar);
    assert_eq!(import_format("/x/export.tgz"), ImportFormat::Tar);
    assert_eq!(import_format("/x/noext"), ImportFormat::Json);
}

#[test]
fn settings_defaults_and_conflict() {
    let p = ImportDocsPayload { path: "a.json".to_string(), repo_id: None, new_repo_name: None, dry_run: None, merge_strategy: None, progress_path: None };
    let s = import_settings(p).unwrap();
    assert!(s.dry_run);
    assert_eq!(s.merge_strategy, "keep");
    let p = ImportDocsPayload { path: "a.json".to_string(), repo_id: Some("r".to_string()), new_repo_name: Some("n".to_string()), dry_run: Some(false), merge_strategy: None, progress_path: None };
    match import_settings(p) {
        Err(m) => assert_eq!(m, "repo_id and new_repo_name are mutually exclusive"),
        Ok(_) => panic!("conflict accepted"),
    }
}

#[test]
fn import_plans() {
    assert_eq!(plan_import(0, "bogus", false, false, true), Ok(ImportPlan::Nothing));
    assert_eq!(plan_import(2, "merge", true, false, true), Err("merge_strategy must be keep or overwrite".to_string()));
    assert_eq!(plan_import(2, "keep", false, false, true), Err("specify repo_id or new_repo_name".to_string()));
    assert_eq!(plan_import(2, "overwrite", false, true, true), Ok(ImportPlan::DryRun));
    assert_eq!(plan_import(2, "keep", true, false, false), Ok(ImportPlan::Apply));
}

#[test]
fn repo_targets() {
    assert!(matches!(repo_target(Some("r1".to_string()), None, false), Ok(RepoTarget::Existing(ref x)) if x == "r1"));
    assert!(matches!(repo_target(None, Some("My Repo".to_string()), true), Ok(RepoTarget::Pending(ref x)) if x == "pending:My-Repo"));
    match repo_target(None, Some("My Repo".to_string()), false) {
        Ok(RepoTarget::Create { name, path }) => {
            assert_eq!(name, "My Repo");
            assert_eq!(path, ".import/My-Repo");
        }
        other => panic!("unexpected {:?}", other),
    }
    assert!(matches!(repo_target(None, None, true), Err(ref m) if m == "specify repo_id or new_repo_name"));
    assert_eq!(root_folder("r1"), ("/r1".to_string(), "root-r1".to_string()));
}

#[test]
fn merge_actions() {
    assert!(keeps_existing("keep"));
    assert!(!keeps_existing("overwrite"));
    assert_eq!(import_action(false, "keep", None), ImportAction::Insert);
    assert_eq!(import_action(true, "keep", None), ImportAction::Keep);
    assert_eq!(import_action(true, "overwrite", Some(true)), ImportAction::AttachOnly);
    assert_eq!(import_action(true, "overwrite", Some(false)), ImportAction::Update);
}

#[test]
fn dry_run_counts_every_document_once() {
    let existing = vec![Some(false), None, Some(true), None, None];
    let s = simulate_import(&existing, "keep", false, 5);
    assert_eq!((s.inserted, s.updated, s.skipped), (3, 0, 2));
    let s = simulate_import(&existing, "overwrite", false, 5);
    assert_eq!((s.inserted, s.updated, s.skipped), (3, 1, 1));
    let s = simulate_import(&vec![], "keep", true, 4);
    assert_eq!((s.inserted, s.updated, s.skipped), (4, 0, 0));
}

#[test]
fn stats_record_actions() {
    let mut s = ImportStats::new();
    s.record(ImportAction::Insert);
    s.record(ImportAction::Update);
    s.record(ImportAction::Keep);
    s.record(ImportAction::AttachOnly);
    assert_eq!((s.inserted, s.updated, s.skipped), (1, 1, 2));
}

#[test]
fn document_preparation() {
    assert_eq!(checked_slug("  a b "), Ok("a b".to_string()));
    assert_eq!(checked_slug("   "), Err("doc slug is required".to_string()));
    match prepare_import_doc(doc(" ", Some("x"))) {
        Err(m) => assert_eq!(m, "doc slug is required"),
        Ok(_) => panic!("empty slug accepted"),
    }
    match prepare_import_doc(doc(" s1 ", None)) {
        Err(m) => assert_eq!(m, "doc s1 missing body"),
        Ok(_) => panic!("missing body accepted"),
    }
    let mut d = doc(" s1 ", Some("body"));
    d.versions = Some(vec![
        DocVersionImport { id: None, hash: None, created_at: None, message: Some("first".to_string()) },
        DocVersionImport { id: None, hash: None, created_at: None, message: Some("last".to_string()) },
    ]);
    let p = prepare_import_doc(d).unwrap();
    assert_eq!(p.slug, "s1");
    assert_eq!(p.title, "s1");
    assert_eq!(p.body, "body");
    assert!(!p.is_deleted);
    assert_eq!(p.message, Some("last".to_string()));
}

#[test]
fn attachment_bytes_or_base64() {
    let mut a = DocAttachmentImport { filename: "f".to_string(), mime: None, encoding: None, data_base64: Some("aGk=".to_string()), bytes: vec![] };
    assert_eq!(a.take_bytes(), Ok(b"hi".to_vec()));
    let mut b = DocAttachmentImport { filename: "f".to_string(), mime: None, encoding: None, data_base64: None, bytes: vec![] };
    assert_eq!(b.take_bytes(), Err("attachment f missing data".to_string()));
    let mut c = DocAttachmentImport { filename: "f".to_string(), mime: None, encoding: None, data_base64: Some("!!".to_string()), bytes: vec![] };
    assert!(c.take_bytes().is_err());
    let mut d = DocAttachmentImport { filename: "f".to_string(), mime: None, encoding: None, data_base64: None, bytes: vec![1, 2] };
    assert_eq!(d.take_bytes(), Ok(vec![1, 2]));
}

#[test]
fn progress_reporting() {
    assert!(should_emit_progress(0, 7));
    assert!(!should_emit_progress(3, 7));
    assert!(should_emit_progress(7, 7));
    let mut st = ImportStats::new();
    st.record(ImportAction::Insert);
    let e = progress_event("importing", 1, 7, &st);
    assert_eq!((e.processed, e.total, e.inserted), (1, 7, 1));
    assert_eq!(import_status(true), "dry_run");
    assert_eq!(import_status(false), "imported");
}

#[test]
fn attachment_blob_kind_defaults() {
    let a = DocAttachmentImport { filename: "Pic.JPG".to_string(), mime: None, encoding: None, data_base64: None, bytes: vec![] };
    assert_eq!(a.blob_kind(), ("binary".to_string(), "image/jpeg".to_string()));
    let b = DocAttachmentImport { filename: "x".to_string(), mime: Some("text/x".to_string()), encoding: Some("utf8".to_string()), data_base64: None, bytes: vec![] };
    assert_eq!(b.blob_kind(), ("utf8".to_string(), "text/x".to_string()));
}

#[test]
fn dry_run_counts_as_the_import_does() {
    let existing = vec![Some(false), None, Some(true)];
    for strategy in ["keep", "overwrite"] {
        let dry = simulate_import(&existing, strategy, false, 3);
        let mut applied = ImportStats::new();
        for e in &existing {
            applied.record(import_action(e.is_some(), strategy, *e));
        }
        assert_eq!((dry.inserted, dry.updated, dry.skipped), (applied.inserted, applied.updated, applied.skipped));
    }
    let unchanged = simulate_import(&vec![Some(true)], "overwrite", false, 1);
    assert_eq!((unchanged.updated, unchanged.skipped), (0, 1));
}
