//! Document import: the import request and its plan, the rows read from an
//! archive, the decision for each document and the counters of an import.
use vstd::prelude::*;
use crate::export::{base64_decode, base64_decode_result, infer_mime_from_filename, mime_for};
use crate::paths::{path_extension, path_extension_result};
use crate::scan::{replace_char, replace_char_with};
use crate::text::{chars_of, str_eq, string_of, trim, trim_vec};

verus! {

// ===== Rows read from an archive =====

/// A version of a document as an archive lists it.
pub struct DocVersionImport {
    pub id: Option<String>,
    pub hash: Option<String>,
    pub created_at: Option<String>,
    pub message: Option<String>,
}

/// An attachment of a document in an archive: its content either read from the
/// archive (`bytes`) or given in base64.
pub struct DocAttachmentImport {
    pub filename: String,
    pub mime: Option<String>,
    pub encoding: Option<String>,
    pub data_base64: Option<String>,
    pub bytes: Vec<u8>,
}

/// A document as an archive lists it.
pub struct DocImportRow {
    pub id: Option<String>,
    pub repo_id: Option<String>,
    pub slug: String,
    pub title: Option<String>,
    pub body: Option<String>,
    pub is_deleted: Option<bool>,
    pub updated_at: Option<String>,
    pub versions: Option<Vec<DocVersionImport>>,
    pub attachments: Option<Vec<DocAttachmentImport>>,
}

impl DocAttachmentImport {
    /// The encoding and media type an attachment is stored with: its own, else
    /// `binary` and the type guessed from its file name.
    pub fn blob_kind(&self) -> (r: (String, String))
        ensures
            r.0@ == (match self.encoding {
                Some(e) => e@,
                None => "binary"@,
            }),
            r.1@ == (match self.mime {
                Some(m) => m@,
                None => mime_for(self.filename@),
            }),
    {
        let encoding = match &self.encoding {
            Some(e) => e.clone(),
            None => "binary".to_owned(),
        };
        let mime = match &self.mime {
            Some(m) => m.clone(),
            None => infer_mime_from_filename(self.filename.as_str()).to_owned(),
        };
        (encoding, mime)
    }

    /// The content of the attachment, taken out of it: the bytes read from the
    /// archive when there are any, else the decoded base64 data, else the error
    /// `attachment <filename> missing data`.
    pub fn take_bytes(&mut self) -> (r: Result<Vec<u8>, String>)
        ensures
            final(self).filename == old(self).filename,
            final(self).mime == old(self).mime,
            final(self).encoding == old(self).encoding,
            old(self).bytes@.len() > 0 ==> {
                &&& r matches Ok(b) && b@ == old(self).bytes@
                &&& final(self).bytes@.len() == 0
                &&& final(self).data_base64 == old(self).data_base64
            },
            old(self).bytes@.len() == 0 ==> {
                &&& final(self).bytes@.len() == 0
                &&& final(self).data_base64 is None
                &&& match old(self).data_base64 {
                    Some(d) => match base64_decode_result(d@) {
                        Ok(b) => r matches Ok(x) && x@ == b,
                        Err(m) => r matches Err(x) && x@ == m,
                    },
                    None => r matches Err(m) && m@ == "attachment "@ + old(self).filename@
                        + " missing data"@,
                }
            },
    {
        if self.bytes.len() > 0 {
            let mut out: Vec<u8> = Vec::new();
            std::mem::swap(&mut out, &mut self.bytes);
            return Ok(out);
        }
        let mut data: Option<String> = None;
        std::mem::swap(&mut data, &mut self.data_base64);
        match data {
            Some(d) => base64_decode(d.as_str()),
            None => {
                let mut m = "attachment ".to_owned();
                m.append(self.filename.as_str());
                m.append(" missing data");
                Err(m)
            },
        }
    }
}

// ===== The import request =====

/// The file formats an import reads.
#[derive(Debug, Clone, Copy, PartialEq, Eq)]
pub enum ImportFormat {
    Json,
    JsonLines,
    Tar,
}

/// The format of an import file by its extension: `jsonl` is JSON lines,
/// `tar` and `tgz` are archives, anything else is read as JSON.
pub open spec fn format_for(ext: Option<Seq<char>>) -> ImportFormat {
    match ext {
        Some(e) => if e == "jsonl"@ {
            ImportFormat::JsonLines
        } else if e == "tar"@ || e == "tgz"@ {
            ImportFormat::Tar
        } else {
            ImportFormat::Json
        },
        None => ImportFormat::Json,
    }
}

/// The format of an import file (see `format_for`).
pub fn import_format(path: &str) -> (f: ImportFormat)
    ensures
        f == format_for(path_extension_result(path@)),
{
    match path_extension(path) {
        Some(e) => {
            if str_eq(e.as_str(), "jsonl") {
                ImportFormat::JsonLines
            } else if str_eq(e.as_str(), "tar") || str_eq(e.as_str(), "tgz") {
                ImportFormat::Tar
            } else {
                ImportFormat::Json
            }
        },
        None => ImportFormat::Json,
    }
}

/// A request to import documents.
pub struct ImportDocsPayload {
    pub path: String,
    pub repo_id: Option<String>,
    pub new_repo_name: Option<String>,
    pub dry_run: Option<bool>,
    pub merge_strategy: Option<String>,
    pub progress_path: Option<String>,
}

/// An import request with its defaults filled in.
pub struct ImportSettings {
    pub path: String,
    pub repo_id: Option<String>,
    pub new_repo_name: Option<String>,
    pub dry_run: bool,
    pub merge_strategy: String,
    pub progress_path: Option<String>,
}

/// Checks an import request and fills in its defaults: a dry run unless told
/// otherwise, merge strategy `keep`; naming both a repository and a new
/// repository is refused.
pub fn import_settings(p: ImportDocsPayload) -> (r: Result<ImportSettings, String>)
    ensures
        (p.repo_id is Some && p.new_repo_name is Some) ==> (r matches Err(m) && m@
            == "repo_id and new_repo_name are mutually exclusive"@),
        !(p.repo_id is Some && p.new_repo_name is Some) ==> (r matches Ok(s) && {
            &&& s.path == p.path && s.repo_id == p.repo_id && s.new_repo_name == p.new_repo_name
            &&& s.progress_path == p.progress_path
            &&& s.dry_run == (match p.dry_run {
                Some(d) => d,
                None => true,
            })
            &&& s.merge_strategy@ == (match p.merge_strategy {
                Some(m) => m@,
                None => "keep"@,
            })
        }),
{
    if p.repo_id.is_some() && p.new_repo_name.is_some() {
        return Err("repo_id and new_repo_name are mutually exclusive".to_owned());
    }
    let dry_run = match p.dry_run {
        Some(d) => d,
        None => true,
    };
    let merge_strategy = match p.merge_strategy {
        Some(m) => m,
        None => "keep".to_owned(),
    };
    Ok(
        ImportSettings {
            path: p.path,
            repo_id: p.repo_id,
            new_repo_name: p.new_repo_name,
            dry_run,
            merge_strategy,
            progress_path: p.progress_path,
        },
    )
}

/// What an import does once its documents are read.
#[derive(Debug, Clone, Copy, PartialEq, Eq)]
pub enum ImportPlan {
    /// No documents: report an empty import.
    Nothing,
    /// Count what would happen without writing.
    DryRun,
    /// Write the documents.
    Apply,
}

/// Plans an import of `doc_count` documents: nothing to do when there are none;
/// otherwise the merge strategy must be `keep` or `overwrite`, and a repository
/// or a new repository must be named.
pub fn plan_import(
    doc_count: usize,
    merge_strategy: &str,
    has_repo_id: bool,
    has_new_repo_name: bool,
    dry_run: bool,
) -> (r: Result<ImportPlan, String>)
    ensures
        doc_count == 0 ==> r == Ok::<ImportPlan, String>(ImportPlan::Nothing),
        doc_count > 0 && merge_strategy@ != "keep"@ && merge_strategy@ != "overwrite"@ ==> (r matches Err(
            m,
        ) && m@ == "merge_strategy must be keep or overwrite"@),
        doc_count > 0 && (merge_strategy@ == "keep"@ || merge_strategy@ == "overwrite"@) && !has_repo_id
            && !has_new_repo_name ==> (r matches Err(m) && m@ == "specify repo_id or new_repo_name"@),
        doc_count > 0 && (merge_strategy@ == "keep"@ || merge_strategy@ == "overwrite"@) && (
        has_repo_id || has_new_repo_name) ==> r == Ok::<ImportPlan, String>(
            if dry_run {
                ImportPlan::DryRun
            } else {
                ImportPlan::Apply
            },
        ),
{
    if doc_count == 0 {
        return Ok(ImportPlan::Nothing);
    }
    if !str_eq(merge_strategy, "keep") && !str_eq(merge_strategy, "overwrite") {
        return Err("merge_strategy must be keep or overwrite".to_owned());
    }
    if !has_repo_id && !has_new_repo_name {
        return Err("specify repo_id or new_repo_name".to_owned());
    }
    if dry_run {
        Ok(ImportPlan::DryRun)
    } else {
        Ok(ImportPlan::Apply)
    }
}

/// Where the documents of an import go.
#[derive(Debug)]
pub enum RepoTarget {
    /// An existing repository, which must be found by its id.
    Existing(String),
    /// A dry run into a repository still to be created: its provisional id.
    Pending(String),
    /// A repository to create with this name and path.
    Create { name: String, path: String },
}

/// The target repository of an import: the one named by id; for a new name in
/// a dry run the provisional id `pending:<name>`, otherwise a new repository at
/// `.import/<name>` (spaces in the name turn into `-` in both); naming neither is refused.
pub fn repo_target(repo_id: Option<String>, new_repo_name: Option<String>, dry_run: bool) -> (r:
    Result<RepoTarget, String>)
    ensures
        repo_id matches Some(id) ==> (r matches Ok(RepoTarget::Existing(x)) && x == id),
        repo_id is None && new_repo_name is Some && dry_run ==> (r matches Ok(
            RepoTarget::Pending(x),
        ) && x@ == "pending:"@ + replace_char(new_repo_name->0@, ' ', seq!['-'])),
        repo_id is None && new_repo_name is Some && !dry_run ==> (r matches Ok(
            RepoTarget::Create { name, path },
        ) && name == new_repo_name->0 && path@ == ".import/"@ + replace_char(
            new_repo_name->0@,
            ' ',
            seq!['-'],
        )),
        repo_id is None && new_repo_name is None ==> (r matches Err(m) && m@
            == "specify repo_id or new_repo_name"@),
{
    proof {
        reveal_strlit("-");
        assert("-"@ =~= seq!['-']);
    }
    match repo_id {
        Some(id) => Ok(RepoTarget::Existing(id)),
        None => match new_repo_name {
            Some(name) => {
                let dashed = replace_char_with(name.as_str(), ' ', "-");
                if dry_run {
                    let mut id = "pending:".to_owned();
                    id.append(dashed.as_str());
                    Ok(RepoTarget::Pending(id))
                } else {
                    let mut path = ".import/".to_owned();
                    path.append(dashed.as_str());
                    Ok(RepoTarget::Create { name, path })
                }
            },
            None => Err("specify repo_id or new_repo_name".to_owned()),
        },
    }
}

/// The path and slug of the root folder created for a repository.
pub fn root_folder(repo_id: &str) -> (r: (String, String))
    ensures
        r.0@ == "/"@ + repo_id@,
        r.1@ == "root-"@ + repo_id@,
{
    let mut path = "/".to_owned();
    path.append(repo_id);
    let mut slug = "root-".to_owned();
    slug.append(repo_id);
    (path, slug)
}

// ===== Counting =====

/// What happened to the documents of an import.
#[derive(Debug, Clone, Copy)]
pub struct ImportStats {
    pub inserted: u32,
    pub updated: u32,
    pub skipped: u32,
}

/// What an import does with one document.
#[derive(Debug, Clone, Copy, PartialEq, Eq)]
pub enum ImportAction {
    /// A document of that slug exists and the strategy keeps it.
    Keep,
    /// The existing document already has this content: only attachments are added.
    AttachOnly,
    /// The existing document is overwritten.
    Update,
    /// No document of that slug exists: it is inserted.
    Insert,
}

impl ImportStats {
    /// No document counted yet.
    pub fn new() -> (s: ImportStats)
        ensures
            s.inserted == 0 && s.updated == 0 && s.skipped == 0,
    {
        ImportStats { inserted: 0, updated: 0, skipped: 0 }
    }

    /// The number of documents counted.
    pub open spec fn total(self) -> int {
        self.inserted + self.updated + self.skipped
    }

    /// Counts one document: inserted, updated, or skipped (kept or unchanged).
    pub fn record(&mut self, action: ImportAction)
        requires
            old(self).total() < u32::MAX,
        ensures
            final(self).total() == old(self).total() + 1,
            final(self).inserted == old(self).inserted + (if action == ImportAction::Insert {
                1int
            } else {
                0
            }),
            final(self).updated == old(self).updated + (if action == ImportAction::Update {
                1int
            } else {
                0
            }),
            final(self).skipped == old(self).skipped + (if action == ImportAction::Keep || action
                == ImportAction::AttachOnly {
                1int
            } else {
                0
            }),
    {
        match action {
            ImportAction::Insert => {
                self.inserted = self.inserted + 1;
            },
            ImportAction::Update => {
                self.updated = self.updated + 1;
            },
            _ => {
                self.skipped = self.skipped + 1;
            },
        }
    }
}

/// Whether a merge strategy keeps existing documents.
pub fn keeps_existing(merge_strategy: &str) -> (b: bool)
    ensures
        b == (merge_strategy@ == "keep"@),
{
    str_eq(merge_strategy, "keep")
}

/// The action an import takes on a document (see `import_action`); `keep` tells
/// whether the merge strategy is `keep`.
pub open spec fn action_for(existing: bool, keep: bool, content_matches: Option<bool>) -> ImportAction {
    if !existing {
        ImportAction::Insert
    } else if keep {
        ImportAction::Keep
    } else if content_matches == Some(true) {
        ImportAction::AttachOnly
    } else {
        ImportAction::Update
    }
}

/// The counter an action lands in: 0 inserted, 1 updated, 2 skipped.
pub open spec fn counter_of(a: ImportAction) -> int {
    match a {
        ImportAction::Insert => 0,
        ImportAction::Update => 1,
        ImportAction::Keep => 2,
        ImportAction::AttachOnly => 2,
    }
}

/// The counter a dry run puts a document in: `None` for a document whose slug
/// is new, `Some(m)` for one that exists, `m` telling whether its content equals
/// the current version. Under `keep` an existing document is skipped; otherwise
/// it is skipped when unchanged and updated when changed.
pub open spec fn simulated_counter(existing: Option<bool>, keep: bool) -> int {
    match existing {
        None => 0,
        Some(m) => if keep || m {
            2
        } else {
            1
        },
    }
}

/// The number of documents a dry run puts in counter `c`.
pub open spec fn counted(es: Seq<Option<bool>>, keep: bool, c: int) -> nat
    decreases es.len(),
{
    if es.len() == 0 {
        0
    } else {
        counted(es.drop_last(), keep, c) + if simulated_counter(es.last(), keep) == c {
            1nat
        } else {
            0nat
        }
    }
}

/// A dry run counts each document where the import then counts it.
pub proof fn law_dry_run_agrees(existing: Option<bool>, keep: bool)
    ensures
        counter_of(action_for(existing is Some, keep, existing)) == simulated_counter(existing, keep),
{
}

/// What an import does with a document: insert it when its slug is new; keep an
/// existing one under `keep`; otherwise only add attachments when the content is
/// unchanged (`content_matches`, asked only then), else update it.
pub fn import_action(existing: bool, merge_strategy: &str, content_matches: Option<bool>) -> (a:
    ImportAction)
    requires
        existing && merge_strategy@ != "keep"@ ==> content_matches is Some,
    ensures
        !existing ==> a == ImportAction::Insert,
        existing && merge_strategy@ == "keep"@ ==> a == ImportAction::Keep,
        existing && merge_strategy@ != "keep"@ ==> a == (if content_matches == Some(true) {
            ImportAction::AttachOnly
        } else {
            ImportAction::Update
        }),
        a == action_for(existing, merge_strategy@ == "keep"@, content_matches),
{
    if !existing {
        return ImportAction::Insert;
    }
    if keeps_existing(merge_strategy) {
        return ImportAction::Keep;
    }
    match content_matches {
        Some(true) => ImportAction::AttachOnly,
        _ => ImportAction::Update,
    }
}

/// The counters of a dry run: all documents inserted into a new repository;
/// otherwise each document counted as the import would count it (see
/// `simulated_counter`; `existing[i]` tells whether the slug of document `i`
/// exists and, if so, whether its content is unchanged).
pub fn simulate_import(existing: &Vec<Option<bool>>, merge_strategy: &str, repo_is_new: bool, doc_count: usize) -> (s:
    ImportStats)
    requires
        doc_count <= u32::MAX,
        repo_is_new || existing@.len() == doc_count,
    ensures
        s.total() == doc_count,
        repo_is_new ==> s.inserted == doc_count && s.updated == 0 && s.skipped == 0,
        !repo_is_new ==> {
            let keep = merge_strategy@ == "keep"@;
            &&& s.inserted == counted(existing@, keep, 0)
            &&& s.updated == counted(existing@, keep, 1)
            &&& s.skipped == counted(existing@, keep, 2)
        },
{
    let mut s = ImportStats::new();
    if repo_is_new {
        s.inserted = doc_count as u32;
        return s;
    }
    let ghost keep = merge_strategy@ == "keep"@;
    let mut i: usize = 0;
    while i < existing.len()
        invariant
            i <= existing.len() == doc_count <= u32::MAX,
            keep == (merge_strategy@ == "keep"@),
            s.total() == i,
            s.inserted == counted(existing@.take(i as int), keep, 0),
            s.updated == counted(existing@.take(i as int), keep, 1),
            s.skipped == counted(existing@.take(i as int), keep, 2),
        decreases existing.len() - i,
    {
        let ghost t = existing@.take(i + 1);
        assert(t.drop_last() =~= existing@.take(i as int));
        let e = existing[i];
        let action = import_action(e.is_some(), merge_strategy, e);
        proof {
            law_dry_run_agrees(e, keep);
        }
        s.record(action);
        i += 1;
    }
    assert(existing@.take(existing.len() as int) =~= existing@);
    s
}

/// A document's slug without surrounding whitespace; an empty slug is refused.
pub fn checked_slug(slug: &str) -> (r: Result<String, String>)
    ensures
        trim(slug@).len() > 0 ==> (r matches Ok(s) && s@ == trim(slug@)),
        trim(slug@).len() == 0 ==> (r matches Err(m) && m@ == "doc slug is required"@),
{
    let v = chars_of(slug);
    let t = trim_vec(&v);
    if t.len() == 0 {
        Err("doc slug is required".to_owned())
    } else {
        Ok(string_of(&t))
    }
}

/// A document ready to be written by an import.
pub struct PreparedDoc {
    pub id: Option<String>,
    pub slug: String,
    pub title: String,
    pub body: String,
    pub is_deleted: bool,
    pub message: Option<String>,
    pub attachments: Option<Vec<DocAttachmentImport>>,
}

/// The message of the last listed version, if any.
pub open spec fn last_message(versions: Option<Vec<DocVersionImport>>) -> Option<String> {
    match versions {
        Some(vs) => if vs@.len() > 0 {
            vs@.last().message
        } else {
            None
        },
        None => None,
    }
}

/// Prepares an imported document for writing: its slug trimmed (an empty slug is
/// refused), its body required (`doc <slug> missing body`), its title defaulting
/// to the slug, not deleted unless said, and the message of its last version.
pub fn prepare_import_doc(doc: DocImportRow) -> (r: Result<PreparedDoc, String>)
    ensures
        trim(doc.slug@).len() == 0 ==> (r matches Err(m) && m@ == "doc slug is required"@),
        trim(doc.slug@).len() > 0 && doc.body is None ==> (r matches Err(m) && m@ == "doc "@ + trim(
            doc.slug@,
        ) + " missing body"@),
        trim(doc.slug@).len() > 0 && doc.body is Some ==> (r matches Ok(p) && {
            &&& p.id == doc.id
            &&& p.slug@ == trim(doc.slug@)
            &&& p.body == doc.body->0
            &&& p.title@ == (match doc.title {
                Some(t) => t@,
                None => trim(doc.slug@),
            })
            &&& p.is_deleted == (match doc.is_deleted {
                Some(d) => d,
                None => false,
            })
            &&& p.message == last_message(doc.versions)
            &&& p.attachments == doc.attachments
        }),
{
    let slug = match checked_slug(doc.slug.as_str()) {
        Ok(s) => s,
        Err(e) => {
            return Err(e);
        },
    };
    let body = match doc.body {
        Some(b) => b,
        None => {
            let mut m = "doc ".to_owned();
            m.append(slug.as_str());
            m.append(" missing body");
            return Err(m);
        },
    };
    let title = match doc.title {
        Some(t) => t,
        None => slug.clone(),
    };
    let is_deleted = match doc.is_deleted {
        Some(d) => d,
        None => false,
    };
    let message = match &doc.versions {
        Some(vs) => {
            if vs.len() > 0 {
                match &vs[vs.len() - 1].message {
                    Some(m) => Some(m.clone()),
                    None => None,
                }
            } else {
                None
            }
        },
        None => None,
    };
    Ok(PreparedDoc { id: doc.id, slug, title, body, is_deleted, message, attachments: doc.attachments })
}

// ===== Progress =====

/// How many documents go by between two progress records.
pub const IMPORT_PROGRESS_INTERVAL: usize = 25;

/// Whether a progress record is written after `processed` of `total` documents:
/// every `IMPORT_PROGRESS_INTERVAL` documents and after the last one.
pub fn should_emit_progress(processed: usize, total: usize) -> (b: bool)
    ensures
        b == (processed % IMPORT_PROGRESS_INTERVAL == 0 || processed == total),
{
    processed % IMPORT_PROGRESS_INTERVAL == 0 || processed == total
}

/// One line of an import's progress file.
pub struct ImportProgressEvent {
    pub status: String,
    pub processed: usize,
    pub total: usize,
    pub inserted: u32,
    pub updated: u32,
    pub skipped: u32,
}

/// The progress record of an import at some point.
pub fn progress_event(status: &str, processed: usize, total: usize, stats: &ImportStats) -> (e:
    ImportProgressEvent)
    ensures
        e.status@ == status@,
        e.processed == processed && e.total == total,
        e.inserted == stats.inserted && e.updated == stats.updated && e.skipped == stats.skipped,
{
    ImportProgressEvent {
        status: status.to_owned(),
        processed,
        total,
        inserted: stats.inserted,
        updated: stats.updated,
        skipped: stats.skipped,
    }
}


/// The status word of an import: `dry_run` or `imported`.
pub fn import_status(dry_run: bool) -> (s: String)
    ensures
        s@ == (if dry_run {
            "dry_run"@
        } else {
            "imported"@
        }),
{
    if dry_run {
        "dry_run".to_owned()
    } else {
        "imported".to_owned()
    }
}

} // verus!
