//! Document export: the export query, the rows with their versions and
//! attachments, file names in archives, and attachment payloads.
use vstd::prelude::*;
use base64::Engine;
use crate::text::{ascii_lower, chars_of, eq_ignore_case, slice_vec, string_of, to_ascii_lower};

verus! {

// ===== Export rows =====

/// One version of a document in an export.
pub struct DocVersionExport {
    pub id: String,
    pub doc_id: String,
    pub created_at: String,
    pub hash: String,
    pub message: Option<String>,
}

/// One attachment of a document in an export, its content in base64.
pub struct DocAttachmentExport {
    pub doc_id: String,
    pub filename: String,
    pub mime: String,
    pub encoding: String,
    pub data_base64: String,
}

/// One document in an export.
pub struct DocExportRow {
    pub id: String,
    pub repo_id: String,
    pub slug: String,
    pub title: String,
    pub body: String,
    pub updated_at: String,
    pub is_deleted: bool,
    pub versions: Option<Vec<DocVersionExport>>,
    pub attachments: Option<Vec<DocAttachmentExport>>,
}

fn clone_opt(o: &Option<String>) -> (r: Option<String>)
    ensures
        r == *o,
{
    match o {
        Some(s) => Some(s.clone()),
        None => None,
    }
}

impl DocVersionExport {
    /// A copy of this version.
    pub fn duplicate(&self) -> (r: DocVersionExport)
        ensures
            r == *self,
    {
        DocVersionExport {
            id: self.id.clone(),
            doc_id: self.doc_id.clone(),
            created_at: self.created_at.clone(),
            hash: self.hash.clone(),
            message: clone_opt(&self.message),
        }
    }
}

impl DocAttachmentExport {
    /// A copy of this attachment.
    pub fn duplicate(&self) -> (r: DocAttachmentExport)
        ensures
            r == *self,
    {
        DocAttachmentExport {
            doc_id: self.doc_id.clone(),
            filename: self.filename.clone(),
            mime: self.mime.clone(),
            encoding: self.encoding.clone(),
            data_base64: self.data_base64.clone(),
        }
    }
}

/// The query that lists documents for export, newest first; deleted documents
/// only when asked for, and only one repository's when `with_repo` (its id is
/// parameter 1).
pub open spec fn export_sql(include_deleted: bool, with_repo: bool) -> Seq<char> {
    "SELECT d.id, d.repo_id, d.slug, d.title, COALESCE(fts.body,'') as body, d.updated_at, d.is_deleted FROM doc d JOIN doc_fts fts ON fts.rowid = d.rowid WHERE 1=1"@
        + (if include_deleted {
        seq![]
    } else {
        " AND d.is_deleted=0"@
    }) + (if with_repo {
        " AND d.repo_id=?1"@
    } else {
        seq![]
    }) + " ORDER BY d.updated_at DESC"@
}

/// Builds the export query (see `export_sql`).
pub fn export_docs_sql(include_deleted: bool, with_repo: bool) -> (sql: String)
    ensures
        sql@ == export_sql(include_deleted, with_repo),
{
    let mut sql = "SELECT d.id, d.repo_id, d.slug, d.title, COALESCE(fts.body,'') as body, d.updated_at, d.is_deleted FROM doc d JOIN doc_fts fts ON fts.rowid = d.rowid WHERE 1=1".to_owned();
    if !include_deleted {
        sql.append(" AND d.is_deleted=0");
    }
    if with_repo {
        sql.append(" AND d.repo_id=?1");
    }
    sql.append(" ORDER BY d.updated_at DESC");
    sql
}

/// Whether `needle` occurs in `s` as a contiguous run of characters.
pub open spec fn occurs_in(needle: Seq<char>, s: Seq<char>) -> bool {
    exists|j: int| 0 <= j && j + needle.len() <= s.len() && #[trigger] s.subrange(j, j + needle.len()) == needle
}

proof fn lemma_no_char_no_occurrence(needle: Seq<char>, s: Seq<char>, k: int)
    requires
        0 <= k < needle.len(),
        !s.contains(needle[k]),
    ensures
        !occurs_in(needle, s),
{
    if occurs_in(needle, s) {
        let j = choose|j: int| 0 <= j && j + needle.len() <= s.len() && #[trigger] s.subrange(j, j + needle.len()) == needle;
        assert(s[j + k] == s.subrange(j, j + needle.len())[k]);
    }
}

proof fn lemma_occurs_at(needle: Seq<char>, a: Seq<char>, b: Seq<char>)
    ensures
        occurs_in(needle, a + needle + b),
{
    let s = a + needle + b;
    assert(s.subrange(a.len() as int, (a.len() + needle.len()) as int) =~= needle);
}

/// The export query leaves out deleted documents exactly when they are not
/// asked for, and keeps to repository `?1` exactly when one is given.
pub proof fn law_export_filters(include_deleted: bool, with_repo: bool)
    ensures
        occurs_in(" AND d.is_deleted=0"@, export_sql(include_deleted, with_repo)) <==> !include_deleted,
        occurs_in(" AND d.repo_id=?1"@, export_sql(include_deleted, with_repo)) <==> with_repo,
{
    let base = "SELECT d.id, d.repo_id, d.slug, d.title, COALESCE(fts.body,'') as body, d.updated_at, d.is_deleted FROM doc d JOIN doc_fts fts ON fts.rowid = d.rowid WHERE 1=1"@;
    let del = " AND d.is_deleted=0"@;
    let repo = " AND d.repo_id=?1"@;
    let order = " ORDER BY d.updated_at DESC"@;
    reveal_strlit("SELECT d.id, d.repo_id, d.slug, d.title, COALESCE(fts.body,'') as body, d.updated_at, d.is_deleted FROM doc d JOIN doc_fts fts ON fts.rowid = d.rowid WHERE 1=1");
    reveal_strlit(" AND d.is_deleted=0");
    reveal_strlit(" AND d.repo_id=?1");
    reveal_strlit(" ORDER BY d.updated_at DESC");
    assert(!base.contains('0'));
    assert(!base.contains('?'));
    assert(!repo.contains('0'));
    assert(!order.contains('0'));
    assert(!order.contains('?'));
    assert(!del.contains('?'));
    assert(del[18] == '0');
    assert(repo[15] == '?');
    let sql = export_sql(include_deleted, with_repo);
    let d = if include_deleted { Seq::<char>::empty() } else { del };
    let r = if with_repo { repo } else { Seq::<char>::empty() };
    assert(sql =~= base + d + r + order);
    if include_deleted {
        assert(!sql.contains('0')) by {
            if sql.contains('0') {
                let k = choose|k: int| 0 <= k < sql.len() && sql[k] == '0';
                if k < base.len() {
                    assert(base[k] == '0');
                } else if k < base.len() + r.len() {
                    assert(r[k - base.len()] == '0');
                } else {
                    assert(order[k - base.len() - r.len()] == '0');
                }
            }
        }
        lemma_no_char_no_occurrence(del, sql, 18);
    } else {
        assert(sql =~= base + del + (r + order));
        lemma_occurs_at(del, base, r + order);
    }
    if with_repo {
        assert(sql =~= (base + d) + repo + order);
        lemma_occurs_at(repo, base + d, order);
    } else {
        assert(!sql.contains('?')) by {
            if sql.contains('?') {
                let k = choose|k: int| 0 <= k < sql.len() && sql[k] == '?';
                if k < base.len() {
                    assert(base[k] == '?');
                } else if k < base.len() + d.len() {
                    assert(d[k - base.len()] == '?');
                } else {
                    assert(order[k - base.len() - d.len()] == '?');
                }
            }
        }
        lemma_no_char_no_occurrence(repo, sql, 15);
    }
}

/// The versions, in order, that belong to document `id`.
pub open spec fn versions_of(vs: Seq<DocVersionExport>, id: Seq<char>) -> Seq<DocVersionExport>
    decreases vs.len(),
{
    if vs.len() == 0 {
        seq![]
    } else {
        versions_of(vs.drop_last(), id) + (if vs.last().doc_id@ == id {
            seq![vs.last()]
        } else {
            seq![]
        })
    }
}

/// The attachments, in order, that belong to document `id`.
pub open spec fn attachments_of(xs: Seq<DocAttachmentExport>, id: Seq<char>) -> Seq<
    DocAttachmentExport,
>
    decreases xs.len(),
{
    if xs.len() == 0 {
        seq![]
    } else {
        attachments_of(xs.drop_last(), id) + (if xs.last().doc_id@ == id {
            seq![xs.last()]
        } else {
            seq![]
        })
    }
}

fn collect_versions(vs: &Vec<DocVersionExport>, id: &str) -> (r: Vec<DocVersionExport>)
    ensures
        r@ == versions_of(vs@, id@),
{
    let mut r: Vec<DocVersionExport> = Vec::new();
    let mut k: usize = 0;
    while k < vs.len()
        invariant
            k <= vs.len(),
            r@ == versions_of(vs@.take(k as int), id@),
        decreases vs.len() - k,
    {
        let ghost t = vs@.take(k + 1);
        assert(t.drop_last() =~= vs@.take(k as int));
        if crate::text::str_eq(vs[k].doc_id.as_str(), id) {
            r.push(vs[k].duplicate());
        }
        assert(r@ =~= versions_of(t, id@));
        k += 1;
    }
    assert(vs@.take(vs.len() as int) =~= vs@);
    r
}

fn collect_attachments(xs: &Vec<DocAttachmentExport>, id: &str) -> (r: Vec<DocAttachmentExport>)
    ensures
        r@ == attachments_of(xs@, id@),
{
    let mut r: Vec<DocAttachmentExport> = Vec::new();
    let mut k: usize = 0;
    while k < xs.len()
        invariant
            k <= xs.len(),
            r@ == attachments_of(xs@.take(k as int), id@),
        decreases xs.len() - k,
    {
        let ghost t = xs@.take(k + 1);
        assert(t.drop_last() =~= xs@.take(k as int));
        if crate::text::str_eq(xs[k].doc_id.as_str(), id) {
            r.push(xs[k].duplicate());
        }
        assert(r@ =~= attachments_of(t, id@));
        k += 1;
    }
    assert(xs@.take(xs.len() as int) =~= xs@);
    r
}

/// Whether an exported row carries its versions: the list of those that belong
/// to it when there is at least one, its former value otherwise.
pub open spec fn with_versions(
    new: DocExportRow,
    old: DocExportRow,
    vs: Seq<DocVersionExport>,
) -> bool {
    &&& new.id == old.id && new.repo_id == old.repo_id && new.slug == old.slug
    &&& new.title == old.title && new.body == old.body && new.updated_at == old.updated_at
    &&& new.is_deleted == old.is_deleted && new.attachments == old.attachments
    &&& if versions_of(vs, old.id@).len() > 0 {
        new.versions matches Some(l) && l@ == versions_of(vs, old.id@)
    } else {
        new.versions == old.versions
    }
}

/// Whether an exported row carries its attachments (as `with_versions` does for versions).
pub open spec fn with_attachments(
    new: DocExportRow,
    old: DocExportRow,
    xs: Seq<DocAttachmentExport>,
) -> bool {
    &&& new.id == old.id && new.repo_id == old.repo_id && new.slug == old.slug
    &&& new.title == old.title && new.body == old.body && new.updated_at == old.updated_at
    &&& new.is_deleted == old.is_deleted && new.versions == old.versions
    &&& if attachments_of(xs, old.id@).len() > 0 {
        new.attachments matches Some(l) && l@ == attachments_of(xs, old.id@)
    } else {
        new.attachments == old.attachments
    }
}

/// Gives each exported document the versions that belong to it, in their order.
pub fn attach_versions(docs: Vec<DocExportRow>, versions: &Vec<DocVersionExport>) -> (r: Vec<
    DocExportRow,
>)
    ensures
        r@.len() == docs@.len(),
        forall|i: int| 0 <= i < r@.len() ==> with_versions(r@[i], docs@[i], versions@),
{
    let ghost orig = docs@;
    let mut r: Vec<DocExportRow> = Vec::new();
    for d in it: docs
        invariant
            it.seq() == orig,
            r@.len() == it.index(),
            forall|k: int| 0 <= k < r@.len() ==> with_versions(r@[k], orig[k], versions@),
    {
        let ghost d0 = d;
        let mut d = d;
        let list = collect_versions(versions, d.id.as_str());
        if list.len() > 0 {
            d.versions = Some(list);
        }
        r.push(d);
        assert(with_versions(r@[r@.len() - 1], d0, versions@));
    }
    r
}

/// Gives each exported document the attachments that belong to it, in their order.
pub fn attach_attachments(docs: Vec<DocExportRow>, attachments: &Vec<DocAttachmentExport>) -> (r:
    Vec<DocExportRow>)
    ensures
        r@.len() == docs@.len(),
        forall|i: int| 0 <= i < r@.len() ==> with_attachments(r@[i], docs@[i], attachments@),
{
    let ghost orig = docs@;
    let mut r: Vec<DocExportRow> = Vec::new();
    for d in it: docs
        invariant
            it.seq() == orig,
            r@.len() == it.index(),
            forall|k: int| 0 <= k < r@.len() ==> with_attachments(r@[k], orig[k], attachments@),
    {
        let ghost d0 = d;
        let mut d = d;
        let list = collect_attachments(attachments, d.id.as_str());
        if list.len() > 0 {
            d.attachments = Some(list);
        }
        r.push(d);
        assert(with_attachments(r@[r@.len() - 1], d0, attachments@));
    }
    r
}

// ===== Base64 =====

/// The character of a 6-bit value in the standard base64 alphabet.
pub open spec fn b64_char(n: int) -> char {
    if n < 26 {
        (65 + n) as char
    } else if n < 52 {
        (97 + n - 26) as char
    } else if n < 62 {
        (48 + n - 52) as char
    } else if n == 62 {
        '+'
    } else {
        '/'
    }
}

/// Standard base64 with `=` padding (RFC 4648, section 4).
pub open spec fn b64_encode(b: Seq<u8>) -> Seq<char>
    decreases b.len(),
{
    if b.len() == 0 {
        seq![]
    } else if b.len() == 1 {
        seq![b64_char(b[0] as int / 4), b64_char((b[0] as int % 4) * 16), '=', '=']
    } else if b.len() == 2 {
        seq![
            b64_char(b[0] as int / 4),
            b64_char((b[0] as int % 4) * 16 + b[1] as int / 16),
            b64_char((b[1] as int % 16) * 4),
            '=',
        ]
    } else {
        seq![
            b64_char(b[0] as int / 4),
            b64_char((b[0] as int % 4) * 16 + b[1] as int / 16),
            b64_char((b[1] as int % 16) * 4 + b[2] as int / 64),
            b64_char(b[2] as int % 64),
        ] + b64_encode(b.skip(3))
    }
}

/// `base64::engine::general_purpose::STANDARD.encode(bytes)`: standard base64
/// with padding, as the crate's documentation and RFC 4648 define it.
#[verifier::external_body]
pub(crate) fn base64_encode(bytes: &Vec<u8>) -> (r: String)
    ensures
        r@ == b64_encode(bytes@),
{
    base64::engine::general_purpose::STANDARD.encode(bytes)
}

/// What `STANDARD.decode(text)` gives: the bytes, or the text of the error.
pub uninterp spec fn base64_decode_result(text: Seq<char>) -> Result<Seq<u8>, Seq<char>>;

/// `base64::engine::general_purpose::STANDARD.decode(text)`, the error turned
/// into its message. The contract names the result and says nothing more of it.
#[verifier::external_body]
pub(crate) fn base64_decode(text: &str) -> (r: Result<Vec<u8>, String>)
    ensures
        match r {
            Ok(b) => base64_decode_result(text@) == Ok::<Seq<u8>, Seq<char>>(b@),
            Err(m) => base64_decode_result(text@) == Err::<Seq<u8>, Seq<char>>(m@),
        },
{
    base64::engine::general_purpose::STANDARD.decode(text).map_err(|e| e.to_string())
}

/// An exported attachment with its content encoded in base64.
pub fn attachment_export(
    doc_id: String,
    filename: String,
    mime: String,
    encoding: String,
    content: &Vec<u8>,
) -> (r: DocAttachmentExport)
    ensures
        r.doc_id == doc_id && r.filename == filename && r.mime == mime && r.encoding == encoding,
        r.data_base64@ == b64_encode(content@),
{
    DocAttachmentExport { doc_id, filename, mime, encoding, data_base64: base64_encode(content) }
}

// ===== Archive file names =====

/// Whether a character may stay in an archive file name.
pub open spec fn filename_safe(c: char) -> bool {
    ('a' <= c && c <= 'z') || ('A' <= c && c <= 'Z') || ('0' <= c && c <= '9') || c == '-' || c
        == '_'
}

/// The file name form of a slug: letters lower-cased, other characters than
/// ASCII letters, digits, `-` and `_` turned into `-`, `doc` for an empty slug,
/// and at most 40 characters.
pub open spec fn sanitized_slug(slug: Seq<char>) -> Seq<char> {
    let m = slug.map_values(|c: char| if filename_safe(c) { ascii_lower(c) } else { '-' });
    if m.len() == 0 {
        "doc"@
    } else if m.len() > 40 {
        m.take(40)
    } else {
        m
    }
}

proof fn lemma_safe_char(c: char)
    ensures
        filename_safe(c) ==> filename_safe(ascii_lower(c)) && !('A' <= ascii_lower(c) <= 'Z'),
        filename_safe(c) && !('A' <= c <= 'Z') ==> ascii_lower(c) == c,
{
    if 'A' <= c && c <= 'Z' {
        assert((c as u8) as int == c as int);
        assert('a' <= ascii_lower(c) <= 'z');
    }
}

/// A file-name slug holds 1 to 40 characters, each a lower-case ASCII letter, a
/// digit, `-` or `_`; sanitising it again changes nothing.
pub proof fn law_sanitized_slug(slug: Seq<char>)
    ensures
        1 <= sanitized_slug(slug).len() <= 40,
        forall|i: int|
            0 <= i < sanitized_slug(slug).len() ==> filename_safe(#[trigger] sanitized_slug(slug)[i])
                && !('A' <= sanitized_slug(slug)[i] <= 'Z'),
        sanitized_slug(sanitized_slug(slug)) == sanitized_slug(slug),
{
    reveal_strlit("doc");
    let s = sanitized_slug(slug);
    let m = slug.map_values(|c: char| if filename_safe(c) { ascii_lower(c) } else { '-' });
    assert forall|i: int| 0 <= i < m.len() implies filename_safe(#[trigger] m[i]) && !('A' <= m[i]
        <= 'Z') by {
        lemma_safe_char(slug[i]);
    }
    assert forall|i: int| 0 <= i < s.len() implies filename_safe(#[trigger] s[i]) && !('A' <= s[i]
        <= 'Z') by {
        if m.len() > 0 {
            assert(s[i] == m[i]);
        }
    }
    let m2 = s.map_values(|c: char| if filename_safe(c) { ascii_lower(c) } else { '-' });
    assert forall|i: int| 0 <= i < s.len() implies #[trigger] m2[i] == s[i] by {
        lemma_safe_char(s[i]);
    }
    assert(m2 =~= s);
}

/// The file name form of a slug (see `sanitized_slug`); every character of the
/// result is lower-case ASCII, so `str::to_lowercase` would leave it unchanged.
pub fn sanitize_slug_for_filename(slug: &str) -> (r: String)
    ensures
        r@ == sanitized_slug(slug@),
{
    let v = chars_of(slug);
    let mut m: Vec<char> = Vec::new();
    let mut i: usize = 0;
    while i < v.len()
        invariant
            i <= v.len(),
            v@ == slug@,
            m@ == v@.take(i as int).map_values(
                |c: char| if filename_safe(c) { ascii_lower(c) } else { '-' },
            ),
        decreases v.len() - i,
    {
        let c = v[i];
        let safe = ('a' <= c && c <= 'z') || ('A' <= c && c <= 'Z') || ('0' <= c && c <= '9') || c
            == '-' || c == '_';
        if safe {
            m.push(to_ascii_lower(c));
        } else {
            m.push('-');
        }
        assert(v@.take(i + 1) =~= v@.take(i as int).push(c));
        assert(m@ =~= v@.take(i + 1).map_values(
            |c: char| if filename_safe(c) { ascii_lower(c) } else { '-' },
        ));
        i += 1;
    }
    assert(v@.take(v.len() as int) =~= v@);
    if m.len() == 0 {
        return "doc".to_owned();
    }
    if m.len() > 40 {
        let t = slice_vec(&m, 0, 40);
        assert(t@ =~= m@.take(40));
        return string_of(&t);
    }
    string_of(&m)
}

/// Whether a character is a hexadecimal digit (either case).
pub open spec fn is_hex_digit(c: char) -> bool {
    ('0' <= c && c <= '9') || ('a' <= c && c <= 'f') || ('A' <= c && c <= 'F')
}

/// A UUID in hyphenated form: 36 characters, `-` at 8, 13, 18 and 23, hex digits elsewhere.
pub open spec fn hyphenated_uuid(s: Seq<char>) -> bool {
    s.len() == 36 && forall|i: int|
        0 <= i < 36 ==> if i == 8 || i == 13 || i == 18 || i == 23 {
            s[i] == '-'
        } else {
            is_hex_digit(#[trigger] s[i])
        }
}

/// The texts `Uuid::parse_str` accepts: 32 hex digits, the hyphenated form, the
/// hyphenated form in braces, or `urn:uuid:` (any ASCII case) and the hyphenated form.
pub open spec fn uuid_text(s: Seq<char>) -> bool {
    ||| (s.len() == 32 && forall|i: int| 0 <= i < 32 ==> is_hex_digit(#[trigger] s[i]))
    ||| hyphenated_uuid(s)
    ||| (s.len() == 38 && s[0] == '{' && s[37] == '}' && hyphenated_uuid(s.subrange(1, 37)))
    ||| (s.len() == 45 && eq_ignore_case(s.take(9), "urn:uuid:"@) && hyphenated_uuid(s.skip(9)))
}

/// Whether `uuid::Uuid::parse_str(s)` succeeds; the contract states the forms its
/// parser (in the version used) accepts.
#[verifier::external_body]
pub(crate) fn uuid_parses(s: &str) -> (b: bool)
    ensures
        b == uuid_text(s@),
{
    uuid::Uuid::parse_str(s).is_ok()
}

/// The index of the last `c` in `s`, or -1.
pub open spec fn find_last(s: Seq<char>, c: char) -> int
    decreases s.len(),
{
    if s.len() == 0 {
        -1
    } else if s.last() == c {
        s.len() - 1
    } else {
        find_last(s.drop_last(), c)
    }
}

/// The document id and slug a file stem `<slug>-<uuid>` names: when the stem
/// ends with `-` and 36 characters that parse as a UUID, those characters are
/// the id and the part before the `-` (if not empty) is the slug; otherwise
/// there is no id and the whole stem (if not empty) is the slug.
pub open spec fn filename_keys(stem: Seq<char>) -> (Option<Seq<char>>, Option<Seq<char>>) {
    let n = stem.len() as int;
    if n >= 37 && stem[n - 37] == '-' && uuid_text(stem.skip(n - 36)) {
        (Some(stem.skip(n - 36)), if n == 37 {
            None
        } else {
            Some(stem.take(n - 37))
        })
    } else {
        (None, if n == 0 {
            None
        } else {
            Some(stem)
        })
    }
}

/// Reads the document id and slug out of an archive file stem (see `filename_keys`).
pub fn parse_doc_filename_keys(stem: &str) -> (r: (Option<String>, Option<String>))
    ensures
        match filename_keys(stem@).0 {
            Some(id) => r.0 matches Some(x) && x@ == id,
            None => r.0 is None,
        },
        match filename_keys(stem@).1 {
            Some(sl) => r.1 matches Some(x) && x@ == sl,
            None => r.1 is None,
        },
{
    let v = chars_of(stem);
    let n = v.len();
    if n >= 37 && v[n - 37] == '-' {
        let cand_v = slice_vec(&v, n - 36, n);
        assert(cand_v@ =~= v@.skip(n - 36));
        let cand = string_of(&cand_v);
        if uuid_parses(cand.as_str()) {
            let slug = if n == 37 {
                None
            } else {
                let head = slice_vec(&v, 0, n - 37);
                assert(head@ =~= v@.take(n - 37));
                Some(string_of(&head))
            };
            return (Some(cand), slug);
        }
    }
    (None, if n == 0 {
        None
    } else {
        Some(stem.to_owned())
    })
}

/// The extension of a file name for type detection: the text after the last `.`
/// (the whole name when there is none), in ASCII lower case.
pub open spec fn mime_ext(filename: Seq<char>) -> Seq<char> {
    filename.skip(find_last(filename, '.') + 1).map_values(|c: char| ascii_lower(c))
}

/// The media type guessed from a file name's extension.
pub open spec fn mime_for(filename: Seq<char>) -> Seq<char> {
    let e = mime_ext(filename);
    if e == "png"@ {
        "image/png"@
    } else if e == "jpg"@ || e == "jpeg"@ {
        "image/jpeg"@
    } else if e == "gif"@ {
        "image/gif"@
    } else if e == "svg"@ {
        "image/svg+xml"@
    } else if e == "pdf"@ {
        "application/pdf"@
    } else if e == "txt"@ {
        "text/plain"@
    } else if e == "md"@ {
        "text/markdown"@
    } else if e == "json"@ {
        "application/json"@
    } else {
        "application/octet-stream"@
    }
}

proof fn lemma_find_last_after(name: Seq<char>, ext: Seq<char>)
    requires
        !ext.contains('.'),
    ensures
        find_last(name + seq!['.'] + ext, '.') == name.len(),
    decreases ext.len(),
{
    let f = name + seq!['.'] + ext;
    if ext.len() == 0 {
        assert(f.last() == '.');
    } else {
        assert(f.last() == ext.last());
        assert(ext.drop_last().len() < ext.len());
        assert(!ext.drop_last().contains('.')) by {
            if ext.drop_last().contains('.') {
                let j = choose|j: int| 0 <= j < ext.drop_last().len() && ext.drop_last()[j] == '.';
                assert(ext[j] == '.');
            }
        }
        assert(ext.last() != '.') by {
            assert(ext[ext.len() - 1] == ext.last());
        }
        assert(f.drop_last() =~= name + seq!['.'] + ext.drop_last());
        lemma_find_last_after(name, ext.drop_last());
    }
}

/// The media type of an attachment is fixed by the extension of its file name,
/// in any letter case: `pdf` is `application/pdf`, `png` `image/png`, `jpg` and
/// `jpeg` `image/jpeg`, `gif` `image/gif`, `svg` `image/svg+xml`, `txt`
/// `text/plain`, `md` `text/markdown`, `json` `application/json`; any other
/// extension gives `application/octet-stream`.
pub proof fn law_mime_by_extension(name: Seq<char>, ext: Seq<char>)
    requires
        !ext.contains('.'),
    ensures
        ({
            let m = mime_for(name + seq!['.'] + ext);
            let e = ext.map_values(|c: char| ascii_lower(c));
            &&& e == "pdf"@ ==> m == "application/pdf"@
            &&& e == "png"@ ==> m == "image/png"@
            &&& (e == "jpg"@ || e == "jpeg"@) ==> m == "image/jpeg"@
            &&& e == "gif"@ ==> m == "image/gif"@
            &&& e == "svg"@ ==> m == "image/svg+xml"@
            &&& e == "txt"@ ==> m == "text/plain"@
            &&& e == "md"@ ==> m == "text/markdown"@
            &&& e == "json"@ ==> m == "application/json"@
            &&& !(e == "pdf"@ || e == "png"@ || e == "jpg"@ || e == "jpeg"@ || e == "gif"@
                || e == "svg"@ || e == "txt"@ || e == "md"@ || e == "json"@) ==> m
                == "application/octet-stream"@
        }),
{
    let f = name + seq!['.'] + ext;
    lemma_find_last_after(name, ext);
    assert(f.skip(name.len() as int + 1) =~= ext);
    assert(mime_ext(f) == ext.map_values(|c: char| ascii_lower(c)));
    reveal_strlit("pdf");
    reveal_strlit("png");
    reveal_strlit("jpg");
    reveal_strlit("jpeg");
    reveal_strlit("gif");
    reveal_strlit("svg");
    reveal_strlit("txt");
    reveal_strlit("md");
    reveal_strlit("json");
    assert("png"@ != "jpg"@) by { assert("png"@[0] != "jpg"@[0]); }
    assert("png"@ != "gif"@) by { assert("png"@[0] != "gif"@[0]); }
    assert("png"@ != "svg"@) by { assert("png"@[0] != "svg"@[0]); }
    assert("png"@ != "pdf"@) by { assert("png"@[1] != "pdf"@[1]); }
    assert("png"@ != "txt"@) by { assert("png"@[0] != "txt"@[0]); }
    assert("jpg"@ != "gif"@) by { assert("jpg"@[0] != "gif"@[0]); }
    assert("jpg"@ != "svg"@) by { assert("jpg"@[0] != "svg"@[0]); }
    assert("jpg"@ != "pdf"@) by { assert("jpg"@[0] != "pdf"@[0]); }
    assert("jpg"@ != "txt"@) by { assert("jpg"@[0] != "txt"@[0]); }
    assert("gif"@ != "svg"@) by { assert("gif"@[0] != "svg"@[0]); }
    assert("gif"@ != "pdf"@) by { assert("gif"@[0] != "pdf"@[0]); }
    assert("gif"@ != "txt"@) by { assert("gif"@[0] != "txt"@[0]); }
    assert("svg"@ != "pdf"@) by { assert("svg"@[0] != "pdf"@[0]); }
    assert("svg"@ != "txt"@) by { assert("svg"@[0] != "txt"@[0]); }
    assert("pdf"@ != "txt"@) by { assert("pdf"@[0] != "txt"@[0]); }
    assert("jpeg"@ != "json"@) by { assert("jpeg"@[1] != "json"@[1]); }
}

/// Guesses the media type of an attachment from its file name (see `mime_for`).
pub fn infer_mime_from_filename(filename: &str) -> (r: &'static str)
    ensures
        r@ == mime_for(filename@),
{
    let v = chars_of(filename);
    let mut i = v.len();
    assert(v@.take(v.len() as int) =~= v@);
    while i > 0 && v[i - 1] != '.'
        invariant
            i <= v.len(),
            v@ == filename@,
            find_last(v@, '.') == find_last(v@.take(i as int), '.'),
        decreases i,
    {
        assert(v@.take(i as int).drop_last() =~= v@.take(i - 1));
        i -= 1;
    }
    assert(v@.take(v.len() as int) =~= v@);
    if i == 0 {
        assert(v@.take(0) =~= Seq::<char>::empty());
    }
    assert(find_last(v@, '.') + 1 == i);
    let mut e: Vec<char> = Vec::new();
    let mut k = i;
    while k < v.len()
        invariant
            i <= k <= v.len(),
            e@ == v@.subrange(i as int, k as int).map_values(|c: char| ascii_lower(c)),
        decreases v.len() - k,
    {
        e.push(to_ascii_lower(v[k]));
        assert(v@.subrange(i as int, k + 1) =~= v@.subrange(i as int, k as int).push(v@[k as int]));
        assert(e@ =~= v@.subrange(i as int, k + 1).map_values(|c: char| ascii_lower(c)));
        k += 1;
    }
    assert(v@.subrange(i as int, v.len() as int) =~= v@.skip(i as int));
    let ext = string_of(&e);
    let x = ext.as_str();
    if crate::text::str_eq(x, "png") {
        "image/png"
    } else if crate::text::str_eq(x, "jpg") || crate::text::str_eq(x, "jpeg") {
        "image/jpeg"
    } else if crate::text::str_eq(x, "gif") {
        "image/gif"
    } else if crate::text::str_eq(x, "svg") {
        "image/svg+xml"
    } else if crate::text::str_eq(x, "pdf") {
        "application/pdf"
    } else if crate::text::str_eq(x, "txt") {
        "text/plain"
    } else if crate::text::str_eq(x, "md") {
        "text/markdown"
    } else if crate::text::str_eq(x, "json") {
        "application/json"
    } else {
        "application/octet-stream"
    }
}

} // verus!
