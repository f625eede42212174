//! Reading an export archive: what each entry is, and how the documents of
//! `docs.json` receive their versions, their bodies from `docs/*.md` and their
//! attachments from `attachments/<doc>/<file>`.
use vstd::prelude::*;
use crate::export::{filename_keys, parse_doc_filename_keys, sanitize_slug_for_filename, sanitized_slug};
use crate::import::{DocAttachmentImport, DocImportRow, DocVersionImport};
use crate::keyed::KeyedList;
use crate::paths::{path_file_stem, path_file_stem_result};
use crate::text::{
    chars_of, find_char, find_char_from, has_prefix, has_suffix, prefix_before, slice_vec,
    str_ends_with, str_eq, str_starts_with, string_of,
};

verus! {

// ===== Entries =====

/// What an archive entry holds, by its name.
#[derive(Debug)]
pub enum ArchiveEntry {
    /// `docs.json`: the documents.
    DocsJson,
    /// `versions.json`: the versions of the documents.
    VersionsJson,
    /// `attachments/<ident>/<filename>`: an attachment of the document `ident`.
    Attachment { ident: String, filename: String },
    /// `docs/*.md`: the body of a document.
    DocBody,
    /// Anything else, or an attachment path without document or file name.
    Other,
}

/// `s` with every leading copy of `p` removed (`str::trim_start_matches`).
pub open spec fn strip_prefixes(s: Seq<char>, p: Seq<char>) -> Seq<char>
    decreases s.len(),
{
    if p.len() > 0 && has_prefix(s, p) {
        strip_prefixes(s.skip(p.len() as int), p)
    } else {
        s
    }
}

/// The part of an attachment path after the first `/` (empty when there is none).
pub open spec fn after_slash(s: Seq<char>) -> Seq<char> {
    let k = find_char_from(s, '/', 0);
    if k < 0 {
        seq![]
    } else {
        s.skip(k + 1)
    }
}

/// The kind of an archive entry by its name.
pub open spec fn entry_kind(name: Seq<char>) -> int {
    if name == "docs.json"@ {
        0
    } else if name == "versions.json"@ {
        1
    } else if has_prefix(name, "attachments/"@) {
        let rel = strip_prefixes(name, "attachments/"@);
        if prefix_before(rel, '/').len() > 0 && after_slash(rel).len() > 0 {
            2
        } else {
            4
        }
    } else if has_prefix(name, "docs/"@) && has_suffix(name, ".md"@) {
        3
    } else {
        4
    }
}

fn strip_all_prefixes(s: &Vec<char>, p: &Vec<char>) -> (r: Vec<char>)
    ensures
        r@ == strip_prefixes(s@, p@),
{
    let mut cur = slice_vec(s, 0, s.len());
    assert(cur@ =~= s@);
    if p.len() == 0 {
        return cur;
    }
    while crate::text::starts_with_chars(&cur, p)
        invariant
            p@.len() > 0,
            strip_prefixes(cur@, p@) == strip_prefixes(s@, p@),
        decreases cur@.len(),
    {
        let next = slice_vec(&cur, p.len(), cur.len());
        assert(next@ =~= cur@.skip(p@.len() as int));
        cur = next;
    }
    cur
}

/// Tells what an archive entry holds (see `entry_kind`: 0 documents, 1 versions,
/// 2 attachment, 3 body, 4 other).
pub fn classify_archive_entry(name: &str) -> (e: ArchiveEntry)
    ensures
        entry_kind(name@) == 0 <==> e is DocsJson,
        entry_kind(name@) == 1 <==> e is VersionsJson,
        entry_kind(name@) == 2 <==> e is Attachment,
        entry_kind(name@) == 3 <==> e is DocBody,
        entry_kind(name@) == 4 <==> e is Other,
        e matches ArchiveEntry::Attachment { ident, filename } ==> {
            let rel = strip_prefixes(name@, "attachments/"@);
            &&& ident@ == prefix_before(rel, '/')
            &&& filename@ == after_slash(rel)
        },
{
    if str_eq(name, "docs.json") {
        return ArchiveEntry::DocsJson;
    }
    if str_eq(name, "versions.json") {
        return ArchiveEntry::VersionsJson;
    }
    if str_starts_with(name, "attachments/") {
        let v = chars_of(name);
        let p = chars_of("attachments/");
        let rel = strip_all_prefixes(&v, &p);
        let (ident, filename) = match find_char(&rel, '/', 0) {
            Some(k) => {
                let a = slice_vec(&rel, 0, k);
                let b = slice_vec(&rel, k + 1, rel.len());
                assert(b@ =~= rel@.skip(k + 1));
                (a, b)
            },
            None => {
                let a = slice_vec(&rel, 0, rel.len());
                (a, Vec::new())
            },
        };
        assert(ident@ =~= prefix_before(rel@, '/'));
        assert(filename@ =~= after_slash(rel@));
        if ident.len() == 0 || filename.len() == 0 {
            return ArchiveEntry::Other;
        }
        return ArchiveEntry::Attachment { ident: string_of(&ident), filename: string_of(&filename) };
    }
    if str_starts_with(name, "docs/") && str_ends_with(name, ".md") {
        return ArchiveEntry::DocBody;
    }
    ArchiveEntry::Other
}

// ===== Assembly =====

/// The body of a document read from `docs/<stem>.md`.
pub struct ArchiveBody {
    pub stem: String,
    pub body: String,
}

/// An attachment read from the archive, with the keys of the document it belongs to.
pub struct PendingAttachment {
    pub id_key: Option<String>,
    pub slug_key: String,
    pub attachment: DocAttachmentImport,
}

/// The versions of one document as `versions.json` lists them.
pub struct VersionBundle {
    pub doc_id: String,
    pub versions: Vec<DocVersionImport>,
}

/// An attachment read from `attachments/<ident>/<filename>`: its document is
/// named by the keys of `ident` (see `filename_keys`), the slug key falling back
/// to `ident`; its encoding is `binary`. An empty attachment gives none.
pub fn pending_attachment(ident: String, filename: String, bytes: Vec<u8>) -> (r: Option<PendingAttachment>)
    ensures
        bytes@.len() == 0 <==> r is None,
        r matches Some(p) ==> {
            &&& key_view(p.id_key) == filename_keys(ident@).0
            &&& p.slug_key@ == (match filename_keys(ident@).1 {
                Some(s) => s,
                None => ident@,
            })
            &&& p.attachment.filename == filename
            &&& p.attachment.mime is None
            &&& p.attachment.encoding matches Some(e) && e@ == "binary"@
            &&& p.attachment.data_base64 is None
            &&& p.attachment.bytes == bytes
        },
{
    if bytes.len() == 0 {
        return None;
    }
    let (id_key, hint) = parse_doc_filename_keys(ident.as_str());
    let slug_key = match hint {
        Some(h) => h,
        None => ident,
    };
    Some(
        PendingAttachment {
            id_key,
            slug_key,
            attachment: DocAttachmentImport {
                filename,
                mime: None,
                encoding: Some("binary".to_owned()),
                data_base64: None,
                bytes,
            },
        },
    )
}

/// The state threaded through the documents: the version lists not yet used
/// (by document id), the bodies not yet used (by id and by slug key), and the
/// positions of the documents by id and by file-name slug.
pub type AssemblyState = (
    Map<Seq<char>, Vec<DocVersionImport>>,
    Map<Seq<char>, String>,
    Map<Seq<char>, String>,
    Map<Seq<char>, usize>,
    Map<Seq<char>, usize>,
);

/// The version lists by document id, later bundles replacing earlier ones.
pub open spec fn bundle_map(bundles: Seq<VersionBundle>) -> Map<Seq<char>, Vec<DocVersionImport>>
    decreases bundles.len(),
{
    if bundles.len() == 0 {
        Map::empty()
    } else {
        bundle_map(bundles.drop_last()).insert(bundles.last().doc_id@, bundles.last().versions)
    }
}

/// The bodies by document id and by slug key, later bodies replacing earlier ones;
/// a body with an empty stem or an empty text is skipped.
pub open spec fn body_maps(bodies: Seq<ArchiveBody>) -> (Map<Seq<char>, String>, Map<Seq<char>, String>)
    decreases bodies.len(),
{
    if bodies.len() == 0 {
        (Map::empty(), Map::empty())
    } else {
        let (bid, bslug) = body_maps(bodies.drop_last());
        let b = bodies.last();
        if b.stem@.len() == 0 || b.body@.len() == 0 {
            (bid, bslug)
        } else {
            let keys = filename_keys(b.stem@);
            let bid2 = match keys.0 {
                Some(k) => bid.insert(k, b.body),
                None => bid,
            };
            let skey = match keys.1 {
                Some(s) => s,
                None => b.stem@,
            };
            (bid2, if skey.len() > 0 {
                bslug.insert(skey, b.body)
            } else {
                bslug
            })
        }
    }
}

/// The key under which a document's versions are looked up: its id, or the empty text.
pub open spec fn version_key(d: DocImportRow) -> Seq<char> {
    match d.id {
        Some(x) => x@,
        None => seq![],
    }
}

/// A document with a new version list.
pub open spec fn set_versions(d: DocImportRow, v: Vec<DocVersionImport>) -> DocImportRow {
    DocImportRow {
        id: d.id,
        repo_id: d.repo_id,
        slug: d.slug,
        title: d.title,
        body: d.body,
        is_deleted: d.is_deleted,
        updated_at: d.updated_at,
        versions: Some(v),
        attachments: d.attachments,
    }
}

/// A document with a new body.
pub open spec fn set_body(d: DocImportRow, b: String) -> DocImportRow {
    DocImportRow {
        id: d.id,
        repo_id: d.repo_id,
        slug: d.slug,
        title: d.title,
        body: Some(b),
        is_deleted: d.is_deleted,
        updated_at: d.updated_at,
        versions: d.versions,
        attachments: d.attachments,
    }
}

/// Whether a document already carries a non-empty body.
pub open spec fn has_body(d: DocImportRow) -> bool {
    d.body matches Some(b) && b@.len() > 0
}

/// One document at position `idx`: it takes the versions listed for its id; it is
/// indexed by id and by file-name slug; without a body of its own it takes the
/// body named by its id, else by its file-name slug, else the import fails.
pub open spec fn doc_step(d: DocImportRow, idx: usize, st: AssemblyState) -> Result<
    (DocImportRow, AssemblyState),
    Seq<char>,
> {
    let (vm, bid, bslug, ii, si) = st;
    let key = version_key(d);
    let d1 = if vm.contains_key(key) {
        set_versions(d, vm[key])
    } else {
        d
    };
    let vm1 = vm.remove(key);
    let ii1 = match d.id {
        Some(x) => ii.insert(x@, idx),
        None => ii,
    };
    let skey = sanitized_slug(d.slug@);
    let si1 = si.insert(skey, idx);
    if has_body(d) {
        Ok((d1, (vm1, bid, bslug, ii1, si1)))
    } else if d.id is Some && bid.contains_key(d.id->0@) {
        Ok((set_body(d1, bid[d.id->0@]), (vm1, bid.remove(d.id->0@), bslug, ii1, si1)))
    } else if bslug.contains_key(skey) {
        Ok((set_body(d1, bslug[skey]), (vm1, bid, bslug.remove(skey), ii1, si1)))
    } else {
        Err("doc "@ + d.slug@ + " missing body in docs.json and docs/*.md"@)
    }
}

/// The documents after versions and bodies are given, with the final state;
/// the first document without a body makes it fail.
pub open spec fn process_docs(docs: Seq<DocImportRow>, st: AssemblyState) -> Result<
    (Seq<DocImportRow>, AssemblyState),
    Seq<char>,
>
    decreases docs.len(),
{
    if docs.len() == 0 {
        Ok((seq![], st))
    } else {
        match process_docs(docs.drop_last(), st) {
            Err(e) => Err(e),
            Ok((out, st1)) => match doc_step(docs.last(), out.len() as usize, st1) {
                Err(e) => Err(e),
                Ok((d, st2)) => Ok((out.push(d), st2)),
            },
        }
    }
}

/// The position of the document an attachment belongs to: by its id key if
/// that names a document, else by its slug key.
pub open spec fn att_target(
    id_key: Option<Seq<char>>,
    slug_key: Seq<char>,
    ii: Map<Seq<char>, usize>,
    si: Map<Seq<char>, usize>,
) -> Option<usize> {
    if id_key is Some && ii.contains_key(id_key->0) {
        Some(ii[id_key->0])
    } else if si.contains_key(slug_key) {
        Some(si[slug_key])
    } else {
        None
    }
}

/// The view of an optional key.
pub open spec fn key_view(o: Option<String>) -> Option<Seq<char>> {
    match o {
        Some(s) => Some(s@),
        None => None,
    }
}

/// The attachments, in order, that belong to the document at position `i`.
pub open spec fn attachments_for(
    pending: Seq<PendingAttachment>,
    ii: Map<Seq<char>, usize>,
    si: Map<Seq<char>, usize>,
    i: int,
) -> Seq<DocAttachmentImport>
    decreases pending.len(),
{
    if pending.len() == 0 {
        seq![]
    } else {
        let p = pending.last();
        attachments_for(pending.drop_last(), ii, si, i) + (if att_target(
            key_view(p.id_key),
            p.slug_key@,
            ii,
            si,
        ) matches Some(t) && t == i {
            seq![p.attachment]
        } else {
            seq![]
        })
    }
}

/// The number of attachments that go to the documents at positions below `n`.
pub open spec fn delivered(
    pending: Seq<PendingAttachment>,
    ii: Map<Seq<char>, usize>,
    si: Map<Seq<char>, usize>,
    n: int,
) -> int
    decreases n,
{
    if n <= 0 {
        0
    } else {
        delivered(pending, ii, si, n - 1) + attachments_for(pending, ii, si, n - 1).len()
    }
}

/// The number of positions below `n` that are `t`: one when `t` lies below `n`.
spec fn hits(t: Option<usize>, n: int) -> int
    decreases n,
{
    if n <= 0 {
        0
    } else {
        hits(t, n - 1) + if t matches Some(x) && x == n - 1 {
            1int
        } else {
            0int
        }
    }
}

proof fn lemma_hits(t: Option<usize>, n: int)
    requires
        n >= 0,
    ensures
        hits(t, n) == if t matches Some(x) && x < n {
            1int
        } else {
            0int
        },
    decreases n,
{
    if n > 0 {
        lemma_hits(t, n - 1);
    }
}

proof fn lemma_delivered_step(
    pending: Seq<PendingAttachment>,
    ii: Map<Seq<char>, usize>,
    si: Map<Seq<char>, usize>,
    n: int,
)
    requires
        pending.len() > 0,
        n >= 0,
    ensures
        delivered(pending, ii, si, n) == delivered(pending.drop_last(), ii, si, n) + hits(
            att_target(key_view(pending.last().id_key), pending.last().slug_key@, ii, si),
            n,
        ),
    decreases n,
{
    if n > 0 {
        lemma_delivered_step(pending, ii, si, n - 1);
    }
}

/// No attachment is lost or doubled: when each attachment belongs to one of the
/// `n` documents, the documents receive, all together, exactly as many
/// attachments as the archive holds.
pub proof fn law_attachments_conserved(
    pending: Seq<PendingAttachment>,
    ii: Map<Seq<char>, usize>,
    si: Map<Seq<char>, usize>,
    n: int,
)
    requires
        n >= 0,
        forall|j: int|
            0 <= j < pending.len() ==> (#[trigger] att_target(
                key_view(pending[j].id_key),
                pending[j].slug_key@,
                ii,
                si,
            ) matches Some(x) && x < n),
    ensures
        delivered(pending, ii, si, n) == pending.len(),
    decreases pending.len(),
{
    if pending.len() == 0 {
        lemma_delivered_empty(pending, ii, si, n);
    } else {
        let p = pending.drop_last();
        assert forall|j: int| 0 <= j < p.len() implies (#[trigger] att_target(
            key_view(p[j].id_key),
            p[j].slug_key@,
            ii,
            si,
        ) matches Some(x) && x < n) by {
            assert(p[j] == pending[j]);
        }
        law_attachments_conserved(p, ii, si, n);
        lemma_delivered_step(pending, ii, si, n);
        let last = pending.len() - 1;
        assert(pending.last() == pending[last]);
        lemma_hits(att_target(key_view(pending[last].id_key), pending[last].slug_key@, ii, si), n);
    }
}

proof fn lemma_delivered_empty(
    pending: Seq<PendingAttachment>,
    ii: Map<Seq<char>, usize>,
    si: Map<Seq<char>, usize>,
    n: int,
)
    requires
        pending.len() == 0,
    ensures
        delivered(pending, ii, si, n) == 0,
    decreases n,
{
    if n > 0 {
        lemma_delivered_empty(pending, ii, si, n - 1);
    }
}

/// Whether every attachment belongs to some document.
pub open spec fn all_matched(
    pending: Seq<PendingAttachment>,
    ii: Map<Seq<char>, usize>,
    si: Map<Seq<char>, usize>,
) -> bool {
    forall|j: int|
        0 <= j < pending.len() ==> att_target(
            key_view(pending[j].id_key),
            pending[j].slug_key@,
            ii,
            si,
        ) is Some
}

/// Whether `new` is `old` with the attachments `extra` appended.
pub open spec fn with_extra(new: DocImportRow, old: DocImportRow, extra: Seq<DocAttachmentImport>) -> bool {
    &&& new.id == old.id && new.repo_id == old.repo_id && new.slug == old.slug
    &&& new.title == old.title && new.body == old.body && new.is_deleted == old.is_deleted
    &&& new.updated_at == old.updated_at && new.versions == old.versions
    &&& if extra.len() == 0 {
        new.attachments == old.attachments
    } else {
        new.attachments matches Some(v) && v@ == (match old.attachments {
            Some(w) => w@,
            None => Seq::<DocAttachmentImport>::empty(),
        }) + extra
    }
}

/// The state before the first document: the version lists and the bodies, no
/// document indexed yet.
pub open spec fn initial_state(bundles: Option<Vec<VersionBundle>>, bodies: Seq<ArchiveBody>) -> AssemblyState {
    let vm = match bundles {
        Some(b) => bundle_map(b@),
        None => Map::empty(),
    };
    let (bid, bslug) = body_maps(bodies);
    (vm, bid, bslug, Map::empty(), Map::empty())
}

/// Whether `j` is the first attachment that belongs to no document.
pub open spec fn first_unmatched(
    pending: Seq<PendingAttachment>,
    ii: Map<Seq<char>, usize>,
    si: Map<Seq<char>, usize>,
    j: int,
) -> bool {
    &&& 0 <= j < pending.len()
    &&& att_target(key_view(pending[j].id_key), pending[j].slug_key@, ii, si) is None
    &&& forall|k: int|
        0 <= k < j ==> att_target(key_view(pending[k].id_key), pending[k].slug_key@, ii, si) is Some
}

/// The version lists of `versions.json` by document id.
fn version_lists(bundles: Vec<VersionBundle>) -> (m: KeyedList<Vec<DocVersionImport>>)
    ensures
        m@ == bundle_map(bundles@),
{
    let ghost orig = bundles@;
    let mut m: KeyedList<Vec<DocVersionImport>> = KeyedList::new();
    for b in it: bundles
        invariant
            it.seq() == orig,
            m@ == bundle_map(orig.take(it.index() as int)),
    {
        proof {
            let k = it.index() as int;
            assert(orig.take(k + 1).drop_last() =~= orig.take(k));
        }
        m.insert(b.doc_id, b.versions);
    }
    proof {
        assert(orig.take(orig.len() as int) =~= orig);
    }
    m
}

/// The bodies of `docs/*.md` by document id and by slug key.
fn body_lists(bodies: Vec<ArchiveBody>) -> (r: (KeyedList<String>, KeyedList<String>))
    ensures
        (r.0@, r.1@) == body_maps(bodies@),
{
    let ghost orig = bodies@;
    let mut bid: KeyedList<String> = KeyedList::new();
    let mut bslug: KeyedList<String> = KeyedList::new();
    for b in it: bodies
        invariant
            it.seq() == orig,
            (bid@, bslug@) == body_maps(orig.take(it.index() as int)),
    {
        proof {
            let k = it.index() as int;
            assert(orig.take(k + 1).drop_last() =~= orig.take(k));
        }
        if !b.stem.as_str().is_empty() && !b.body.as_str().is_empty() {
            let (id_key, hint) = parse_doc_filename_keys(b.stem.as_str());
            if let Some(id) = id_key {
                bid.insert(id, b.body.clone());
            }
            let skey = match hint {
                Some(h) => h,
                None => b.stem,
            };
            if !skey.as_str().is_empty() {
                bslug.insert(skey, b.body);
            }
        }
    }
    proof {
        assert(orig.take(orig.len() as int) =~= orig);
    }
    (bid, bslug)
}

/// The message of a document that has no body anywhere.
fn missing_body_message(slug: &str) -> (m: String)
    ensures
        m@ == "doc "@ + slug@ + " missing body in docs.json and docs/*.md"@,
{
    let mut m = "doc ".to_owned();
    m.append(slug);
    m.append(" missing body in docs.json and docs/*.md");
    m
}

/// The message of an attachment that belongs to no document.
fn unmatched_message(slug_key: &str) -> (m: String)
    ensures
        m@ == "attachment for key "@ + slug_key@ + " not matched to doc"@,
{
    let mut m = "attachment for key ".to_owned();
    m.append(slug_key);
    m.append(" not matched to doc");
    m
}

/// Whether every body of a map is a non-empty text.
pub open spec fn bodies_nonempty(m: Map<Seq<char>, String>) -> bool {
    forall|k: Seq<char>| #[trigger] m.contains_key(k) ==> m[k]@.len() > 0
}

proof fn lemma_body_maps_nonempty(bodies: Seq<ArchiveBody>)
    ensures
        bodies_nonempty(body_maps(bodies).0),
        bodies_nonempty(body_maps(bodies).1),
    decreases bodies.len(),
{
    if bodies.len() > 0 {
        lemma_body_maps_nonempty(bodies.drop_last());
    }
}

proof fn lemma_process_bodies(
    docs: Seq<DocImportRow>,
    st: AssemblyState,
    out: Seq<DocImportRow>,
    fin: AssemblyState,
)
    requires
        bodies_nonempty(st.1),
        bodies_nonempty(st.2),
        process_docs(docs, st) == Ok::<(Seq<DocImportRow>, AssemblyState), Seq<char>>((out, fin)),
    ensures
        forall|i: int| 0 <= i < out.len() ==> has_body(#[trigger] out[i]),
        bodies_nonempty(fin.1),
        bodies_nonempty(fin.2),
    decreases docs.len(),
{
    if docs.len() > 0 {
        match process_docs(docs.drop_last(), st) {
            Err(_) => {},
            Ok((o1, s1)) => {
                lemma_process_bodies(docs.drop_last(), st, o1, s1);
                match doc_step(docs.last(), o1.len() as usize, s1) {
                    Err(_) => {},
                    Ok((d2, s2)) => {
                        assert(has_body(d2));
                        assert(out == o1.push(d2));
                        assert forall|i: int| 0 <= i < out.len() implies has_body(#[trigger] out[i]) by {
                            if i < o1.len() {
                                assert(out[i] == o1[i]);
                            }
                        }
                    },
                }
            },
        }
    }
}

proof fn lemma_process_prefix_err(docs: Seq<DocImportRow>, st: AssemblyState, n: int)
    requires
        0 <= n <= docs.len(),
        process_docs(docs.take(n), st) is Err,
    ensures
        process_docs(docs, st) == process_docs(docs.take(n), st),
    decreases docs.len(),
{
    if n == docs.len() {
        assert(docs.take(n) =~= docs);
    } else {
        assert(docs.drop_last().take(n) =~= docs.take(n));
        lemma_process_prefix_err(docs.drop_last(), st, n);
    }
}

/// What assembling `docs` with the version lists, bodies and attachments of an
/// archive gives (see `assemble_archive_docs`).
pub open spec fn assembly_result(
    docs: Seq<DocImportRow>,
    bundles: Option<Vec<VersionBundle>>,
    bodies: Seq<ArchiveBody>,
    pending: Seq<PendingAttachment>,
    r: Result<Vec<DocImportRow>, String>,
) -> bool {
    match process_docs(docs, initial_state(bundles, bodies)) {
        Err(e) => r matches Err(m) && m@ == e,
        Ok((out, st)) => if all_matched(pending, st.3, st.4) {
            &&& r matches Ok(res)
            &&& res@.len() == out.len()
            &&& forall|i: int|
                0 <= i < out.len() ==> with_extra(
                    res@[i],
                    out[i],
                    attachments_for(pending, st.3, st.4, i),
                )
        } else {
            &&& r matches Err(m)
            &&& exists|j: int|
                first_unmatched(pending, st.3, st.4, j) && m@ == "attachment for key "@
                    + pending[j].slug_key@ + " not matched to doc"@
        },
    }
}

/// Completes the documents of an archive. Each document takes the version list
/// given for its id; one without a body of its own takes the body named by its id,
/// else by its file-name slug, and the first that finds none fails the whole
/// import. Then each attachment, in order, is appended to the document named by
/// its id key, else by its slug key; the first that names no document fails it.
#[verifier::spinoff_prover]
pub fn assemble_archive_docs(
    docs: Vec<DocImportRow>,
    bundles: Option<Vec<VersionBundle>>,
    bodies: Vec<ArchiveBody>,
    pending: Vec<PendingAttachment>,
) -> (r: Result<Vec<DocImportRow>, String>)
    ensures
        assembly_result(docs@, bundles, bodies@, pending@, r),
        r matches Ok(res) ==> forall|i: int| 0 <= i < res@.len() ==> has_body(#[trigger] res@[i]),
{
    let ghost st0 = initial_state(bundles, bodies@);
    let ghost orig = docs@;
    let mut vm: KeyedList<Vec<DocVersionImport>> = match bundles {
        Some(b) => version_lists(b),
        None => KeyedList::new(),
    };
    let (mut bid, mut bslug) = body_lists(bodies);
    let mut ii: KeyedList<usize> = KeyedList::new();
    let mut si: KeyedList<usize> = KeyedList::new();
    let mut out: Vec<DocImportRow> = Vec::new();
    proof {
        reveal_strlit("");
        assert(orig.take(0) =~= Seq::<DocImportRow>::empty());
    }
    for d in it: docs
        invariant
            it.seq() == orig,
            st0 == initial_state(bundles, bodies@),
            out@.len() == it.index(),
            process_docs(orig.take(it.index() as int), st0) == Ok::<
                (Seq<DocImportRow>, AssemblyState),
                Seq<char>,
            >((out@, (vm@, bid@, bslug@, ii@, si@))),
            forall|k: Seq<char>| #[trigger] ii@.contains_key(k) ==> ii@[k] < out@.len(),
            forall|k: Seq<char>| #[trigger] si@.contains_key(k) ==> si@[k] < out@.len(),
    {
        let ghost k = it.index() as int;
        let ghost d0 = d;
        let ghost stk: AssemblyState = (vm@, bid@, bslug@, ii@, si@);
        proof {
            reveal_strlit("");
            assert(orig.take(k + 1).drop_last() =~= orig.take(k));
            assert(orig.take(k + 1).last() == d0);
        }
        let mut d = d;
        let idx = out.len();
        let found = match &d.id {
            Some(x) => vm.remove(x.as_str()),
            None => vm.remove(""),
        };
        proof {
            assert(""@ =~= Seq::<char>::empty());
            assert(vm@ =~= stk.0.remove(version_key(d0)));
        }
        if let Some(v) = found {
            d.versions = Some(v);
        }
        assert(d == (if stk.0.contains_key(version_key(d0)) {
            set_versions(d0, stk.0[version_key(d0)])
        } else {
            d0
        }));
        if let Some(x) = &d.id {
            ii.insert(x.clone(), idx);
        }
        let skey = sanitize_slug_for_filename(d.slug.as_str());
        si.insert(skey.clone(), idx);
        let own_body = match &d.body {
            Some(b) => !b.as_str().is_empty(),
            None => false,
        };
        if !own_body {
            let mut body: Option<String> = None;
            if let Some(x) = &d.id {
                body = bid.remove(x.as_str());
            }
            if body.is_none() {
                body = bslug.remove(skey.as_str());
            }
            match body {
                Some(b) => {
                    d.body = Some(b);
                },
                None => {
                    let m = missing_body_message(d.slug.as_str());
                    proof {
                        assert(process_docs(orig.take(k + 1), st0) is Err);
                        lemma_process_prefix_err(orig, st0, k + 1);
                    }
                    return Err(m);
                },
            }
        }
        proof {
            let step = doc_step(d0, idx, stk);
            assert(step is Ok);
            let (dd, s2) = step->Ok_0;
            assert(dd == d);
            assert(s2.0 =~= vm@);
            assert(s2.1 =~= bid@);
            assert(s2.2 =~= bslug@);
            assert(s2.3 =~= ii@);
            assert(s2.4 =~= si@);
        }
        out.push(d);
    }
    proof {
        assert(orig.take(orig.len() as int) =~= orig);
    }
    let ghost outs = out@;
    let ghost fin: AssemblyState = (vm@, bid@, bslug@, ii@, si@);
    let ghost iim = ii@;
    let ghost sim = si@;
    let ghost pend = pending@;
    let mut res = out;
    proof {
        assert(pend.take(0) =~= Seq::<PendingAttachment>::empty());
        assert forall|i: int| 0 <= i < outs.len() implies with_extra(
            res@[i],
            outs[i],
            attachments_for(pend.take(0), iim, sim, i),
        ) by {}
    }
    for p in pit: pending
        invariant
            pit.seq() == pend,
            pend == pending@,
            orig == docs@,
            st0 == initial_state(bundles, bodies@),
            process_docs(orig, st0) == Ok::<(Seq<DocImportRow>, AssemblyState), Seq<char>>(
                (outs, fin),
            ),
            fin.3 == iim,
            fin.4 == sim,
            res@.len() == outs.len(),
            ii@ == iim,
            si@ == sim,
            forall|k: Seq<char>| #[trigger] iim.contains_key(k) ==> iim[k] < outs.len(),
            forall|k: Seq<char>| #[trigger] sim.contains_key(k) ==> sim[k] < outs.len(),
            forall|k: int|
                0 <= k < pit.index() ==> #[trigger] att_target(
                    key_view(pend[k].id_key),
                    pend[k].slug_key@,
                    iim,
                    sim,
                ) is Some,
            forall|i: int|
                0 <= i < outs.len() ==> with_extra(
                    #[trigger] res@[i],
                    outs[i],
                    attachments_for(pend.take(pit.index() as int), iim, sim, i),
                ),
    {
        let ghost j = pit.index() as int;
        proof {
            assert(pend.take(j + 1).drop_last() =~= pend.take(j));
            assert(pend.take(j + 1).last() == p);
        }
        let mut target: Option<usize> = None;
        if let Some(x) = &p.id_key {
            target = ii.get(x.as_str());
        }
        if target.is_none() {
            target = si.get(p.slug_key.as_str());
        }
        proof {
            if target is Some {
                assert(att_target(key_view(p.id_key), p.slug_key@, iim, sim) == target);
            } else {
                assert(att_target(key_view(p.id_key), p.slug_key@, iim, sim) is None);
            }
        }
        match target {
            None => {
                proof {
                    assert(first_unmatched(pend, iim, sim, j));
                }
                return Err(unmatched_message(p.slug_key.as_str()));
            },
            Some(t) => {
                let ghost before = res@;
                let slot = &mut res[t];
                let ghost row0 = *slot;
                let mut list = match slot.attachments.take() {
                    Some(v) => v,
                    None => Vec::new(),
                };
                let ghost prior = list@;
                list.push(p.attachment);
                let ghost lv = list@;
                slot.attachments = Some(list);
                proof {
                    assert(row0 == before[t as int]);
                    assert(prior == (match row0.attachments {
                        Some(w) => w@,
                        None => Seq::<DocAttachmentImport>::empty(),
                    }));
                    assert(lv == prior.push(p.attachment));
                }
                assert(res@[t as int].attachments matches Some(v) && v@ == lv);
                proof {
                    assert forall|i: int| 0 <= i < outs.len() implies with_extra(
                        #[trigger] res@[i],
                        outs[i],
                        attachments_for(pend.take(j + 1), iim, sim, i),
                    ) by {
                        let e0 = attachments_for(pend.take(j), iim, sim, i);
                        if i == t as int {
                            assert(with_extra(before[i], outs[i], e0));
                            assert(attachments_for(pend.take(j + 1), iim, sim, i) =~= e0.push(
                                p.attachment,
                            ));
                            let base = match outs[i].attachments {
                                Some(w) => w@,
                                None => Seq::<DocAttachmentImport>::empty(),
                            };
                            assert(lv =~= base + e0.push(p.attachment));
                            assert(res@[i].id == outs[i].id && res@[i].repo_id == outs[i].repo_id);
                            assert(res@[i].title == outs[i].title && res@[i].body == outs[i].body);
                            assert(res@[i].is_deleted == outs[i].is_deleted);
                            assert(res@[i].updated_at == outs[i].updated_at);
                            assert(res@[i].versions == outs[i].versions);
                        } else {
                            assert(res@[i] == before[i]);
                            assert(attachments_for(pend.take(j + 1), iim, sim, i) =~= e0);
                        }
                    }
                }
            },
        }
    }
    proof {
        assert(pend.take(pend.len() as int) =~= pend);
        lemma_body_maps_nonempty(bodies@);
        lemma_process_bodies(orig, st0, outs, fin);
        assert forall|i: int| 0 <= i < res@.len() implies has_body(#[trigger] res@[i]) by {
            assert(has_body(outs[i]));
            assert(with_extra(res@[i], outs[i], attachments_for(pend, iim, sim, i)));
        }
    }
    Ok(res)
}

/// The documents of a read archive: an archive without a `docs.json` entry is
/// refused; otherwise its documents are assembled (see `assemble_archive_docs`).
pub fn docs_from_archive_parts(
    docs: Option<Vec<DocImportRow>>,
    bundles: Option<Vec<VersionBundle>>,
    bodies: Vec<ArchiveBody>,
    pending: Vec<PendingAttachment>,
) -> (r: Result<Vec<DocImportRow>, String>)
    ensures
        match docs {
            None => r matches Err(m) && m@ == "docs.json missing from archive"@,
            Some(d) => assembly_result(d@, bundles, bodies@, pending@, r),
        },
        r matches Ok(res) ==> forall|i: int| 0 <= i < res@.len() ==> has_body(#[trigger] res@[i]),
{
    match docs {
        None => Err("docs.json missing from archive".to_string()),
        Some(d) => assemble_archive_docs(d, bundles, bodies, pending),
    }
}

/// The body read from a `docs/*.md` entry, named by the entry's file stem; an
/// empty entry or one without a stem gives none.
pub fn archive_body(name: &str, body: String) -> (r: Option<ArchiveBody>)
    ensures
        body@.len() == 0 ==> r is None,
        body@.len() > 0 ==> match path_file_stem_result(name@) {
            Some(stem) => if stem.len() > 0 {
                r matches Some(b) && b.stem@ == stem && b.body == body
            } else {
                r is None
            },
            None => r is None,
        },
{
    if body.as_str().is_empty() {
        return None;
    }
    match path_file_stem(name) {
        Some(stem) => {
            if stem.as_str().is_empty() {
                None
            } else {
                Some(ArchiveBody { stem, body })
            }
        },
        None => None,
    }
}

} // verus!
