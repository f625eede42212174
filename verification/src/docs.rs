//! Document versions: the scoped version hash `{doc_id}:{content_hash}` and the
//! size and line count recorded for a body.
use vstd::prelude::*;
use crate::ai::opt_view;
use crate::text::{chars_of, seq_views, split_lines, str_eq, text_lines, utf8_len};

verus! {

/// What `blake3::hash(text.as_bytes()).to_hex()` gives for a text.
pub uninterp spec fn blake3_hex_of(text: Seq<char>) -> Seq<char>;

/// Whether a character is a lower-case hexadecimal digit.
pub open spec fn is_lower_hex(c: char) -> bool {
    ('0' <= c && c <= '9') || ('a' <= c && c <= 'f')
}

/// `blake3::hash` of the UTF-8 bytes of a text, as lower-case hex
/// (`Hash::to_hex`). The contract names the result and states what the crate's
/// source shows of its form: 64 lower-case hexadecimal digits.
#[verifier::external_body]
pub(crate) fn blake3_hex(text: &str) -> (r: String)
    ensures
        r@ == blake3_hex_of(text@),
        r@.len() == 64,
        forall|i: int| 0 <= i < r@.len() ==> is_lower_hex(#[trigger] r@[i]),
{
    blake3::hash(text.as_bytes()).to_hex().to_string()
}

/// The version hash of a body in a document: the document id, a colon and the
/// BLAKE3 hash of the body, so equal bodies of different documents never collide.
pub open spec fn version_hash(doc_id: Seq<char>, body: Seq<char>) -> Seq<char> {
    doc_id + ":"@ + blake3_hex_of(body)
}

/// Computes the version hash of a body in a document (see `version_hash`).
pub fn doc_version_hash(doc_id: &str, body: &str) -> (r: String)
    ensures
        r@ == version_hash(doc_id@, body@),
        r@.len() == doc_id@.len() + 65,
{
    let h = blake3_hex(body);
    let mut r = doc_id.to_owned();
    r.append(":");
    r.append(h.as_str());
    proof {
        reveal_strlit(":");
    }
    r
}

/// The number of lines of a body, as `str::lines` counts them.
pub fn line_count(body: &str) -> (n: usize)
    ensures
        n == text_lines(body@).len(),
{
    let v = chars_of(body);
    let lines = split_lines(&v);
    assert(seq_views(lines@).len() == lines@.len());
    lines.len()
}

/// Whether the current version of a document (if any) already has this hash,
/// so that writing the body again would change nothing.
pub fn hash_matches(current: &Option<String>, new_hash: &str) -> (b: bool)
    ensures
        b == (current matches Some(h) && h@ == new_hash@),
{
    match current {
        Some(h) => str_eq(h.as_str(), new_hash),
        None => false,
    }
}

/// Two equal version hashes belong to the same document (given the fixed width
/// of the content hash): version hashes are scoped to their document.
pub proof fn lemma_version_hash_scoped(a: Seq<char>, x: Seq<char>, b: Seq<char>, y: Seq<char>)
    requires
        blake3_hex_of(x).len() == 64,
        blake3_hex_of(y).len() == 64,
        version_hash(a, x) == version_hash(b, y),
    ensures
        a == b,
        blake3_hex_of(x) == blake3_hex_of(y),
{
    reveal_strlit(":");
    let s = version_hash(a, x);
    let t = version_hash(b, y);
    assert(":"@.len() == 1);
    assert(s.len() == a.len() + 65);
    assert(t.len() == b.len() + 65);
    assert(a.len() == b.len());
    assert(a =~= s.take(a.len() as int));
    assert(b =~= t.take(b.len() as int));
    assert(blake3_hex_of(x) =~= s.skip(a.len() as int + 1));
    assert(blake3_hex_of(y) =~= t.skip(b.len() as int + 1));
}

/// A request to create a document.
pub struct DocCreate {
    pub repo_id: String,
    pub slug: String,
    pub title: String,
    pub body: String,
}

/// A request to store a new version of a document.
pub struct DocUpdate {
    pub doc_id: String,
    pub body: String,
    pub message: Option<String>,
}

/// An anchor of a document: a named place at a line.
pub struct AnchorItem {
    pub id: String,
    pub line: i64,
    pub created_at: String,
}

/// The size in bytes and the line count recorded for a body.
pub fn body_metrics(body: &str) -> (r: (usize, usize))
    ensures
        r.0 == utf8_len(body@),
        r.1 == text_lines(body@).len(),
{
    let bytes = body.as_bytes();
    let size = bytes.len();
    let lines = line_count(body);
    (size, lines)
}


/// What storing a new body for a document comes to.
#[derive(Debug)]
pub enum UpdatePlan {
    /// The body is that of the current version: nothing is written.
    Unchanged,
    /// A new version with this hash, recording this size and line count.
    NewVersion { hash: String, size_bytes: usize, line_count: usize },
}

/// Whether a document whose current version has the hash `current` already
/// holds `body`.
pub open spec fn same_version(current: Option<Seq<char>>, doc_id: Seq<char>, body: Seq<char>) -> bool {
    current == Some(version_hash(doc_id, body))
}

/// Updating a document twice with the same body writes one version: once a new
/// version with the hash `plan_doc_update` gives is current, the same update is
/// unchanged; an update with another body is not.
pub proof fn law_update_dedupes(doc_id: Seq<char>, body: Seq<char>, other: Seq<char>)
    requires
        blake3_hex_of(body) != blake3_hex_of(other),
    ensures
        same_version(Some(version_hash(doc_id, body)), doc_id, body),
        !same_version(Some(version_hash(doc_id, body)), doc_id, other),
{
    reveal_strlit(":");
    let a = version_hash(doc_id, body);
    let b = version_hash(doc_id, other);
    if a == b {
        assert(blake3_hex_of(body) =~= a.skip(doc_id.len() as int + 1));
        assert(blake3_hex_of(other) =~= b.skip(doc_id.len() as int + 1));
    }
}

/// Decides an update of a document's body against the hash of its current
/// version: the same hash means the update is skipped, anything else (no
/// current version included) makes a new version.
pub fn plan_doc_update(doc_id: &str, body: &str, current_hash: &Option<String>) -> (p: UpdatePlan)
    ensures
        p is Unchanged <==> same_version(opt_view(*current_hash), doc_id@, body@),
        p matches UpdatePlan::NewVersion { hash, size_bytes, line_count } ==> {
            &&& hash@ == version_hash(doc_id@, body@)
            &&& size_bytes == utf8_len(body@)
            &&& line_count == text_lines(body@).len()
        },
{
    let hash = doc_version_hash(doc_id, body);
    if hash_matches(current_hash, hash.as_str()) {
        UpdatePlan::Unchanged
    } else {
        let (size_bytes, line_count) = body_metrics(body);
        UpdatePlan::NewVersion { hash, size_bytes, line_count }
    }
}

} // verus!
