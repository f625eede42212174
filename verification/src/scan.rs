//! Slugs for scanned Markdown files, scan accounting and the dedupe rule of a rescan.
use vstd::prelude::*;
use crate::paths::{
    main_separator, path_file_name, path_file_name_result, path_strip_prefix,
    path_strip_prefix_result, path_with_extension_removed, path_without_extension,
};
use crate::ai::opt_view;
use crate::docs::version_hash;
use crate::text::{chars_of, lacks, push_char, str_eq};

verus! {

/// `s` with every `c` replaced by `r` (`str::replace` with a char pattern).
pub open spec fn replace_char(s: Seq<char>, c: char, r: Seq<char>) -> Seq<char>
    decreases s.len(),
{
    if s.len() == 0 {
        seq![]
    } else {
        (if s[0] == c {
            r
        } else {
            seq![s[0]]
        }) + replace_char(s.drop_first(), c, r)
    }
}

/// Replaces every `c` in `s` by the text `r`.
pub fn replace_char_with(s: &str, c: char, r: &str) -> (out: String)
    ensures
        out@ == replace_char(s@, c, r@),
{
    let v = chars_of(s);
    let mut out = String::new();
    let mut i: usize = 0;
    assert(v@.skip(0) =~= v@);
    while i < v.len()
        invariant
            i <= v.len(),
            v@ == s@,
            out@ + replace_char(v@.skip(i as int), c, r@) == replace_char(s@, c, r@),
        decreases v.len() - i,
    {
        let ghost rest = v@.skip(i as int);
        let ghost before = out@;
        assert(rest.drop_first() =~= v@.skip(i + 1));
        if v[i] == c {
            out.append(r);
        } else {
            push_char(&mut out, v[i]);
        }
        assert(out@ + replace_char(v@.skip(i + 1), c, r@) =~= before + replace_char(rest, c, r@));
        i += 1;
    }
    assert(v@.skip(i as int) =~= Seq::<char>::empty());
    assert(out@ =~= replace_char(s@, c, r@));
    out
}

/// The path of a file relative to the repository root; the file path itself when
/// it does not lie under the root.
pub open spec fn relative_path(repo_root: Seq<char>, file_path: Seq<char>) -> Seq<char> {
    match path_strip_prefix_result(file_path, repo_root) {
        Some(rel) => rel,
        None => file_path,
    }
}

/// The slug of a relative path without extension: path separators become `__`
/// and spaces become `-`.
pub open spec fn slug_text(rel_without_ext: Seq<char>, sep: char) -> Seq<char> {
    replace_char(replace_char(rel_without_ext, sep, seq!['_', '_']), ' ', seq!['-'])
}

proof fn lemma_replace_char_lacks(s: Seq<char>, c: char, r: Seq<char>, d: char)
    requires
        lacks(r, d),
        d == c || lacks(s, d),
    ensures
        lacks(replace_char(s, c, r), d),
    decreases s.len(),
{
    if s.len() > 0 {
        lemma_replace_char_lacks(s.drop_first(), c, r, d);
        let head = if s[0] == c {
            r
        } else {
            seq![s[0]]
        };
        let rest = replace_char(s.drop_first(), c, r);
        assert forall|i: int| 0 <= i < (head + rest).len() implies (head + rest)[i] != d by {
            if i < head.len() {
                assert((head + rest)[i] == head[i]);
            } else {
                assert((head + rest)[i] == rest[i - head.len()]);
            }
        }
    }
}

/// A file's slug holds no path separator and no space: separators have become
/// `__` and spaces `-`.
pub proof fn law_slug_text_shape(rel: Seq<char>, sep: char)
    requires
        sep == '/' || sep == '\\',
    ensures
        lacks(slug_text(rel, sep), sep),
        lacks(slug_text(rel, sep), ' '),
{
    let inner = replace_char(rel, sep, seq!['_', '_']);
    lemma_replace_char_lacks(rel, sep, seq!['_', '_'], sep);
    lemma_replace_char_lacks(inner, ' ', seq!['-'], sep);
    lemma_replace_char_lacks(inner, ' ', seq!['-'], ' ');
}

/// The slug of a Markdown file with `sep` as the path separator: its path
/// relative to the repository root, without extension, with each `sep` turned
/// into `__` and each space into `-` (e.g. `notes/Deep Topic.md` with `/` gives
/// `notes__Deep-Topic`).
pub fn make_slug_with(repo_root: &str, file_path: &str, sep: char) -> (s: String)
    ensures
        s@ == slug_text(path_with_extension_removed(relative_path(repo_root@, file_path@)), sep),
{
    let rel = match path_strip_prefix(file_path, repo_root) {
        Some(r) => r,
        None => file_path.to_owned(),
    };
    let stem = path_without_extension(rel.as_str());
    let a = replace_char_with(stem.as_str(), sep, "__");
    let b = replace_char_with(a.as_str(), ' ', "-");
    proof {
        reveal_strlit("__");
        reveal_strlit("-");
        assert("__"@ =~= seq!['_', '_']);
        assert("-"@ =~= seq!['-']);
        assert(rel@ == relative_path(repo_root@, file_path@));
    }
    b
}

/// The slug of a Markdown file, with the separator of the platform the library
/// was built for (see `make_slug_with`).
pub fn make_slug(repo_root: &str, file_path: &str) -> (s: String)
    ensures
        exists|sep: char|
            (sep == '/' || sep == '\\') && s@ == slug_text(
                path_with_extension_removed(relative_path(repo_root@, file_path@)),
                sep,
            ),
{
    let sep = main_separator();
    make_slug_with(repo_root, file_path, sep)
}

/// The slug of a folder: the last component of its path with spaces turned
/// into `-`; the empty path gives the empty slug.
pub open spec fn folder_slug_spec(path: Seq<char>) -> Seq<char> {
    if path.len() == 0 {
        seq![]
    } else {
        let last = match path_file_name_result(path) {
            Some(n) => n,
            None => path,
        };
        replace_char(last, ' ', seq!['-'])
    }
}

/// The slug of a folder path (see `folder_slug_spec`).
pub fn folder_slug(path: &str) -> (s: String)
    ensures
        s@ == folder_slug_spec(path@),
{
    if path.is_empty() {
        return String::new();
    }
    let last = match path_file_name(path) {
        Some(n) => n,
        None => path.to_owned(),
    };
    let s = replace_char_with(last.as_str(), ' ', "-");
    proof {
        reveal_strlit("-");
        assert("-"@ =~= seq!['-']);
    }
    s
}

/// Counters of one scan of a repository.
#[derive(Clone, Copy, Debug)]
pub struct ScanStats {
    pub files_scanned: i64,
    pub docs_added: i64,
    pub errors: i64,
}

impl ScanStats {
    /// All counters at zero.
    pub fn new() -> (s: ScanStats)
        ensures
            s.files_scanned == 0 && s.docs_added == 0 && s.errors == 0,
    {
        ScanStats { files_scanned: 0, docs_added: 0, errors: 0 }
    }

    /// The counters as `(files_scanned, docs_added, errors)`.
    pub open spec fn counts(self) -> (int, int, int) {
        (self.files_scanned as int, self.docs_added as int, self.errors as int)
    }

    /// Whether the counters are consistent: nothing negative, and no more added
    /// documents than scanned files.
    pub open spec fn wf(self) -> bool {
        0 <= self.docs_added <= self.files_scanned && 0 <= self.errors
    }

    /// Accounts for one Markdown file handed to the upsert: `Ok(true)` when the
    /// document was added or changed, `Ok(false)` when unchanged, `Err` on failure.
    pub fn record_file(&mut self, outcome: &Result<bool, String>)
        requires
            old(self).files_scanned < i64::MAX,
            old(self).docs_added < i64::MAX,
            old(self).errors < i64::MAX,
        ensures
            final(self).files_scanned == old(self).files_scanned + 1,
            final(self).docs_added == old(self).docs_added + (if outcome matches Ok(true) {
                1int
            } else {
                0
            }),
            final(self).errors == old(self).errors + (if outcome is Err {
                1int
            } else {
                0
            }),
            old(self).wf() ==> final(self).wf(),
            final(self).counts() == counts_step(old(self).counts(), *outcome),
    {
        self.files_scanned = self.files_scanned + 1;
        match outcome {
            Ok(added) => {
                if *added {
                    self.docs_added = self.docs_added + 1;
                }
            },
            Err(_) => {
                self.errors = self.errors + 1;
            },
        }
    }

    /// Accounts for an entry the directory walk could not read.
    pub fn record_walk_error(&mut self)
        requires
            old(self).errors < i64::MAX,
        ensures
            final(self).files_scanned == old(self).files_scanned,
            final(self).docs_added == old(self).docs_added,
            final(self).errors == old(self).errors + 1,
            old(self).wf() ==> final(self).wf(),
    {
        self.errors = self.errors + 1;
    }
}

/// Whether a scanned file changes its document: a new document always does;
/// an existing one does unless its current version already has this version hash.
pub open spec fn doc_changed(is_new_doc: bool, current_hash: Option<Seq<char>>, hash: Seq<char>) -> bool {
    is_new_doc || current_hash != Some(hash)
}

/// A rescan of an unchanged file adds nothing: once a scan has stored a file's
/// content as the current version of its (now existing) document, scanning the
/// same content again does not change the document, so the file is counted as
/// scanned and not as added (see `ScanStats::record_file` with `Ok(false)`).
pub proof fn law_rescan_adds_nothing(doc_id: Seq<char>, content: Seq<char>)
    ensures
        !doc_changed(false, Some(version_hash(doc_id, content)), version_hash(doc_id, content)),
{
}

/// The counters `(files_scanned, docs_added, errors)` after one file's outcome
/// (see `ScanStats::record_file`).
pub open spec fn counts_step(c: (int, int, int), outcome: Result<bool, String>) -> (int, int, int) {
    (
        c.0 + 1,
        c.1 + if outcome matches Ok(true) {
            1int
        } else {
            0
        },
        c.2 + if outcome is Err {
            1int
        } else {
            0
        },
    )
}

/// The counters after the outcomes of a scan's files, in order.
pub open spec fn counts_after(c: (int, int, int), outcomes: Seq<Result<bool, String>>) -> (int, int, int)
    decreases outcomes.len(),
{
    if outcomes.len() == 0 {
        c
    } else {
        counts_step(counts_after(c, outcomes.drop_last()), outcomes.last())
    }
}

/// A rescan of a tree in which no file changed adds nothing: when every file's
/// outcome is "unchanged" (`Ok(false)`, which `law_rescan_adds_nothing` gives a
/// file whose content is already current), every file is counted as scanned and
/// the added and error counts stay as they were.
pub proof fn law_unchanged_rescan_counts(c: (int, int, int), outcomes: Seq<Result<bool, String>>)
    requires
        forall|i: int| 0 <= i < outcomes.len() ==> outcomes[i] == Ok::<bool, String>(false),
    ensures
        counts_after(c, outcomes) == (c.0 + outcomes.len(), c.1, c.2),
    decreases outcomes.len(),
{
    if outcomes.len() > 0 {
        let p = outcomes.drop_last();
        assert forall|i: int| 0 <= i < p.len() implies p[i] == Ok::<bool, String>(false) by {
            assert(p[i] == outcomes[i]);
        }
        law_unchanged_rescan_counts(c, p);
        assert(outcomes.last() == outcomes[outcomes.len() - 1]);
    }
}

/// A rescan of an unchanged tree adds nothing, stated over the files themselves:
/// when each scanned file `(doc_id, content)` belongs to an existing document
/// whose current version already holds that content, and each file's outcome is
/// whether it changed its document, the rescan counts every file as scanned and
/// adds no document and no error.
pub proof fn law_unchanged_tree_rescan(
    c: (int, int, int),
    files: Seq<(Seq<char>, Seq<char>)>,
    outcomes: Seq<Result<bool, String>>,
)
    requires
        outcomes.len() == files.len(),
        forall|i: int|
            0 <= i < files.len() ==> #[trigger] outcomes[i] == Ok::<bool, String>(
                doc_changed(
                    false,
                    Some(version_hash(files[i].0, files[i].1)),
                    version_hash(files[i].0, files[i].1),
                ),
            ),
    ensures
        counts_after(c, outcomes) == (c.0 + files.len(), c.1, c.2),
{
    assert forall|i: int| 0 <= i < outcomes.len() implies outcomes[i] == Ok::<bool, String>(false) by {
        law_rescan_adds_nothing(files[i].0, files[i].1);
    }
    law_unchanged_rescan_counts(c, outcomes);
}

/// Decides whether a scanned file changes its document (see `doc_changed`).
pub fn scan_doc_changed(is_new_doc: bool, current_hash: &Option<String>, version_hash: &str) -> (b: bool)
    ensures
        b == (is_new_doc || !(current_hash matches Some(h) && h@ == version_hash@)),
        b == doc_changed(is_new_doc, opt_view(*current_hash), version_hash@),
{
    if is_new_doc {
        return true;
    }
    match current_hash {
        Some(h) => !str_eq(h.as_str(), version_hash),
        None => true,
    }
}

/// Whether a file event comes too soon after the previous event for the same file
/// (`elapsed_ms` is the time since that event, `None` when there was none).
pub fn debounce_skip(elapsed_ms: Option<u128>, debounce_ms: u64) -> (b: bool)
    ensures
        b == (elapsed_ms matches Some(e) && e < debounce_ms),
{
    match elapsed_ms {
        Some(e) => e < debounce_ms as u128,
        None => false,
    }
}

/// The include and exclude globs of a scan request.
pub struct ScanFilters {
    pub includes: Option<Vec<String>>,
    pub excludes: Option<Vec<String>>,
}

/// The globs a scan uses: those given, or none.
pub fn scan_globs(filters: Option<ScanFilters>) -> (r: (Vec<String>, Vec<String>))
    ensures
        r.0@ == (match filters {
            Some(f) => match f.includes {
                Some(v) => v@,
                None => Seq::<String>::empty(),
            },
            None => Seq::<String>::empty(),
        }),
        r.1@ == (match filters {
            Some(f) => match f.excludes {
                Some(v) => v@,
                None => Seq::<String>::empty(),
            },
            None => Seq::<String>::empty(),
        }),
{
    match filters {
        Some(f) => {
            let inc = match f.includes {
                Some(v) => v,
                None => Vec::new(),
            };
            let exc = match f.excludes {
                Some(v) => v,
                None => Vec::new(),
            };
            (inc, exc)
        },
        None => (Vec::new(), Vec::new()),
    }
}

/// The report of a finished scan job.
pub struct ScanJobReport {
    pub job_id: String,
    pub files_scanned: i64,
    pub docs_added: i64,
    pub errors: i64,
}

/// The report of a scan job from its counters.
pub fn scan_job_report(job_id: String, stats: ScanStats) -> (r: ScanJobReport)
    ensures
        r.job_id == job_id,
        r.files_scanned == stats.files_scanned,
        r.docs_added == stats.docs_added,
        r.errors == stats.errors,
{
    ScanJobReport {
        job_id,
        files_scanned: stats.files_scanned,
        docs_added: stats.docs_added,
        errors: stats.errors,
    }
}

} // verus!
