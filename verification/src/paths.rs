//! The few `std::path` operations the library relies on, over UTF-8 path strings.
use vstd::prelude::*;
use crate::text::{chars_of, seq_views, slice_vec, split_char, split_vec, string_of};

verus! {

/// What `Path::strip_prefix` gives for `path` and `base`: the rest of `path`
/// after the components of `base`, or `None` when `base` is not a prefix of it.
pub uninterp spec fn path_strip_prefix_result(path: Seq<char>, base: Seq<char>) -> Option<Seq<char>>;

/// What `Path::with_extension("")` gives: the path with the extension of its
/// file name removed.
pub uninterp spec fn path_with_extension_removed(path: Seq<char>) -> Seq<char>;

/// What `Path::file_name` gives: the final component of a path, when it is a file name.
pub uninterp spec fn path_file_name_result(path: Seq<char>) -> Option<Seq<char>>;

/// `Path::new(path).strip_prefix(base)`, as a string; `None` where std returns `Err`.
/// The contract names the result and says nothing more of it.
#[verifier::external_body]
pub(crate) fn path_strip_prefix(path: &str, base: &str) -> (r: Option<String>)
    ensures
        match r {
            Some(s) => path_strip_prefix_result(path@, base@) == Some(s@),
            None => path_strip_prefix_result(path@, base@) is None,
        },
{
    std::path::Path::new(path).strip_prefix(base).ok().map(|p| p.to_string_lossy().into_owned())
}

/// `Path::new(path).with_extension("")`, as a string.
/// The contract names the result and says nothing more of it.
#[verifier::external_body]
pub(crate) fn path_without_extension(path: &str) -> (r: String)
    ensures
        r@ == path_with_extension_removed(path@),
{
    std::path::Path::new(path).with_extension("").to_string_lossy().into_owned()
}

/// `Path::new(path).file_name()`, as a string.
/// The contract names the result and says nothing more of it.
#[verifier::external_body]
pub(crate) fn path_file_name(path: &str) -> (r: Option<String>)
    ensures
        match r {
            Some(s) => path_file_name_result(path@) == Some(s@),
            None => path_file_name_result(path@) is None,
        },
{
    std::path::Path::new(path).file_name().map(|s| s.to_string_lossy().into_owned())
}

/// `std::path::MAIN_SEPARATOR`: `/` on Unix, `\` on Windows; which of the two
/// depends on the platform the library was built for.
#[verifier::external_body]
pub(crate) fn main_separator() -> (c: char)
    ensures
        c == '/' || c == '\\',
{
    std::path::MAIN_SEPARATOR
}

/// What `Path::starts_with` gives: whether the components of `base` begin the
/// components of `path`.
pub uninterp spec fn path_starts_with_result(path: Seq<char>, base: Seq<char>) -> bool;

/// `Path::new(path).starts_with(base)`.
/// The contract names the result and says nothing more of it.
#[verifier::external_body]
pub(crate) fn path_starts_with(path: &str, base: &str) -> (r: bool)
    ensures
        r == path_starts_with_result(path@, base@),
{
    std::path::Path::new(path).starts_with(base)
}

/// What `Path::extension` gives: the extension of the file name, if any.
pub uninterp spec fn path_extension_result(path: Seq<char>) -> Option<Seq<char>>;

/// `Path::new(path).extension()`, as a string.
/// The contract names the result and says nothing more of it.
#[verifier::external_body]
pub(crate) fn path_extension(path: &str) -> (r: Option<String>)
    ensures
        match r {
            Some(s) => path_extension_result(path@) == Some(s@),
            None => path_extension_result(path@) is None,
        },
{
    std::path::Path::new(path).extension().map(|s| s.to_string_lossy().into_owned())
}

/// What `Path::file_stem` gives: the file name without its extension, if any.
pub uninterp spec fn path_file_stem_result(path: Seq<char>) -> Option<Seq<char>>;

/// `Path::new(path).file_stem()`, as a string.
/// The contract names the result and says nothing more of it.
#[verifier::external_body]
pub(crate) fn path_file_stem(path: &str) -> (r: Option<String>)
    ensures
        match r {
            Some(s) => path_file_stem_result(path@) == Some(s@),
            None => path_file_stem_result(path@) is None,
        },
{
    std::path::Path::new(path).file_stem().map(|s| s.to_string_lossy().into_owned())
}

// ===== Lexical normalisation =====

/// Whether a path component is `..`.
pub open spec fn is_parent(part: Seq<char>) -> bool {
    part == seq!['.', '.']
}

/// One step of lexical normalisation: the components kept so far, then `part`.
/// Empty and `.` components are dropped; `..` removes the last kept component
/// (at the root of an absolute path it is dropped, in a relative path with
/// nothing to remove it is kept).
pub open spec fn norm_step(kept: Seq<Seq<char>>, part: Seq<char>, absolute: bool) -> Seq<Seq<char>> {
    if part.len() == 0 || part == seq!['.'] {
        kept
    } else if is_parent(part) {
        if kept.len() > 0 && !is_parent(kept.last()) {
            kept.drop_last()
        } else if absolute {
            kept
        } else {
            kept.push(part)
        }
    } else {
        kept.push(part)
    }
}

/// The components kept after normalising `parts` from left to right.
pub open spec fn norm_parts(parts: Seq<Seq<char>>, absolute: bool) -> Seq<Seq<char>>
    decreases parts.len(),
{
    if parts.len() == 0 {
        seq![]
    } else {
        norm_step(norm_parts(parts.drop_last(), absolute), parts.last(), absolute)
    }
}

/// Components joined with a separator.
pub open spec fn join_with(parts: Seq<Seq<char>>, sep: char) -> Seq<char>
    decreases parts.len(),
{
    if parts.len() == 0 {
        seq![]
    } else if parts.len() == 1 {
        parts[0]
    } else {
        join_with(parts.drop_last(), sep).push(sep) + parts.last()
    }
}

/// A `/`-separated path with `.`, empty components and `..` resolved lexically,
/// without reading the file system; an absolute path stays absolute.
pub open spec fn normalized_path(path: Seq<char>) -> Seq<char> {
    let absolute = path.len() > 0 && path[0] == '/';
    let body = join_with(norm_parts(split_char(path, '/'), absolute), '/');
    if absolute {
        seq!['/'] + body
    } else {
        body
    }
}

fn is_parent_vec(part: &Vec<char>) -> (b: bool)
    ensures
        b == is_parent(part@),
{
    let b = part.len() == 2 && part[0] == '.' && part[1] == '.';
    proof {
        if part@.len() == 2 && part@[0] == '.' && part@[1] == '.' {
            assert(part@ =~= seq!['.', '.']);
        }
    }
    b
}

/// Resolves `.`, empty components and `..` in a path lexically (see `normalized_path`).
pub fn normalize_path(path: &str) -> (r: String)
    ensures
        r@ == normalized_path(path@),
{
    let v = chars_of(path);
    let absolute = v.len() > 0 && v[0] == '/';
    let parts = split_vec(&v, '/');
    let ghost pv = seq_views(parts@);
    let mut kept: Vec<Vec<char>> = Vec::new();
    let mut i: usize = 0;
    assert(pv.take(0) =~= Seq::<Seq<char>>::empty());
    assert(seq_views(kept@) =~= Seq::<Seq<char>>::empty());
    while i < parts.len()
        invariant
            i <= parts.len(),
            pv == seq_views(parts@),
            pv == split_char(path@, '/'),
            absolute == (path@.len() > 0 && path@[0] == '/'),
            seq_views(kept@) == norm_parts(pv.take(i as int), absolute),
        decreases parts.len() - i,
    {
        let ghost before = seq_views(kept@);
        assert(pv.take(i + 1).drop_last() =~= pv.take(i as int));
        assert(pv[i as int] == parts@[i as int]@);
        let part = &parts[i];
        let dot = part.len() == 1 && part[0] == '.';
        proof {
            if part@.len() == 1 && part@[0] == '.' {
                assert(part@ =~= seq!['.']);
            }
            if part@ == seq!['.'] {
                assert(part@.len() == 1 && part@[0] == '.');
            }
        }
        if part.len() == 0 || dot {
        } else if is_parent_vec(part) {
            let n = kept.len();
            if n > 0 && !is_parent_vec(&kept[n - 1]) {
                kept.pop();
                assert(seq_views(kept@) =~= before.drop_last());
            } else if absolute {
            } else {
                let c = slice_vec(part, 0, part.len());
                assert(c@ =~= part@);
                kept.push(c);
                assert(seq_views(kept@) =~= before.push(part@));
            }
        } else {
            let c = slice_vec(part, 0, part.len());
            assert(c@ =~= part@);
            kept.push(c);
            assert(seq_views(kept@) =~= before.push(part@));
        }
        i += 1;
    }
    assert(pv.take(parts.len() as int) =~= pv);
    let ghost kv = seq_views(kept@);
    let mut out: Vec<char> = Vec::new();
    if absolute {
        out.push('/');
    }
    let ghost head = out@;
    assert(kv.take(0) =~= Seq::<Seq<char>>::empty());
    assert(out@ =~= head + join_with(kv.take(0), '/'));
    let mut j: usize = 0;
    while j < kept.len()
        invariant
            j <= kept.len(),
            kv == seq_views(kept@),
            out@ == head + join_with(kv.take(j as int), '/'),
        decreases kept.len() - j,
    {
        let ghost before = out@;
        assert(kv.take(j + 1).drop_last() =~= kv.take(j as int));
        assert(kv[j as int] == kept@[j as int]@);
        if j > 0 {
            out.push('/');
        }
        let part = &kept[j];
        let mut k: usize = 0;
        let ghost mid = out@;
        while k < part.len()
            invariant
                k <= part.len(),
                out@ == mid + part@.take(k as int),
            decreases part.len() - k,
        {
            out.push(part[k]);
            assert(part@.take(k + 1) =~= part@.take(k as int).push(part@[k as int]));
            k += 1;
        }
        assert(part@.take(part.len() as int) =~= part@);
        proof {
            if j == 0 {
                assert(kv.take(1) =~= seq![kv[0]]);
                assert(join_with(kv.take(0), '/') =~= Seq::<char>::empty());
                assert(out@ =~= head + join_with(kv.take(1), '/'));
            } else {
                assert(kv.take(j + 1).last() == kv[j as int]);
                assert(out@ =~= head + join_with(kv.take(j + 1), '/'));
            }
        }
        j += 1;
    }
    assert(kv.take(kept.len() as int) =~= kv);
    proof {
        if absolute {
            assert(head =~= seq!['/']);
        } else {
            assert(head =~= Seq::<char>::empty());
        }
    }
    string_of(&out)
}

/// A normalised absolute path holds no `..` component: `..` cannot climb above
/// the root, so a path that starts under a root stays under it.
pub proof fn law_normalized_absolute_has_no_parent(parts: Seq<Seq<char>>)
    ensures
        forall|i: int|
            0 <= i < norm_parts(parts, true).len() ==> !is_parent(#[trigger] norm_parts(parts, true)[i]),
    decreases parts.len(),
{
    if parts.len() > 0 {
        law_normalized_absolute_has_no_parent(parts.drop_last());
        let kept = norm_parts(parts.drop_last(), true);
        let r = norm_parts(parts, true);
        assert forall|i: int| 0 <= i < r.len() implies !is_parent(#[trigger] r[i]) by {
            if i < kept.len() {
                assert(r[i] == kept[i]);
            }
        }
    }
}

} // verus!
