//! Wiki-link extraction from Markdown documents.
//!
//! A link is written `[[slug]]`, `[[slug|Alias]]` or `[[slug#Heading|Alias]]`;
//! links inside fenced code blocks (``` or ~~~) and inline code spans are ignored.
use vstd::prelude::*;
use crate::text::{
    lacks,    chars_of, find_char, find_char_from, find_pair, find_pair_from, lemma_find_char_from,
    lemma_find_pair_from, lines_from, prefix_before, seq_views, slice_vec, split_lines, string_of,
    text_lines, trim, trim_end, trim_end_vec, trim_start, trim_vec,
};

verus! {

/// The slug named by the text between `[[` and `]]`: the part before the first `|`,
/// trimmed, then cut at the first `#`.
pub open spec fn link_target(inner: Seq<char>) -> Seq<char> {
    prefix_before(trim(prefix_before(inner, '|')), '#')
}

/// The alias of a link: the trimmed text after the first `|`, when there is one.
pub open spec fn link_alias(inner: Seq<char>) -> Option<Seq<char>> {
    let k = find_char_from(inner, '|', 0);
    if k < 0 {
        None
    } else {
        Some(trim(inner.skip(k + 1)))
    }
}

pub proof fn lemma_find_pair_at_least(s: Seq<char>, a: char, b: char, i: int)
    ensures
        find_pair_from(s, a, b, i) == -1 || (i <= find_pair_from(s, a, b, i) && find_pair_from(
            s,
            a,
            b,
            i,
        ) + 1 < s.len()),
{
    lemma_find_pair_from(s, a, b, i);
}

/// The link slugs of one line (already stripped of inline code), from position `start` on:
/// each `[[` is matched with the next `]]`; empty slugs are skipped.
pub open spec fn links_from(s: Seq<char>, start: int) -> Seq<Seq<char>>
    decreases s.len() - start,
{
    if start < 0 || start > s.len() {
        seq![]
    } else {
        let i = find_pair_from(s, '[', '[', start);
        if i < 0 {
            seq![]
        } else {
            let j = find_pair_from(s, ']', ']', i + 2);
            if j < 0 {
                seq![]
            } else {
                proof {
                    lemma_find_pair_at_least(s, '[', '[', start);
                    lemma_find_pair_at_least(s, ']', ']', i + 2);
                }
                let t = link_target(s.subrange(i + 2, j));
                (if t.len() > 0 {
                    seq![t]
                } else {
                    seq![]
                }) + links_from(s, j + 2)
            }
        }
    }
}

/// `s` with backticks and the text between them removed; `inside` tells whether
/// the text starts inside a code span.
pub open spec fn strip_code(s: Seq<char>, inside: bool) -> Seq<char>
    decreases s.len(),
{
    if s.len() == 0 {
        seq![]
    } else if s[0] == '`' {
        strip_code(s.drop_first(), !inside)
    } else if inside {
        strip_code(s.drop_first(), true)
    } else {
        seq![s[0]] + strip_code(s.drop_first(), false)
    }
}

/// Whether a (right-trimmed) line opens or closes a fenced code block.
pub open spec fn is_fence_line(line: Seq<char>) -> bool {
    line.len() >= 3 && ((line[0] == '`' && line[1] == '`' && line[2] == '`') || (line[0] == '~'
        && line[1] == '~' && line[2] == '~'))
}

/// The links of lines `k..` of a document, each with its 1-based line number
/// as start and end line; `in_fence` tells whether line `k` starts inside a fence.
pub open spec fn links_of_lines(lines: Seq<Seq<char>>, k: int, in_fence: bool) -> Seq<
    (Seq<char>, int, int),
>
    decreases lines.len() - k,
{
    if k < 0 || k >= lines.len() {
        seq![]
    } else {
        let line = trim_end(lines[k]);
        if is_fence_line(line) {
            links_of_lines(lines, k + 1, !in_fence)
        } else if in_fence {
            links_of_lines(lines, k + 1, true)
        } else {
            links_from(strip_code(line, false), 0).map_values(
                |t: Seq<char>| (t, k + 1, k + 1),
            ) + links_of_lines(lines, k + 1, false)
        }
    }
}

/// A line opens or closes a fenced code block exactly when its right-trimmed
/// text starts with three backticks or three tildes, whatever follows them
/// (an info string such as `~~~python` included).
pub proof fn law_fence_lines(line: Seq<char>)
    ensures
        is_fence_line(trim_end(line)) <==> {
            let t = trim_end(line);
            t.len() >= 3 && (t.take(3) == "```"@ || t.take(3) == "~~~"@)
        },
{
    reveal_strlit("```");
    reveal_strlit("~~~");
    let t = trim_end(line);
    if t.len() >= 3 {
        assert(t.take(3) == "```"@ <==> (t[0] == '`' && t[1] == '`' && t[2] == '`')) by {
            if t[0] == '`' && t[1] == '`' && t[2] == '`' {
                assert(t.take(3) =~= "```"@);
            }
            if t.take(3) == "```"@ {
                assert(t.take(3)[0] == t[0] && t.take(3)[1] == t[1] && t.take(3)[2] == t[2]);
            }
        }
        assert(t.take(3) == "~~~"@ <==> (t[0] == '~' && t[1] == '~' && t[2] == '~')) by {
            if t[0] == '~' && t[1] == '~' && t[2] == '~' {
                assert(t.take(3) =~= "~~~"@);
            }
            if t.take(3) == "~~~"@ {
                assert(t.take(3)[0] == t[0] && t.take(3)[1] == t[1] && t.take(3)[2] == t[2]);
            }
        }
    }
}

/// How the lines of a document contribute links: a fence line toggles between
/// inside and outside a code block and gives no link; a line inside a block gives
/// no link; a line outside gives the links of its text without inline code, each
/// with that line's 1-based number, before the links of the lines after it.
pub proof fn law_links_by_line(lines: Seq<Seq<char>>, k: int, in_fence: bool)
    requires
        0 <= k < lines.len(),
    ensures
        ({
            let t = trim_end(lines[k]);
            let fence = t.len() >= 3 && (t.take(3) == "```"@ || t.take(3) == "~~~"@);
            &&& fence ==> links_of_lines(lines, k, in_fence) == links_of_lines(lines, k + 1, !in_fence)
            &&& (!fence && in_fence) ==> links_of_lines(lines, k, true) == links_of_lines(lines, k + 1, true)
            &&& (!fence && !in_fence) ==> links_of_lines(lines, k, false) == links_from(strip_code(t, false), 0).map_values(
                |s: Seq<char>| (s, k + 1, k + 1),
            ) + links_of_lines(lines, k + 1, false)
        }),
{
    law_fence_lines(lines[k]);
}

/// The wiki-links of a Markdown text, in order of appearance.
pub open spec fn wikilinks(content: Seq<char>) -> Seq<(Seq<char>, int, int)> {
    links_of_lines(text_lines(content), 0, false)
}

/// The view of an extracted link list.
pub open spec fn link_views(v: Seq<(String, i64, i64)>) -> Seq<(Seq<char>, int, int)> {
    v.map_values(|t: (String, i64, i64)| (t.0@, t.1 as int, t.2 as int))
}

/// Splits the inside of a link into slug and alias at the first `|`;
/// both are trimmed, and an empty slug gives `None`.
pub fn split_slug_alias(inner: &str) -> (r: Option<(String, Option<String>)>)
    ensures
        r is None <==> trim(prefix_before(inner@, '|')).len() == 0,
        r matches Some((slug, alias)) ==> {
            &&& slug@ == trim(prefix_before(inner@, '|'))
            &&& match alias {
                Some(a) => link_alias(inner@) == Some(a@),
                None => link_alias(inner@) is None,
            }
        },
{
    let v = chars_of(inner);
    let bar = find_char(&v, '|', 0);
    let (head, alias) = match bar {
        Some(k) => {
            let head = slice_vec(&v, 0, k);
            let tail = slice_vec(&v, k + 1, v.len());
            assert(tail@ =~= v@.skip(k + 1));
            let a = trim_vec(&tail);
            (head, Some(string_of(&a)))
        },
        None => (slice_vec(&v, 0, v.len()), None),
    };
    assert(head@ =~= prefix_before(v@, '|'));
    let slug = trim_vec(&head);
    if slug.len() == 0 {
        return None;
    }
    Some((string_of(&slug), alias))
}

/// The part of a slug before its first `#` (the heading reference is dropped).
pub fn slug_before_heading(slug: String) -> (r: String)
    ensures
        r@ == prefix_before(slug@, '#'),
{
    let v = chars_of(slug.as_str());
    match find_char(&v, '#', 0) {
        Some(k) => {
            let head = slice_vec(&v, 0, k);
            string_of(&head)
        },
        None => slug,
    }
}

/// The slug a link's inner text points to, or `None` when it is empty.
fn target_of(inner: &Vec<char>) -> (r: Option<String>)
    ensures
        match r {
            Some(t) => t@ == link_target(inner@) && t@.len() > 0,
            None => link_target(inner@).len() == 0,
        },
{
    let text = string_of(inner);
    match split_slug_alias(text.as_str()) {
        Some((slug, _alias)) => {
            let t = slug_before_heading(slug);
            if t.as_str().is_empty() {
                None
            } else {
                Some(t)
            }
        },
        None => {
            proof {
                lemma_find_char_from(trim(prefix_before(inner@, '|')), '#', 0);
            }
            None
        },
    }
}

/// The link slugs of one line from which inline code was already removed.
fn links_in_line(s: &Vec<char>) -> (r: Vec<String>)
    ensures
        r@.map_values(|t: String| t@) == links_from(s@, 0),
{
    let mut r: Vec<String> = Vec::new();
    let mut pos: usize = 0;
    loop
        invariant
            pos <= s.len(),
            r@.map_values(|t: String| t@) + links_from(s@, pos as int) == links_from(s@, 0),
        decreases s.len() - pos,
    {
        let ghost before = r@.map_values(|t: String| t@);
        let i = match find_pair(s, '[', '[', pos) {
            Some(i) => i,
            None => {
                assert(r@.map_values(|t: String| t@) =~= links_from(s@, 0));
                return r;
            },
        };
        let j = match find_pair(s, ']', ']', i + 2) {
            Some(j) => j,
            None => {
                assert(r@.map_values(|t: String| t@) =~= links_from(s@, 0));
                return r;
            },
        };
        proof {
            lemma_find_pair_at_least(s@, '[', '[', pos as int);
            lemma_find_pair_at_least(s@, ']', ']', i + 2);
        }
        let inner = slice_vec(s, i + 2, j);
        match target_of(&inner) {
            Some(t) => {
                r.push(t);
                assert(r@.map_values(|t: String| t@) =~= before + seq![link_target(inner@)]);
            },
            None => {},
        }
        assert(r@.map_values(|t: String| t@) + links_from(s@, j + 2) =~= before + links_from(
            s@,
            pos as int,
        ));
        pos = j + 2;
    }
}

/// `s` with inline code spans (and their backticks) removed.
fn strip_inline_code(s: &Vec<char>) -> (r: Vec<char>)
    ensures
        r@ == strip_code(s@, false),
{
    let mut out: Vec<char> = Vec::new();
    let mut inside = false;
    let mut i: usize = 0;
    assert(s@.skip(0) =~= s@);
    while i < s.len()
        invariant
            i <= s.len(),
            out@ + strip_code(s@.skip(i as int), inside) == strip_code(s@, false),
        decreases s.len() - i,
    {
        let ghost rest = s@.skip(i as int);
        let ghost before = out@;
        assert(rest.drop_first() =~= s@.skip(i + 1));
        let ch = s[i];
        if ch == '`' {
            inside = !inside;
        } else if !inside {
            out.push(ch);
            assert(out@ + strip_code(s@.skip(i + 1), inside) =~= before + (seq![ch] + strip_code(
                rest.drop_first(),
                false,
            )));
        }
        i += 1;
    }
    assert(s@.skip(i as int) =~= Seq::<char>::empty());
    assert(out@ =~= strip_code(s@, false));
    out
}

proof fn lemma_lines_from_len(cur: Seq<char>, rest: Seq<char>)
    ensures
        lines_from(cur, rest).len() <= rest.len() + (if cur.len() > 0 {
            1int
        } else {
            0
        }),
    decreases rest.len(),
{
    if rest.len() == 0 {
    } else if rest[0] == '\n' {
        lemma_lines_from_len(seq![], rest.drop_first());
    } else {
        lemma_lines_from_len(cur.push(rest[0]), rest.drop_first());
    }
}

/// A text has no more lines than characters.
pub proof fn lemma_text_lines_len(s: Seq<char>)
    ensures
        text_lines(s).len() <= s.len(),
{
    lemma_lines_from_len(seq![], s);
}

/// Extracts the wiki-links of a Markdown text as `(slug, line_start, line_end)`
/// with 1-based line numbers; start and end are the same line.
pub fn extract_wikilinks(content: &str) -> (res: Vec<(String, i64, i64)>)
    requires
        content@.len() < i64::MAX,
    ensures
        link_views(res@) == wikilinks(content@),
{
    let v = chars_of(content);
    let lines = split_lines(&v);
    proof {
        lemma_lines_from_len(seq![], v@);
    }
    let ghost all = seq_views(lines@);
    let mut res: Vec<(String, i64, i64)> = Vec::new();
    let mut in_fence = false;
    let mut k: usize = 0;
    while k < lines.len()
        invariant
            k <= lines.len(),
            all == seq_views(lines@),
            all.len() <= v@.len(),
            v@.len() < i64::MAX,
            link_views(res@) + links_of_lines(all, k as int, in_fence) == links_of_lines(
                all,
                0,
                false,
            ),
        decreases lines.len() - k,
    {
        let ghost before = link_views(res@);
        let line = trim_end_vec(&lines[k]);
        assert(all[k as int] == lines@[k as int]@);
        let fence = line.len() >= 3 && ((line[0] == '`' && line[1] == '`' && line[2] == '`') || (
        line[0] == '~' && line[1] == '~' && line[2] == '~'));
        if fence {
            in_fence = !in_fence;
        } else if !in_fence {
            let cleaned = strip_inline_code(&line);
            let found = links_in_line(&cleaned);
            let no: i64 = k as i64 + 1;
            let ghost found_v = found@.map_values(|t: String| t@);
            let mut m: usize = 0;
            while m < found.len()
                invariant
                    m <= found.len(),
                    found_v == found@.map_values(|t: String| t@),
                    no == k + 1,
                    link_views(res@) == before + found_v.take(m as int).map_values(
                        |t: Seq<char>| (t, k + 1, k + 1),
                    ),
                decreases found.len() - m,
            {
                let ghost b2 = link_views(res@);
                res.push((found[m].clone(), no, no));
                assert(found_v.take(m + 1).map_values(|t: Seq<char>| (t, k + 1, k + 1))
                    =~= found_v.take(m as int).map_values(|t: Seq<char>| (t, k + 1, k + 1)).push(
                    (found_v[m as int], k + 1, k + 1),
                ));
                assert(link_views(res@) =~= b2.push((found@[m as int]@, k + 1, k + 1)));
                m += 1;
            }
            assert(found_v.take(found.len() as int) =~= found_v);
            assert(link_views(res@) + links_of_lines(all, k + 1, in_fence) =~= before
                + links_of_lines(all, k as int, false));
        }
        k += 1;
    }
    res
}

/// The form of every extracted link slug: not empty, and free of `|`, `#` and backticks.
pub open spec fn link_shape(t: Seq<char>) -> bool {
    t.len() > 0 && lacks(t, '|') && lacks(t, '#') && lacks(t, '`')
}

proof fn lemma_prefix_before_lacks(s: Seq<char>, c: char, d: char)
    ensures
        lacks(prefix_before(s, c), c),
        lacks(s, d) ==> lacks(prefix_before(s, c), d),
{
    lemma_find_char_from(s, c, 0);
}

proof fn lemma_trim_lacks(s: Seq<char>, d: char)
    requires
        lacks(s, d),
    ensures
        lacks(trim_end(s), d),
        lacks(trim_start(s), d),
        lacks(trim(s), d),
    decreases s.len(),
{
    if s.len() > 0 {
        lemma_trim_lacks(s.drop_last(), d);
        lemma_trim_lacks(s.drop_first(), d);
        lemma_trim_start_lacks(trim_end(s), d);
    }
}

proof fn lemma_trim_start_lacks(s: Seq<char>, d: char)
    requires
        lacks(s, d),
    ensures
        lacks(trim_start(s), d),
    decreases s.len(),
{
    if s.len() > 0 {
        lemma_trim_start_lacks(s.drop_first(), d);
    }
}

proof fn lemma_strip_code_lacks(s: Seq<char>, inside: bool)
    ensures
        lacks(strip_code(s, inside), '`'),
    decreases s.len(),
{
    if s.len() > 0 {
        lemma_strip_code_lacks(s.drop_first(), !inside);
        lemma_strip_code_lacks(s.drop_first(), inside);
        lemma_strip_code_lacks(s.drop_first(), true);
        lemma_strip_code_lacks(s.drop_first(), false);
    }
}

proof fn lemma_link_target_shape(inner: Seq<char>)
    requires
        lacks(inner, '`'),
    ensures
        lacks(link_target(inner), '|'),
        lacks(link_target(inner), '#'),
        lacks(link_target(inner), '`'),
{
    let a = prefix_before(inner, '|');
    lemma_prefix_before_lacks(inner, '|', '`');
    lemma_trim_lacks(a, '|');
    lemma_trim_lacks(a, '`');
    lemma_trim_start_lacks(trim_end(a), '|');
    lemma_trim_start_lacks(trim_end(a), '`');
    let b = trim(a);
    lemma_prefix_before_lacks(b, '#', '|');
    lemma_prefix_before_lacks(b, '#', '`');
}

proof fn lemma_links_from_shape(s: Seq<char>, start: int)
    requires
        lacks(s, '`'),
    ensures
        forall|i: int|
            0 <= i < links_from(s, start).len() ==> link_shape(#[trigger] links_from(s, start)[i]),
    decreases s.len() - start,
{
    if start < 0 || start > s.len() {
    } else {
        let i = find_pair_from(s, '[', '[', start);
        if i >= 0 {
            let j = find_pair_from(s, ']', ']', i + 2);
            if j >= 0 {
                lemma_find_pair_at_least(s, '[', '[', start);
                lemma_find_pair_at_least(s, ']', ']', i + 2);
                let inner = s.subrange(i + 2, j);
                assert(lacks(inner, '`')) by {
                    assert forall|k: int| 0 <= k < inner.len() implies inner[k] != '`' by {
                        assert(inner[k] == s[i + 2 + k]);
                    }
                }
                lemma_link_target_shape(inner);
                lemma_links_from_shape(s, j + 2);
                let t = link_target(inner);
                let head: Seq<Seq<char>> = if t.len() > 0 {
                    seq![t]
                } else {
                    seq![]
                };
                let rest = links_from(s, j + 2);
                assert(links_from(s, start) == head + rest);
                assert forall|k: int| 0 <= k < (head + rest).len() implies link_shape(
                    #[trigger] (head + rest)[k],
                ) by {
                    if k < head.len() {
                        assert((head + rest)[k] == t);
                    } else {
                        assert((head + rest)[k] == rest[k - head.len()]);
                    }
                }
            }
        }
    }
}

proof fn lemma_links_of_lines_shape(lines: Seq<Seq<char>>, k: int, in_fence: bool)
    ensures
        forall|i: int|
            0 <= i < links_of_lines(lines, k, in_fence).len() ==> {
                let e = #[trigger] links_of_lines(lines, k, in_fence)[i];
                &&& link_shape(e.0)
                &&& e.1 == e.2
                &&& k + 1 <= e.1 <= lines.len()
            },
    decreases lines.len() - k,
{
    if k < 0 || k >= lines.len() {
    } else {
        let line = trim_end(lines[k]);
        lemma_links_of_lines_shape(lines, k + 1, !in_fence);
        lemma_links_of_lines_shape(lines, k + 1, true);
        lemma_links_of_lines_shape(lines, k + 1, false);
        if !is_fence_line(line) && !in_fence {
            let stripped = strip_code(line, false);
            lemma_strip_code_lacks(line, false);
            lemma_links_from_shape(stripped, 0);
            let ls = links_from(stripped, 0);
            let head = ls.map_values(|t: Seq<char>| (t, k + 1, k + 1));
            let rest = links_of_lines(lines, k + 1, false);
            assert(links_of_lines(lines, k, in_fence) == head + rest);
            assert forall|i: int| 0 <= i < (head + rest).len() implies {
                let e = #[trigger] (head + rest)[i];
                &&& link_shape(e.0)
                &&& e.1 == e.2
                &&& k + 1 <= e.1 <= lines.len()
            } by {
                if i < head.len() {
                    assert((head + rest)[i] == (ls[i], k + 1, k + 1));
                    assert(link_shape(ls[i]));
                } else {
                    assert((head + rest)[i] == rest[i - head.len()]);
                }
            }
        } else {
            let nxt = if is_fence_line(line) {
                !in_fence
            } else {
                true
            };
            let rest = links_of_lines(lines, k + 1, nxt);
            assert(links_of_lines(lines, k, in_fence) == rest);
            assert forall|i: int| 0 <= i < rest.len() implies {
                let e = #[trigger] rest[i];
                &&& link_shape(e.0)
                &&& e.1 == e.2
                &&& k + 1 <= e.1 <= lines.len()
            } by {}
        }
    }
}

/// Every wiki-link found in a text names a non-empty slug free of `|`, `#` and
/// backticks, and lies on one line of the text: its start and end line are equal,
/// counted from 1, and at most the number of lines.
pub proof fn law_wikilink_shape(content: Seq<char>)
    ensures
        forall|i: int|
            0 <= i < wikilinks(content).len() ==> {
                let e = #[trigger] wikilinks(content)[i];
                &&& link_shape(e.0)
                &&& e.1 == e.2
                &&& 1 <= e.1 <= text_lines(content).len()
            },
{
    lemma_links_of_lines_shape(text_lines(content), 0, false);
}

/// A document as graph queries list it.
pub struct GraphDoc {
    pub id: String,
    pub slug: String,
    pub title: String,
}

} // verus!
