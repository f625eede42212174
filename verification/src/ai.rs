//! AI run support: the context window around a line, secret redaction, anchor
//! line parsing, provider resolution and gating, and the texts of a run.
use vstd::prelude::*;
use crate::num::{parse_unsigned, parse_usize};
use crate::text::{
    chars_of, join_lines, join_range, prefix_before, seq_views, split_char, split_lines, split_vec,
    string_of, str_eq, text_lines,
};
use crate::text::find_char;

verus! {

// ===== Anchors =====

/// The line an anchor id points to. Anchor ids read `anc_<doc>_<line>` or
/// `anc_<doc>_<line>_<ts>`: the third `_`-separated part, the one after the
/// document id, is the line.
pub open spec fn anchor_line(anchor_id: Seq<char>) -> Option<nat> {
    let parts = split_char(anchor_id, '_');
    if parts.len() >= 3 {
        parse_unsigned(parts[2], usize::MAX as int)
    } else {
        None
    }
}

/// Parses the line number out of an anchor id (see `anchor_line`).
pub fn parse_anchor_line(anchor_id: &str) -> (r: Option<usize>)
    ensures
        match r {
            Some(n) => anchor_line(anchor_id@) == Some(n as nat),
            None => anchor_line(anchor_id@) is None,
        },
{
    let v = chars_of(anchor_id);
    let parts = split_vec(&v, '_');
    if parts.len() >= 3 {
        assert(seq_views(parts@)[2] == parts@[2]@);
        let line = string_of(&parts[2]);
        parse_usize(line.as_str())
    } else {
        None
    }
}

// ===== Context window =====

/// The index of the target line (lines count from 1; 0 counts as 1).
pub open spec fn target_index(line: int) -> int {
    if line == 0 {
        0
    } else {
        line - 1
    }
}

/// The first and one-past-last line of the window of `n` lines around `line`
/// in a text of `count` lines.
pub open spec fn window_start(line: int, n: int) -> int {
    if target_index(line) >= n {
        target_index(line) - n
    } else {
        0
    }
}

pub open spec fn window_end(line: int, n: int, count: int) -> int {
    if target_index(line) + n + 1 < count {
        target_index(line) + n + 1
    } else {
        count
    }
}

/// The inputs on which the window can be taken: its bounds fit a `usize` and it
/// does not start after it ends (the target line lies at most `n` lines past the end).
pub open spec fn context_defined(body: Seq<char>, line: int, n: int) -> bool {
    let count = text_lines(body).len() as int;
    count > 0 ==> {
        &&& target_index(line) + n + 1 <= usize::MAX
        &&& window_start(line, n) <= window_end(line, n, count)
    }
}

/// The lines of `body` from `n` lines before to `n` lines after line `line`, joined with `\n`.
pub open spec fn context_window(body: Seq<char>, line: int, n: int) -> Seq<char> {
    let lines = text_lines(body);
    if lines.len() == 0 {
        seq![]
    } else {
        join_lines(
            lines.subrange(window_start(line, n), window_end(line, n, lines.len() as int)),
        )
    }
}

/// The context holds the line it is taken around: for a line of the text the
/// window starts at most `n` lines before it, ends at most `n` lines after it,
/// and so holds at most `2 * n + 1` lines.
pub proof fn law_context_holds_target(body: Seq<char>, line: int, n: int)
    requires
        1 <= line <= text_lines(body).len(),
        n >= 0,
    ensures
        ({
            let count = text_lines(body).len() as int;
            let start = window_start(line, n);
            let end = window_end(line, n, count);
            &&& 0 <= start <= line - 1 < end <= count
            &&& line - 1 - start <= n
            &&& end - line <= n
            &&& end - start <= 2 * n + 1
        }),
{
}

/// The context around a line: up to `n` lines before and after it.
pub fn extract_context(body: &str, line: usize, n: usize) -> (r: String)
    requires
        context_defined(body@, line as int, n as int),
    ensures
        r@ == context_window(body@, line as int, n as int),
{
    let v = chars_of(body);
    let lines = split_lines(&v);
    if lines.len() == 0 {
        return String::new();
    }
    let idx = if line == 0 {
        0
    } else {
        line - 1
    };
    let start = if idx >= n {
        idx - n
    } else {
        0
    };
    let far = idx + n + 1;
    let end = if far < lines.len() {
        far
    } else {
        lines.len()
    };
    let joined = join_range(&lines, start, end);
    string_of(&joined)
}

/// Whether the context window of `n` lines around `line` can be taken from
/// `body` (see `context_defined`); callers test it before `extract_context`.
pub fn context_window_defined(body: &str, line: usize, n: usize) -> (b: bool)
    ensures
        b == context_defined(body@, line as int, n as int),
{
    let count = crate::docs::line_count(body);
    if count == 0 {
        return true;
    }
    let idx = if line == 0 {
        0
    } else {
        line - 1
    };
    let far = match idx.checked_add(n) {
        Some(x) => x.checked_add(1),
        None => None,
    };
    match far {
        None => false,
        Some(far) => {
            let start = if idx >= n {
                idx - n
            } else {
                0
            };
            let end = if far < count {
                far
            } else {
                count
            };
            start <= end
        },
    }
}

// ===== Redaction =====

/// How a matched token is masked.
#[derive(Clone, Copy, Debug, PartialEq, Eq)]
pub enum TokenMask {
    /// A URL query parameter `?key=value`: keep the name, mask the value.
    QueryParam,
    /// A long token: masked when it mixes ASCII letters and digits.
    HighEntropy,
}

pub open spec fn is_ascii_alpha(c: char) -> bool {
    ('a' <= c && c <= 'z') || ('A' <= c && c <= 'Z')
}

pub open spec fn is_ascii_digit(c: char) -> bool {
    '0' <= c && c <= '9'
}

/// The masked form of a matched token.
pub open spec fn masked(mask: TokenMask, t: Seq<char>) -> Seq<char> {
    match mask {
        TokenMask::QueryParam => prefix_before(t, '=') + "=****"@,
        TokenMask::HighEntropy => if (exists|i: int| 0 <= i < t.len() && is_ascii_alpha(t[i])) && (
        exists|i: int| 0 <= i < t.len() && is_ascii_digit(t[i])) {
            "****"@
        } else {
            t
        },
    }
}

/// Masks one matched token (see `masked`).
pub fn mask_token(mask: TokenMask, t: &str) -> (r: String)
    ensures
        r@ == masked(mask, t@),
{
    let v = chars_of(t);
    match mask {
        TokenMask::QueryParam => {
            let key = match find_char(&v, '=', 0) {
                Some(k) => crate::text::slice_vec(&v, 0, k),
                None => crate::text::slice_vec(&v, 0, v.len()),
            };
            assert(key@ =~= prefix_before(v@, '='));
            let mut out = string_of(&key);
            out.append("=****");
            out
        },
        TokenMask::HighEntropy => {
            let mut has_alpha = false;
            let mut has_digit = false;
            let mut i: usize = 0;
            while i < v.len()
                invariant
                    i <= v.len(),
                    v@ == t@,
                    has_alpha == (exists|k: int| 0 <= k < i && is_ascii_alpha(v@[k])),
                    has_digit == (exists|k: int| 0 <= k < i && is_ascii_digit(v@[k])),
                decreases v.len() - i,
            {
                let c = v[i];
                if ('a' <= c && c <= 'z') || ('A' <= c && c <= 'Z') {
                    has_alpha = true;
                }
                if '0' <= c && c <= '9' {
                    has_digit = true;
                }
                i += 1;
            }
            if has_alpha && has_digit {
                "****".to_owned()
            } else {
                t.to_owned()
            }
        },
    }
}

/// What `Regex::new(pattern)` followed by `replace_all(text, replacement)` gives,
/// with `$n` in the replacement standing for capture group `n`; `None` when the
/// pattern does not compile.
pub uninterp spec fn regex_replace_all_result(
    pattern: Seq<char>,
    text: Seq<char>,
    replacement: Seq<char>,
) -> Option<Seq<char>>;

/// What `Regex::new(pattern)` followed by `replace_all(text, ..)` gives when each
/// match is replaced by `mask_token(mask, match)`; `None` when the pattern does not compile.
pub uninterp spec fn regex_replace_masked_result(
    pattern: Seq<char>,
    text: Seq<char>,
    mask: TokenMask,
) -> Option<Seq<char>>;

/// `regex::Regex::new(pattern)` and `Regex::replace_all(text, replacement)`.
/// The contract names the result and says nothing more of it.
#[verifier::external_body]
fn regex_replace_all(pattern: &str, text: &str, replacement: &str) -> (r: Option<String>)
    ensures
        match r {
            Some(o) => regex_replace_all_result(pattern@, text@, replacement@) == Some(o@),
            None => regex_replace_all_result(pattern@, text@, replacement@) is None,
        },
{
    regex::Regex::new(pattern).ok().map(|re| re.replace_all(text, replacement).into_owned())
}

/// `regex::Regex::new(pattern)` and `Regex::replace_all(text, f)` where `f` masks
/// each whole match with the verified `mask_token`.
/// The contract names the result and says nothing more of it.
#[verifier::external_body]
fn regex_replace_masked(pattern: &str, text: &str, mask: TokenMask) -> (r: Option<String>)
    ensures
        match r {
            Some(o) => regex_replace_masked_result(pattern@, text@, mask) == Some(o@),
            None => regex_replace_masked_result(pattern@, text@, mask) is None,
        },
{
    regex::Regex::new(pattern).ok().map(
        |re| re.replace_all(text, |caps: &regex::Captures| mask_token(mask, &caps[0])).into_owned(),
    )
}

/// The text a replacement step leaves: its result, or the text unchanged when
/// the pattern does not compile.
pub open spec fn or_unchanged(r: Option<Seq<char>>, text: Seq<char>) -> Seq<char> {
    match r {
        Some(o) => o,
        None => text,
    }
}

/// `s` with common secrets masked, in this order: AWS access key ids, AWS secret
/// keys (the `aws_secret_access_key=` prefix is kept), bearer tokens, api key /
/// token parameters, URL query keys and tokens, and long tokens mixing letters and
/// digits; a last pass masks any AWS access key id still standing as a word.
pub open spec fn redact_spec(s: Seq<char>) -> Seq<char> {
    mask_key_ids(regex_redactions(s))
}

/// The regular-expression passes of redaction, in order (see `redact_spec`).
pub open spec fn regex_redactions(s: Seq<char>) -> Seq<char> {
    let o1 = or_unchanged(
        regex_replace_all_result(r"(?i)\b(AKIA|ASIA)[0-9A-Z]{16}\b"@, s, "****"@),
        s,
    );
    let o2 = or_unchanged(
        regex_replace_all_result(
            r"(?i)(aws[_-]?secret[_-]?access[_-]?key\s*[:=]\s*['\x22]?)([A-Za-z0-9/+=]{40})"@,
            o1,
            "$1****"@,
        ),
        o1,
    );
    let o3 = or_unchanged(
        regex_replace_all_result(r"(?i)\b(bearer)\s+[A-Za-z0-9_.]{16,}\b"@, o2, "$1 ****"@),
        o2,
    );
    let o4 = or_unchanged(
        regex_replace_all_result(
            r"(?i)(api[_-]?key|apikey|token|auth)(?:_?id)?\s*[:=]\s*['\x22]?([A-Za-z0-9_-]{16,})"@,
            o3,
            "$1=****"@,
        ),
        o3,
    );
    let o5 = or_unchanged(
        regex_replace_masked_result(
            r"([?&](?:key|api[_-]?key|token)=[^&\s]{4,})"@,
            o4,
            TokenMask::QueryParam,
        ),
        o4,
    );
    or_unchanged(
        regex_replace_masked_result(r"\b[A-Za-z0-9/_\+=]{24,}\b"@, o5, TokenMask::HighEntropy),
        o5,
    )
}

// ===== AWS access key ids =====

/// A character of the body of an AWS access key id: an ASCII digit or letter
/// (letters in either case, as the pattern is matched without regard to case).
pub open spec fn key_id_char(c: char) -> bool {
    ('0' <= c && c <= '9') || ('A' <= c && c <= 'Z') || ('a' <= c && c <= 'z')
}

/// An ASCII character that cannot be part of a word (not a letter, digit or `_`),
/// so that a word ends or begins next to it.
pub open spec fn plain_boundary(c: char) -> bool {
    c < '\u{80}' && !('0' <= c && c <= '9') && !('A' <= c && c <= 'Z') && !('a' <= c && c
        <= 'z') && c != '_'
}

/// Whether an AWS access key id starts at `i`: the word `AKIA` or `ASIA` followed
/// by 16 digits or letters, in any ASCII letter case, with the text starting or
/// ending, or a non-word ASCII character, on each side.
pub open spec fn aws_key_at(s: Seq<char>, i: int) -> bool {
    &&& 0 <= i && i + 20 <= s.len()
    &&& (s[i] == 'A' || s[i] == 'a') && (s[i + 1] == 'K' || s[i + 1] == 'k' || s[i + 1] == 'S'
        || s[i + 1] == 's') && (s[i + 2] == 'I' || s[i + 2] == 'i') && (s[i + 3] == 'A' || s[i
        + 3] == 'a')
    &&& forall|k: int| 4 <= k < 20 ==> #[trigger] key_id_char(s[i + k])
    &&& (i == 0 || plain_boundary(s[i - 1]))
    &&& (i + 20 == s.len() || plain_boundary(s[i + 20]))
}

/// The text from position `i` with each AWS access key id, scanned left to right,
/// replaced by `****`, paired with the origin of each output character: its
/// position in `s`, or -1 for a mask character.
pub open spec fn key_masked(s: Seq<char>, i: int) -> (Seq<char>, Seq<int>)
    decreases s.len() - i,
{
    if i < 0 || i >= s.len() {
        (seq![], seq![])
    } else if aws_key_at(s, i) {
        let r = key_masked(s, i + 20);
        (seq!['*', '*', '*', '*'] + r.0, seq![-1int, -1, -1, -1] + r.1)
    } else {
        let r = key_masked(s, i + 1);
        (seq![s[i]] + r.0, seq![i] + r.1)
    }
}

/// `s` with every AWS access key id replaced by `****`.
pub open spec fn mask_key_ids(s: Seq<char>) -> Seq<char> {
    key_masked(s, 0).0
}

proof fn lemma_key_masked(s: Seq<char>, i: int)
    requires
        0 <= i <= s.len(),
    ensures
        ({
            let (o, g) = key_masked(s, i);
            &&& o.len() == g.len()
            &&& forall|p: int| 0 <= p < o.len() && #[trigger] g[p] == -1 ==> o[p] == '*'
            &&& forall|p: int|
                0 <= p < o.len() && #[trigger] g[p] != -1 ==> i <= g[p] < s.len() && o[p] == s[g[p]]
                    && !aws_key_at(s, g[p])
            &&& forall|p: int|
                0 <= p < o.len() - 1 && #[trigger] g[p] != -1 && g[p + 1] != -1 ==> g[p + 1]
                    == g[p] + 1
            &&& (o.len() > 0 && g[0] != -1 ==> g[0] == i)
            &&& forall|p: int|
                0 < p < o.len() && #[trigger] g[p] != -1 && g[p - 1] == -1 ==> plain_boundary(
                    s[g[p]],
                )
            &&& forall|p: int|
                0 <= p < o.len() - 1 && #[trigger] g[p] != -1 && g[p + 1] == -1 ==> aws_key_at(
                    s,
                    g[p] + 1,
                )
            &&& (o.len() > 0 && g[o.len() - 1] != -1 ==> g[o.len() - 1] == s.len() - 1)
            &&& (o.len() > 0 && g[0] == -1 ==> aws_key_at(s, i))
            &&& (o.len() == 0 ==> i == s.len())
        }),
    decreases s.len() - i,
{
    if i < s.len() {
        if aws_key_at(s, i) {
            lemma_key_masked(s, i + 20);
            let r = key_masked(s, i + 20);
            let o = seq!['*', '*', '*', '*'] + r.0;
            let g = seq![-1int, -1, -1, -1] + r.1;
            assert(key_masked(s, i) == (o, g));
            assert forall|p: int| 0 <= p < o.len() && #[trigger] g[p] != -1 implies i <= g[p] < s.len()
                && o[p] == s[g[p]] && !aws_key_at(s, g[p]) by {
                assert(p >= 4);
                assert(g[p] == r.1[p - 4] && o[p] == r.0[p - 4]);
            }
            assert forall|p: int| 0 <= p < o.len() && #[trigger] g[p] == -1 implies o[p] == '*' by {
                if p >= 4 {
                    assert(g[p] == r.1[p - 4] && o[p] == r.0[p - 4]);
                }
            }
            assert forall|p: int|
                0 <= p < o.len() - 1 && #[trigger] g[p] != -1 && g[p + 1] != -1 implies g[p + 1]
                    == g[p] + 1 by {
                assert(g[p] == r.1[p - 4] && g[p + 1] == r.1[p + 1 - 4]);
            }
            assert forall|p: int|
                0 < p < o.len() && #[trigger] g[p] != -1 && g[p - 1] == -1 implies plain_boundary(
                    s[g[p]],
                ) by {
                assert(g[p] == r.1[p - 4]);
                if p == 4 {
                    assert(g[p] == i + 20);
                } else {
                    assert(g[p - 1] == r.1[p - 1 - 4]);
                }
            }
            assert forall|p: int|
                0 <= p < o.len() - 1 && #[trigger] g[p] != -1 && g[p + 1] == -1 implies aws_key_at(
                    s,
                    g[p] + 1,
                ) by {
                assert(g[p] == r.1[p - 4] && g[p + 1] == r.1[p + 1 - 4]);
            }
            if o.len() > 0 && g[o.len() - 1] != -1 {
                assert(g[o.len() - 1] == r.1[r.1.len() - 1]);
            }
        } else {
            lemma_key_masked(s, i + 1);
            let r = key_masked(s, i + 1);
            let o = seq![s[i]] + r.0;
            let g = seq![i] + r.1;
            assert(key_masked(s, i) == (o, g));
            assert forall|p: int| 0 <= p < o.len() && #[trigger] g[p] != -1 implies i <= g[p] < s.len()
                && o[p] == s[g[p]] && !aws_key_at(s, g[p]) by {
                if p > 0 {
                    assert(g[p] == r.1[p - 1] && o[p] == r.0[p - 1]);
                }
            }
            assert forall|p: int| 0 <= p < o.len() && #[trigger] g[p] == -1 implies o[p] == '*' by {
                if p > 0 {
                    assert(g[p] == r.1[p - 1] && o[p] == r.0[p - 1]);
                }
            }
            assert forall|p: int|
                0 <= p < o.len() - 1 && #[trigger] g[p] != -1 && g[p + 1] != -1 implies g[p + 1]
                    == g[p] + 1 by {
                assert(g[p + 1] == r.1[p]);
                if p > 0 {
                    assert(g[p] == r.1[p - 1]);
                }
            }
            assert forall|p: int|
                0 < p < o.len() && #[trigger] g[p] != -1 && g[p - 1] == -1 implies plain_boundary(
                    s[g[p]],
                ) by {
                assert(g[p] == r.1[p - 1]);
                assert(g[p - 1] == r.1[p - 2]);
            }
            assert forall|p: int|
                0 <= p < o.len() - 1 && #[trigger] g[p] != -1 && g[p + 1] == -1 implies aws_key_at(
                    s,
                    g[p] + 1,
                ) by {
                assert(g[p + 1] == r.1[p]);
                if p > 0 {
                    assert(g[p] == r.1[p - 1]);
                } else {
                    assert(g[p] == i);
                }
            }
            if g[o.len() - 1] != -1 && r.1.len() > 0 {
                assert(g[o.len() - 1] == r.1[r.1.len() - 1]);
            }
        }
    }
}

proof fn lemma_kept_run(o: Seq<char>, g: Seq<int>, j: int, n: int)
    requires
        o.len() == g.len(),
        0 <= j,
        0 <= n,
        j + n < o.len(),
        forall|p: int| 0 <= p < o.len() && #[trigger] g[p] == -1 ==> o[p] == '*',
        forall|p: int|
            0 <= p < o.len() - 1 && #[trigger] g[p] != -1 && g[p + 1] != -1 ==> g[p + 1] == g[p] + 1,
        forall|p: int| j <= p <= j + n ==> #[trigger] o[p] != '*',
    ensures
        forall|p: int| j <= p <= j + n ==> #[trigger] g[p] == g[j] + (p - j) && g[p] != -1,
    decreases n,
{
    if n > 0 {
        lemma_kept_run(o, g, j, n - 1);
        assert(o[j + n] != '*');
        assert(g[j + n] != -1);
        assert(g[j + n - 1] != -1);
        assert(g[(j + n - 1) + 1] == g[j + n - 1] + 1);
    } else {
        assert(o[j] != '*');
    }
}

/// No AWS access key id is left once they have been masked: the masked text
/// holds no `AKIA` or `ASIA` word of 20 characters.
pub proof fn law_mask_key_ids_leaves_none(s: Seq<char>, j: int)
    ensures
        !aws_key_at(mask_key_ids(s), j),
{
    lemma_key_masked(s, 0);
    let (o, g) = key_masked(s, 0);
    if aws_key_at(o, j) {
        assert forall|p: int| j <= p <= j + 19 implies #[trigger] o[p] != '*' by {
            if p >= j + 4 {
                assert(key_id_char(o[j + (p - j)]));
            }
        }
        lemma_kept_run(o, g, j, 19);
        let i = g[j];
        assert forall|q: int| j <= q < j + 20 implies #[trigger] o[q] == s[i + (q - j)] by {
            assert(g[q] == i + (q - j));
        }
        assert forall|k: int| 4 <= k < 20 implies #[trigger] key_id_char(s[i + k]) by {
            assert(o[j + k] == s[i + ((j + k) - j)]);
            assert(key_id_char(o[j + k]));
        }
        assert(o[j] == s[i + (j - j)]);
        assert(o[j + 1] == s[i + ((j + 1) - j)]);
        assert(o[j + 2] == s[i + ((j + 2) - j)]);
        assert(o[j + 3] == s[i + ((j + 3) - j)]);
        assert(g[j + 19] == i + 19);
        assert(i + 19 < s.len());
        if j > 0 {
            if g[j - 1] == -1 {
                assert(plain_boundary(s[g[j]]));
                assert(false);
            } else {
                assert(g[(j - 1) + 1] == g[j - 1] + 1);
                assert(s[i - 1] == o[j - 1]);
            }
        } else {
            assert(i == 0);
        }
        if j + 20 < o.len() {
            if g[j + 20] == -1 {
                assert(aws_key_at(s, g[j + 19] + 1));
                assert(o[j + 19] == s[i + ((j + 19) - j)]);
                assert(key_id_char(o[j + 19]));
                assert(false);
            } else {
                assert(g[(j + 19) + 1] == g[j + 19] + 1);
                assert(s[i + 20] == o[j + 20]);
            }
        } else {
            assert(g[o.len() - 1] == s.len() - 1);
        }
        assert(aws_key_at(s, i));
        assert(!aws_key_at(s, g[j]));
    }
}

/// A text holding no AWS access key id is left as it is by the masking pass.
pub proof fn law_mask_key_ids_keeps_clean_text(s: Seq<char>)
    requires
        forall|i: int| !aws_key_at(s, i),
    ensures
        mask_key_ids(s) == s,
{
    lemma_clean_suffix(s, 0);
    assert(s.skip(0) =~= s);
}

proof fn lemma_clean_suffix(s: Seq<char>, i: int)
    requires
        0 <= i <= s.len(),
        forall|k: int| !aws_key_at(s, k),
    ensures
        key_masked(s, i).0 == s.skip(i),
    decreases s.len() - i,
{
    if i < s.len() {
        assert(!aws_key_at(s, i));
        lemma_clean_suffix(s, i + 1);
        assert(s.skip(i) =~= seq![s[i]] + s.skip(i + 1));
    } else {
        assert(s.skip(i) =~= Seq::<char>::empty());
    }
}

/// Whether an AWS access key id starts at `i` (see `aws_key_at`).
fn aws_key_at_exec(v: &Vec<char>, i: usize) -> (b: bool)
    ensures
        b == aws_key_at(v@, i as int),
{
    if i > v.len() || v.len() - i < 20 {
        return false;
    }
    let c0 = v[i];
    let c1 = v[i + 1];
    let c2 = v[i + 2];
    let c3 = v[i + 3];
    if !((c0 == 'A' || c0 == 'a') && (c1 == 'K' || c1 == 'k' || c1 == 'S' || c1 == 's') && (c2
        == 'I' || c2 == 'i') && (c3 == 'A' || c3 == 'a')) {
        return false;
    }
    let mut k: usize = 4;
    while k < 20
        invariant
            4 <= k <= 20,
            i + 20 <= v.len(),
            forall|m: int| 4 <= m < k ==> #[trigger] key_id_char(v@[i + m]),
        decreases 20 - k,
    {
        let c = v[i + k];
        if !(('0' <= c && c <= '9') || ('A' <= c && c <= 'Z') || ('a' <= c && c <= 'z')) {
            assert(!key_id_char(v@[i + k]));
            return false;
        }
        k += 1;
    }
    let left = i == 0 || {
        let c = v[i - 1];
        c < '\u{80}' && !('0' <= c && c <= '9') && !('A' <= c && c <= 'Z') && !('a' <= c && c
            <= 'z') && c != '_'
    };
    let right = i + 20 == v.len() || {
        let c = v[i + 20];
        c < '\u{80}' && !('0' <= c && c <= '9') && !('A' <= c && c <= 'Z') && !('a' <= c && c
            <= 'z') && c != '_'
    };
    left && right
}

/// Replaces every AWS access key id of a text by `****` (see `mask_key_ids`).
pub fn mask_aws_key_ids(s: &str) -> (r: String)
    ensures
        r@ == mask_key_ids(s@),
{
    let v = chars_of(s);
    let mut out: Vec<char> = Vec::new();
    let mut i: usize = 0;
    while i < v.len()
        invariant
            i <= v.len(),
            v@ == s@,
            out@ + key_masked(v@, i as int).0 == key_masked(v@, 0).0,
        decreases v.len() - i,
    {
        if aws_key_at_exec(&v, i) {
            let ghost before = out@;
            out.push('*');
            out.push('*');
            out.push('*');
            out.push('*');
            assert(out@ =~= before + seq!['*', '*', '*', '*']);
            assert(out@ + key_masked(v@, i + 20).0 =~= before + key_masked(v@, i as int).0);
            i += 20;
        } else {
            let ghost before = out@;
            out.push(v[i]);
            assert(out@ + key_masked(v@, i + 1).0 =~= before + key_masked(v@, i as int).0);
            i += 1;
        }
    }
    assert(key_masked(v@, i as int).0 =~= Seq::<char>::empty());
    assert(out@ =~= key_masked(v@, 0).0);
    string_of(&out)
}

/// No AWS access key id (`AKIA` or `ASIA` and 16 digits or letters, in any ASCII
/// letter case, standing as a word) survives redaction, whatever the text.
pub proof fn law_redact_masks_aws_key_ids(s: Seq<char>, j: int)
    ensures
        ({
            let o = redact_spec(s);
            !({
                &&& 0 <= j && j + 20 <= o.len()
                &&& (o[j] == 'A' || o[j] == 'a') && (o[j + 1] == 'K' || o[j + 1] == 'k' || o[j
                    + 1] == 'S' || o[j + 1] == 's') && (o[j + 2] == 'I' || o[j + 2] == 'i') && (o[j
                    + 3] == 'A' || o[j + 3] == 'a')
                &&& forall|k: int|
                    4 <= k < 20 ==> ('0' <= #[trigger] o[j + k] <= '9') || ('A' <= o[j + k] <= 'Z')
                        || ('a' <= o[j + k] <= 'z')
                &&& (j == 0 || (o[j - 1] < '\u{80}' && !('0' <= o[j - 1] <= '9') && !('A' <= o[j
                    - 1] <= 'Z') && !('a' <= o[j - 1] <= 'z') && o[j - 1] != '_'))
                &&& (j + 20 == o.len() || (o[j + 20] < '\u{80}' && !('0' <= o[j + 20] <= '9')
                    && !('A' <= o[j + 20] <= 'Z') && !('a' <= o[j + 20] <= 'z') && o[j + 20]
                    != '_'))
            })
        }),
{
    law_mask_key_ids_leaves_none(regex_redactions(s), j);
    let o = redact_spec(s);
    if 0 <= j && j + 20 <= o.len() {
        assert forall|k: int| 4 <= k < 20 && (('0' <= #[trigger] o[j + k] <= '9') || ('A' <= o[j + k]
            <= 'Z') || ('a' <= o[j + k] <= 'z')) implies key_id_char(o[j + k]) by {}
    }
}

fn replace_or_keep(pattern: &str, text: String, replacement: &str) -> (r: String)
    ensures
        r@ == or_unchanged(regex_replace_all_result(pattern@, text@, replacement@), text@),
{
    match regex_replace_all(pattern, text.as_str(), replacement) {
        Some(o) => o,
        None => text,
    }
}

fn mask_or_keep(pattern: &str, text: String, mask: TokenMask) -> (r: String)
    ensures
        r@ == or_unchanged(regex_replace_masked_result(pattern@, text@, mask), text@),
{
    match regex_replace_masked(pattern, text.as_str(), mask) {
        Some(o) => o,
        None => text,
    }
}

/// Masks common secrets in a text (see `redact_spec`).
pub fn redact(s: &str) -> (out: String)
    ensures
        out@ == redact_spec(s@),
{
    let out = s.to_owned();
    let out = replace_or_keep(r"(?i)\b(AKIA|ASIA)[0-9A-Z]{16}\b", out, "****");
    let out = replace_or_keep(
        r"(?i)(aws[_-]?secret[_-]?access[_-]?key\s*[:=]\s*['\x22]?)([A-Za-z0-9/+=]{40})",
        out,
        "$1****",
    );
    let out = replace_or_keep(r"(?i)\b(bearer)\s+[A-Za-z0-9_.]{16,}\b", out, "$1 ****");
    let out = replace_or_keep(
        r"(?i)(api[_-]?key|apikey|token|auth)(?:_?id)?\s*[:=]\s*['\x22]?([A-Za-z0-9_-]{16,})",
        out,
        "$1=****",
    );
    let out = mask_or_keep(
        r"([?&](?:key|api[_-]?key|token)=[^&\s]{4,})",
        out,
        TokenMask::QueryParam,
    );
    let out = mask_or_keep(r"\b[A-Za-z0-9/_\+=]{24,}\b", out, TokenMask::HighEntropy);
    mask_aws_key_ids(out.as_str())
}

// ===== Runs =====

/// A request to run an AI provider on a document.
pub struct AiRunRequest {
    pub provider: String,
    pub doc_id: String,
    pub anchor_id: Option<String>,
    pub line: Option<usize>,
    pub prompt: String,
}

/// The line a run targets: the line of the anchor when its id carries one,
/// else the requested line, else line 1.
pub open spec fn run_target_line(line: Option<usize>, anchor_id: Option<Seq<char>>) -> int {
    let fallback: int = match line {
        Some(l) => l as int,
        None => 1,
    };
    match anchor_id {
        Some(a) => match anchor_line(a) {
            Some(n) => n as int,
            None => fallback,
        },
        None => fallback,
    }
}

/// The view of an optional string.
pub open spec fn opt_view(o: Option<String>) -> Option<Seq<char>> {
    match o {
        Some(s) => Some(s@),
        None => None,
    }
}

/// The line targeted by a run (see `run_target_line`).
pub fn target_line(line: Option<usize>, anchor_id: &Option<String>) -> (r: usize)
    ensures
        r as int == run_target_line(line, opt_view(*anchor_id)),
{
    let fallback = match line {
        Some(l) => l,
        None => 1,
    };
    match anchor_id {
        Some(a) => match parse_anchor_line(a.as_str()) {
            Some(n) => n,
            None => fallback,
        },
        None => fallback,
    }
}

/// Whether a requested provider name asks for the default provider.
pub open spec fn asks_default(requested: Seq<char>) -> bool {
    requested.len() == 0 || requested == "default"@
}

/// The provider a run uses: the requested one, or for the default the repository's
/// non-empty default, else the application default, else `local`.
pub open spec fn provider_choice(
    requested: Seq<char>,
    repo_default: Option<Seq<char>>,
    app_default: Option<Seq<char>>,
) -> Seq<char> {
    if asks_default(requested) {
        match repo_default {
            Some(p) if p.len() > 0 => p,
            _ => match app_default {
                Some(a) => a,
                None => "local"@,
            },
        }
    } else {
        requested
    }
}

/// Whether a requested provider name asks for the default provider.
pub fn is_default_request(requested: &str) -> (b: bool)
    ensures
        b == asks_default(requested@),
{
    requested.is_empty() || str_eq(requested, "default")
}

/// Resolves the provider of a run (see `provider_choice`).
pub fn resolve_provider(
    requested: &str,
    repo_default: &Option<String>,
    app_default: &Option<String>,
) -> (r: String)
    ensures
        r@ == provider_choice(requested@, opt_view(*repo_default), opt_view(*app_default)),
{
    if !is_default_request(requested) {
        return requested.to_owned();
    }
    match repo_default {
        Some(p) => {
            if !p.as_str().is_empty() {
                return p.clone();
            }
        },
        None => {},
    }
    match app_default {
        Some(a) => a.clone(),
        None => "local".to_owned(),
    }
}

/// What gating a provider before a run decides from its registry row
/// (`kind`, `enabled`).
#[derive(Debug)]
pub enum ProviderAdmission {
    /// The run may go ahead.
    Allow,
    /// The run is refused with this error.
    Deny(String),
    /// The provider is remote: the run may go ahead only if a key is stored.
    NeedsKey,
}

/// The admission of a provider row for `ai_run`: an unknown provider is not checked;
/// a disabled one is refused with `provider_disabled`; a remote one needs a key.
pub fn admit_run_provider(row: &Option<(String, i64)>) -> (g: ProviderAdmission)
    ensures
        match row {
            None => g is Allow,
            Some((kind, enabled)) => if *enabled == 0 {
                g matches ProviderAdmission::Deny(m) && m@ == "provider_disabled"@
            } else if kind@ == "remote"@ {
                g is NeedsKey
            } else {
                g is Allow
            },
        },
{
    match row {
        None => ProviderAdmission::Allow,
        Some((kind, enabled)) => {
            if *enabled == 0 {
                ProviderAdmission::Deny("provider_disabled".to_owned())
            } else if str_eq(kind.as_str(), "remote") {
                ProviderAdmission::NeedsKey
            } else {
                ProviderAdmission::Allow
            }
        },
    }
}

/// The admission of a provider row for a provider test: an unknown provider is refused
/// with `not_found`, a disabled one with `disabled`; a remote one needs a key.
pub fn admit_test_provider(row: &Option<(String, i64)>) -> (g: ProviderAdmission)
    ensures
        match row {
            None => g matches ProviderAdmission::Deny(m) && m@ == "not_found"@,
            Some((kind, enabled)) => if *enabled == 0 {
                g matches ProviderAdmission::Deny(m) && m@ == "disabled"@
            } else if kind@ == "remote"@ {
                g is NeedsKey
            } else {
                g is Allow
            },
        },
{
    match row {
        None => ProviderAdmission::Deny("not_found".to_owned()),
        Some((kind, enabled)) => {
            if *enabled == 0 {
                ProviderAdmission::Deny("disabled".to_owned())
            } else if str_eq(kind.as_str(), "remote") {
                ProviderAdmission::NeedsKey
            } else {
                ProviderAdmission::Allow
            }
        },
    }
}

/// The end of the key check of a remote provider: refused with `no_key` when no
/// key is stored.
pub fn require_key(has_key: bool) -> (r: Result<(), String>)
    ensures
        r is Ok <==> has_key,
        r matches Err(m) ==> m@ == "no_key"@,
{
    if has_key {
        Ok(())
    } else {
        Err("no_key".to_owned())
    }
}

/// The reply of a successful provider test.
pub struct ProviderTestReply {
    pub provider: String,
    pub ok: bool,
    pub echo: String,
}

/// The reply of a provider test that was admitted: the provider's name and the prompt echoed.
pub fn provider_test_reply(name: &str, prompt: &str) -> (r: ProviderTestReply)
    ensures
        r.provider@ == name@,
        r.ok,
        r.echo@ == prompt@,
{
    ProviderTestReply { provider: name.to_owned(), ok: true, echo: prompt.to_owned() }
}

/// The effective provider of a document as shown to the user.
pub struct ProviderResolution {
    pub name: String,
    pub kind: String,
    pub enabled: bool,
    pub has_key: bool,
    pub allowed: bool,
}

/// The resolution of a provider from its registry row (`local`, enabled, when
/// there is none) and, for a remote provider, whether a key is stored: it is
/// allowed when enabled and, if remote, keyed.
pub fn provider_resolution(name: String, row: Option<(String, i64)>, remote_key: bool) -> (r:
    ProviderResolution)
    ensures
        r.name@ == name@,
        r.kind@ == (match row {
            Some((k, _)) => k@,
            None => "local"@,
        }),
        r.enabled == (match row {
            Some((_, e)) => e != 0,
            None => true,
        }),
        r.has_key == (r.kind@ != "remote"@ || remote_key),
        r.allowed == (r.enabled && (r.kind@ != "remote"@ || r.has_key)),
{
    let (kind, enabled) = match row {
        Some((k, e)) => (k, e),
        None => ("local".to_owned(), 1),
    };
    let remote = str_eq(kind.as_str(), "remote");
    let has_key = !remote || remote_key;
    let on = enabled != 0;
    let allowed = on && (!remote || has_key);
    ProviderResolution { name, kind, enabled: on, has_key, allowed }
}

/// The text answered by a run without a remote model: the provider, the prompt
/// and the redacted context.
pub fn run_response_text(provider: &str, prompt: &str, context: &str) -> (r: String)
    ensures
        r@ == "["@ + provider@ + "]\nPrompt: "@ + prompt@ + "\n---\n"@ + context@,
{
    let mut r = "[".to_owned();
    r.append(provider);
    r.append("]\nPrompt: ");
    r.append(prompt);
    r.append("\n---\n");
    r.append(context);
    r
}

/// The text answered by an OpenRouter run that failed with `err`.
pub fn openrouter_error_text(err: &str, prompt: &str, context: &str) -> (r: String)
    ensures
        r@ == "[openrouter:error:"@ + err@ + "]\nPrompt: "@ + prompt@ + "\n---\n"@ + context@,
{
    let mut r = "[openrouter:error:".to_owned();
    r.append(err);
    r.append("]\nPrompt: ");
    r.append(prompt);
    r.append("\n---\n");
    r.append(context);
    r
}

/// The user message sent to OpenRouter: the prompt, a rule, then the context.
pub fn openrouter_user_content(prompt: &str, context: &str) -> (r: String)
    ensures
        r@ == prompt@ + "\n\n---\n"@ + context@,
{
    let mut r = prompt.to_owned();
    r.append("\n\n---\n");
    r.append(context);
    r
}

/// The answer of an OpenRouter call and the model that gave it.
#[derive(Debug)]
pub struct OrCallResult {
    pub text: String,
    pub model: String,
}

/// Whether a choice carries a message with content.
pub open spec fn has_content(c: Option<Option<String>>) -> bool {
    c matches Some(Some(_))
}

/// The content of a choice that has one.
pub open spec fn content_of(c: Option<Option<String>>) -> Seq<char> {
    match c {
        Some(Some(t)) => t@,
        _ => seq![],
    }
}

/// The answer of an OpenRouter reply: the content of the first choice whose
/// message has content (each choice is its optional message's optional content),
/// or `empty_response`.
#[verifier::loop_isolation(false)]
pub fn openrouter_answer(choices: Option<Vec<Option<Option<String>>>>, model: String) -> (r: Result<
    OrCallResult,
    String,
>)
    ensures
        match r {
            Ok(res) => {
                &&& res.model@ == model@
                &&& choices is Some
                &&& exists|i: int|
                    0 <= i < choices->0@.len() && has_content(choices->0@[i]) && content_of(
                        choices->0@[i],
                    ) == res.text@ && forall|k: int|
                        0 <= k < i ==> !has_content(choices->0@[k])
            },
            Err(m) => {
                &&& m@ == "empty_response"@
                &&& choices is Some ==> forall|k: int|
                    0 <= k < choices->0@.len() ==> !has_content(choices->0@[k])
            },
        },
{
    match choices {
        Some(cs) => {
            let mut i: usize = 0;
            while i < cs.len()
                invariant
                    i <= cs.len(),
                    forall|k: int| 0 <= k < i ==> !has_content(cs@[k]),
                decreases cs.len() - i,
            {
                match &cs[i] {
                    Some(Some(t)) => {
                        let text = t.clone();
                        assert(has_content(cs@[i as int]) && content_of(cs@[i as int]) == text@);
                        assert(exists|j: int|
                            0 <= j < cs@.len() && has_content(cs@[j]) && content_of(cs@[j])
                                == text@ && forall|k: int| 0 <= k < j ==> !has_content(cs@[k]));
                        return Ok(OrCallResult { text, model });
                    },
                    _ => {},
                }
                i += 1;
            }
            Err("empty_response".to_owned())
        },
        None => Err("empty_response".to_owned()),
    }
}

/// A provider of the registry as listed to the user.
pub struct ProviderRow {
    pub name: String,
    pub kind: String,
    pub enabled: bool,
}

/// A listed provider from its registry row (`enabled` is stored as an integer).
pub fn provider_row(name: String, kind: String, enabled: i64) -> (r: ProviderRow)
    ensures
        r.name == name && r.kind == kind && r.enabled == (enabled != 0),
{
    ProviderRow { name, kind, enabled: enabled != 0 }
}

} // verus!
