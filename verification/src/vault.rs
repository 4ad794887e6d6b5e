//! Reading notes: code regions, wikilinks, tags, sort keys and frontmatter.
use vstd::prelude::*;

pub use crate::expr::translate::VaultSchema;
use crate::yaml::YamlValue;
use crate::text::{
    char_is_alphabetic, char_is_alphanumeric, char_is_whitespace, char_len_utf8, chars_of,
    is_alphabetic, is_alphanumeric, is_ascii_digit, is_digit, is_whitespace, push_char, seq_lt,
    sorted_distinct, str_eq, strictly_sorted, views_of,
    string_from_chars, sub_chars, trim_range, char_to_lowercase, to_lowercase_chars,
    trim_ws, utf8_len, utf8_width,
};

verus! {

// ---------- Code regions ----------

/// Number of consecutive `c` starting at `i`.
pub open spec fn run_len(s: Seq<char>, i: int, c: char) -> nat
    decreases s.len() - i,
{
    if 0 <= i < s.len() && s[i] == c {
        1 + run_len(s, i + 1, c)
    } else {
        0
    }
}

/// Index of the first newline at or after `i`, or the length.
pub open spec fn line_end(s: Seq<char>, i: int) -> int
    decreases s.len() - i,
{
    if i >= s.len() {
        s.len() as int
    } else if i >= 0 && s[i] == '\n' {
        i
    } else {
        line_end(s, i + 1)
    }
}

pub open spec fn spaces(n: nat) -> Seq<char> {
    Seq::new(n, |k: int| ' ')
}

/// As many spaces as `s[a..b]` has bytes in UTF-8.
pub open spec fn blank(s: Seq<char>, a: int, b: int) -> Seq<char> {
    spaces(utf8_len(s.subrange(a, b)))
}

pub open spec fn is_blank_char(c: char) -> bool {
    c == ' ' || c == '\t'
}

/// First index in `[a, b)` holding neither a space nor a tab, or `b`.
pub open spec fn first_non_blank(s: Seq<char>, a: int, b: int) -> int
    decreases b - a,
{
    if a >= b {
        b
    } else if is_blank_char(s[a]) {
        first_non_blank(s, a + 1, b)
    } else {
        a
    }
}

/// The line `s[ls..le]` closes a fence of `fence_len` backticks: after
/// optional indentation it holds at least that many backticks and then only
/// spaces and tabs.
pub open spec fn closes_fence(s: Seq<char>, ls: int, le: int, fence_len: nat) -> bool {
    let ts = first_non_blank(s, ls, le);
    let cl = run_len(s, ts, '`');
    cl >= fence_len && forall|j: int| ts + cl <= j < le ==> is_blank_char(#[trigger] s[j])
}

/// The lines of a fenced block from `i` up to and including the closing
/// fence (or the end of the text), blanked; and the index after them.
pub open spec fn fence_lines(s: Seq<char>, i: int, fence_len: nat) -> (Seq<char>, int)
    decreases s.len() - i,
{
    if i < 0 || i >= s.len() {
        (Seq::empty(), i)
    } else {
        let le = line_end(s, i);
        let piece = if le < s.len() {
            blank(s, i, le).push('\n')
        } else {
            blank(s, i, le)
        };
        let next = if le < s.len() {
            le + 1
        } else {
            le
        };
        if closes_fence(s, i, le, fence_len) {
            (piece, next)
        } else {
            proof {
                lemma_line_end_bounds(s, i);
            }
            let rest = fence_lines(s, next, fence_len);
            (piece + rest.0, rest.1)
        }
    }
}

/// Start of the closing run of exactly `tick` backticks on the same line,
/// searching from `j`.
pub open spec fn inline_close(s: Seq<char>, j: int, tick: nat) -> Option<int>
    decreases s.len() - j,
    via inline_close_decreases
{
    if j < 0 || j >= s.len() || s[j] == '\n' {
        None
    } else if s[j] == '`' {
        let k = run_len(s, j, '`');
        if k == tick {
            Some(j)
        } else {
            inline_close(s, j + k, tick)
        }
    } else {
        inline_close(s, j + 1, tick)
    }
}

/// The text from `i` with code regions blanked: a line starting with three
/// or more backticks opens a fenced block that runs to a line holding at
/// least as many backticks and nothing else; otherwise a backtick run
/// closed by an equal run on the same line is an inline span. Every
/// character of a region becomes as many spaces as it has UTF-8 bytes;
/// newlines are kept.
pub open spec fn strip_from(s: Seq<char>, i: int, at_line_start: bool) -> Seq<char>
    decreases s.len() - i,
{
    if i < 0 || i >= s.len() {
        Seq::empty()
    } else {
        let c = s[i];
        let fl = run_len(s, i, '`');
        if at_line_start && c == '`' && fl >= 3 {
            let le = line_end(s, i);
            let head = if le < s.len() {
                blank(s, i, le).push('\n')
            } else {
                blank(s, i, le)
            };
            let start = if le < s.len() {
                le + 1
            } else {
                le
            };
            proof {
                lemma_line_end_bounds(s, i);
                lemma_fence_lines_progress(s, start, fl);
            }
            let body = fence_lines(s, start, fl);
            head + body.0 + strip_from(s, body.1, true)
        } else if c == '`' && inline_close(s, i + fl, fl) is Some {
            let end = inline_close(s, i + fl, fl)->0;
            proof {
                lemma_inline_close_bounds(s, i + fl, fl);
            }
            blank(s, i, end + fl) + strip_from(s, end + fl, false)
        } else {
            seq![c] + strip_from(s, i + 1, c == '\n')
        }
    }
}

#[via_fn]
proof fn inline_close_decreases(s: Seq<char>, j: int, tick: nat) {
    if 0 <= j < s.len() && s[j] == '`' {
        assert(run_len(s, j, '`') == 1 + run_len(s, j + 1, '`'));
        lemma_run_len_bounds(s, j, '`');
    }
}

pub proof fn lemma_line_end_bounds(s: Seq<char>, i: int)
    requires
        0 <= i <= s.len(),
    ensures
        i <= line_end(s, i) <= s.len(),
        line_end(s, i) < s.len() ==> s[line_end(s, i)] == '\n',
        forall|j: int| i <= j < line_end(s, i) ==> s[j] != '\n',
    decreases s.len() - i,
{
    if i < s.len() && s[i] != '\n' {
        lemma_line_end_bounds(s, i + 1);
    }
}

pub proof fn lemma_run_len_bounds(s: Seq<char>, i: int, c: char)
    requires
        0 <= i <= s.len(),
    ensures
        i + run_len(s, i, c) <= s.len(),
        forall|j: int| i <= j < i + run_len(s, i, c) ==> s[j] == c,
        i + run_len(s, i, c) < s.len() ==> s[i + run_len(s, i, c)] != c,
    decreases s.len() - i,
{
    if i < s.len() && s[i] == c {
        lemma_run_len_bounds(s, i + 1, c);
    }
}

pub proof fn lemma_fence_lines_progress(s: Seq<char>, i: int, fence_len: nat)
    requires
        0 <= i <= s.len(),
    ensures
        i <= fence_lines(s, i, fence_len).1 <= s.len(),
    decreases s.len() - i,
{
    if i < s.len() {
        lemma_line_end_bounds(s, i);
        let le = line_end(s, i);
        let next = if le < s.len() {
            le + 1
        } else {
            le
        };
        if !closes_fence(s, i, le, fence_len) {
            lemma_fence_lines_progress(s, next, fence_len);
        }
    }
}

pub proof fn lemma_inline_close_bounds(s: Seq<char>, j: int, tick: nat)
    requires
        0 <= j,
        inline_close(s, j, tick) is Some,
    ensures
        j <= inline_close(s, j, tick)->0,
        inline_close(s, j, tick)->0 + tick <= s.len(),
    decreases s.len() - j,
{
    if j < s.len() && s[j] != '\n' {
        if s[j] == '`' {
            lemma_run_len_bounds(s, j, '`');
            let k = run_len(s, j, '`');
            if k != tick {
                lemma_inline_close_bounds(s, j + k, tick);
            }
        } else {
            lemma_inline_close_bounds(s, j + 1, tick);
        }
    }
}


/// The text with its code regions blanked.
pub open spec fn strip_code(s: Seq<char>) -> Seq<char> {
    strip_from(s, 0, true)
}

proof fn lemma_spaces_len(n: nat)
    ensures
        utf8_len(spaces(n)) == n,
    decreases n,
{
    if n > 0 {
        lemma_spaces_len((n - 1) as nat);
        assert(spaces(n).drop_last() =~= spaces((n - 1) as nat));
        assert(spaces(n).last() == ' ');
    }
}

proof fn lemma_subrange_join(s: Seq<char>, a: int, b: int, c: int)
    requires
        0 <= a <= b <= c <= s.len(),
    ensures
        utf8_len(s.subrange(a, c)) == utf8_len(s.subrange(a, b)) + utf8_len(s.subrange(b, c)),
{
    assert(s.subrange(a, b) + s.subrange(b, c) =~= s.subrange(a, c));
    crate::text::lemma_utf8_len_concat(s.subrange(a, b), s.subrange(b, c));
}

/// A blanked line, with its newline when it has one, has the bytes of the
/// line.
proof fn lemma_piece_len(s: Seq<char>, i: int)
    requires
        0 <= i < s.len(),
    ensures
        ({
            let le = line_end(s, i);
            let piece = if le < s.len() {
                blank(s, i, le).push('\n')
            } else {
                blank(s, i, le)
            };
            let next = if le < s.len() {
                le + 1
            } else {
                le
            };
            utf8_len(piece) == utf8_len(s.subrange(i, next))
        }),
{
    lemma_line_end_bounds(s, i);
    let le = line_end(s, i);
    lemma_spaces_len(utf8_len(s.subrange(i, le)));
    if le < s.len() {
        let b = blank(s, i, le);
        crate::text::lemma_utf8_len_concat(b, seq!['\n']);
        assert(b.push('\n') =~= b + seq!['\n']);
        assert(seq!['\n'].drop_last() =~= Seq::<char>::empty());
        lemma_subrange_join(s, i, le, le + 1);
        assert(s.subrange(le, le + 1) =~= seq!['\n']);
    }
}

proof fn lemma_fence_lines_len(s: Seq<char>, i: int, fence_len: nat)
    requires
        0 <= i <= s.len(),
    ensures
        utf8_len(fence_lines(s, i, fence_len).0) == utf8_len(s.subrange(i, fence_lines(s, i, fence_len).1)),
    decreases s.len() - i,
{
    if i >= s.len() {
        assert(s.subrange(i, i) =~= Seq::<char>::empty());
    } else {
        lemma_line_end_bounds(s, i);
        lemma_piece_len(s, i);
        let le = line_end(s, i);
        let next = if le < s.len() {
            le + 1
        } else {
            le
        };
        if !closes_fence(s, i, le, fence_len) {
            lemma_fence_lines_len(s, next, fence_len);
            lemma_fence_lines_progress(s, next, fence_len);
            let rest = fence_lines(s, next, fence_len);
            let piece = if le < s.len() {
                blank(s, i, le).push('\n')
            } else {
                blank(s, i, le)
            };
            crate::text::lemma_utf8_len_concat(piece, rest.0);
            lemma_subrange_join(s, i, next, rest.1);
        }
    }
}

proof fn lemma_strip_from_len(s: Seq<char>, i: int, at_line_start: bool)
    requires
        0 <= i <= s.len(),
    ensures
        utf8_len(strip_from(s, i, at_line_start)) == utf8_len(s.subrange(i, s.len() as int)),
    decreases s.len() - i,
{
    if i >= s.len() {
        assert(s.subrange(i, s.len() as int) =~= Seq::<char>::empty());
    } else {
        let c = s[i];
        let fl = run_len(s, i, '`');
        if at_line_start && c == '`' && fl >= 3 {
            lemma_line_end_bounds(s, i);
            lemma_piece_len(s, i);
            let le = line_end(s, i);
            let start = if le < s.len() {
                le + 1
            } else {
                le
            };
            let head = if le < s.len() {
                blank(s, i, le).push('\n')
            } else {
                blank(s, i, le)
            };
            lemma_fence_lines_progress(s, start, fl);
            lemma_fence_lines_len(s, start, fl);
            let body = fence_lines(s, start, fl);
            lemma_strip_from_len(s, body.1, true);
            crate::text::lemma_utf8_len_concat(head, body.0);
            crate::text::lemma_utf8_len_concat(head + body.0, strip_from(s, body.1, true));
            lemma_subrange_join(s, i, start, body.1);
            lemma_subrange_join(s, i, body.1, s.len() as int);
        } else if c == '`' && inline_close(s, i + fl, fl) is Some {
            lemma_run_len_bounds(s, i, '`');
            let end = inline_close(s, i + fl, fl)->0;
            lemma_inline_close_bounds(s, i + fl, fl);
            lemma_strip_from_len(s, end + fl, false);
            lemma_spaces_len(utf8_len(s.subrange(i, end + fl)));
            crate::text::lemma_utf8_len_concat(blank(s, i, end + fl), strip_from(s, end + fl, false));
            lemma_subrange_join(s, i, end + fl, s.len() as int);
        } else {
            lemma_strip_from_len(s, i + 1, c == '\n');
            crate::text::lemma_utf8_len_concat(seq![c], strip_from(s, i + 1, c == '\n'));
            assert(seq![c].drop_last() =~= Seq::<char>::empty());
            lemma_subrange_join(s, i, i + 1, s.len() as int);
            assert(s.subrange(i, i + 1) =~= seq![c]);
        }
    }
}

/// Blanking code regions keeps the byte length of the text, so byte offsets
/// into the blanked text are offsets into the input.
pub proof fn law_strip_code_keeps_byte_length(s: Seq<char>)
    ensures
        utf8_len(strip_code(s)) == utf8_len(s),
{
    lemma_strip_from_len(s, 0, true);
    assert(s.subrange(0, s.len() as int) =~= s);
}

fn run_at(s: &Vec<char>, i: usize, c: char) -> (r: usize)
    requires
        i <= s.len(),
    ensures
        r == run_len(s@, i as int, c),
        i + r <= s.len(),
{
    let mut j = i;
    while j < s.len() && s[j] == c
        invariant
            i <= j <= s.len(),
            run_len(s@, i as int, c) == (j - i) + run_len(s@, j as int, c),
        decreases s.len() - j,
    {
        j += 1;
    }
    j - i
}

fn line_end_at(s: &Vec<char>, i: usize) -> (r: usize)
    requires
        i <= s.len(),
    ensures
        r == line_end(s@, i as int),
        i <= r <= s.len(),
{
    let mut j = i;
    while j < s.len() && s[j] != '\n'
        invariant
            i <= j <= s.len(),
            line_end(s@, i as int) == line_end(s@, j as int),
        decreases s.len() - j,
    {
        j += 1;
    }
    j
}

fn push_blank(out: &mut Vec<char>, s: &Vec<char>, a: usize, b: usize)
    requires
        a <= b <= s.len(),
    ensures
        final(out)@ == old(out)@ + blank(s@, a as int, b as int),
{
    let mut k = a;
    while k < b
        invariant
            a <= k <= b <= s.len(),
            out@ == old(out)@ + blank(s@, a as int, k as int),
        decreases b - k,
    {
        let w = char_len_utf8(s[k]);
        let mut t: usize = 0;
        while t < w
            invariant
                t <= w,
                w == utf8_width(s@[k as int]),
                a <= k < b <= s.len(),
                out@ == old(out)@ + blank(s@, a as int, k as int) + spaces(t as nat),
            decreases w - t,
        {
            out.push(' ');
            t += 1;
            assert(out@ =~= old(out)@ + blank(s@, a as int, k as int) + spaces(t as nat));
        }
        proof {
            assert(s@.subrange(a as int, k + 1).drop_last() =~= s@.subrange(a as int, k as int));
            let n = utf8_len(s@.subrange(a as int, k as int));
            assert(spaces(n + (w as nat)) =~= spaces(n) + spaces(w as nat));
        }
        k += 1;
    }
}

fn closes_fence_at(s: &Vec<char>, ls: usize, le: usize, fence_len: usize) -> (r: bool)
    requires
        ls <= le <= s.len(),
        le == line_end(s@, ls as int),
    ensures
        r == closes_fence(s@, ls as int, le as int, fence_len as nat),
{
    let mut ts = ls;
    while ts < le && (s[ts] == ' ' || s[ts] == '\t')
        invariant
            ls <= ts <= le <= s.len(),
            first_non_blank(s@, ls as int, le as int) == first_non_blank(s@, ts as int, le as int),
        decreases le - ts,
    {
        ts += 1;
    }
    let cl = run_at(s, ts, '`');
    proof {
        lemma_line_end_bounds(s@, ls as int);
        lemma_run_len_bounds(s@, ts as int, '`');
        if ts + cl > le {
            assert(s@[le as int] == '`');
        }
    }
    if cl < fence_len {
        return false;
    }
    let mut j = ts + cl;
    while j < le
        invariant
            ts + cl <= j <= le <= s.len(),
            ts as int == first_non_blank(s@, ls as int, le as int),
            cl == run_len(s@, ts as int, '`'),
            cl >= fence_len,
            forall|m: int| ts + cl <= m < j ==> is_blank_char(#[trigger] s@[m]),
        decreases le - j,
    {
        if !(s[j] == ' ' || s[j] == '\t') {
            assert(!is_blank_char(s@[j as int]));
            return false;
        }
        j += 1;
    }
    true
}

fn inline_close_at(s: &Vec<char>, j0: usize, tick: usize) -> (r: Option<usize>)
    requires
        j0 <= s.len(),
    ensures
        match inline_close(s@, j0 as int, tick as nat) {
            Some(e) => r == Some(e as usize),
            None => r is None,
        },
{
    let mut j = j0;
    while j < s.len()
        invariant
            j0 <= j <= s.len(),
            inline_close(s@, j0 as int, tick as nat) == inline_close(s@, j as int, tick as nat),
        decreases s.len() - j,
    {
        if s[j] == '\n' {
            return None;
        }
        if s[j] == '`' {
            let k = run_at(s, j, '`');
            if k == tick {
                return Some(j);
            }
            proof {
                assert(run_len(s@, j as int, '`') == 1 + run_len(s@, j + 1, '`'));
            }
            j += k;
        } else {
            j += 1;
        }
    }
    None
}

/// Blank fenced code blocks and inline code spans, keeping every other
/// character and the byte length of the text.
pub fn strip_code_regions(content: &str) -> (r: String)
    ensures
        r@ == strip_code(content@),
{
    let s = crate::text::chars_of(content);
    let ghost total = strip_from(s@, 0, true);
    let mut out: Vec<char> = Vec::new();
    let mut i: usize = 0;
    let mut als = true;
    while i < s.len()
        invariant
            0 <= i <= s.len(),
            total == strip_from(s@, 0, true),
            out@ + strip_from(s@, i as int, als) == total,
        decreases s.len() - i,
    {
        let c = s[i];
        let fl = run_at(&s, i, '`');
        if als && c == '`' && fl >= 3 {
            let ghost i0 = i;
            let le = line_end_at(&s, i);
            proof {
                lemma_line_end_bounds(s@, i as int);
                let start = if le < s.len() {
                    le + 1
                } else {
                    le as int
                };
                lemma_fence_lines_progress(s@, start, fl as nat);
            }
            push_blank(&mut out, &s, i, le);
            assert(le > i0);
            i = le;
            if i < s.len() {
                out.push('\n');
                i += 1;
            }
            assert(out@ + fence_lines(s@, i as int, fl as nat).0 + strip_from(
                s@,
                fence_lines(s@, i as int, fl as nat).1,
                true,
            ) =~= total);
            while i < s.len()
                invariant_except_break
                    i0 < i <= s.len(),
                    total == strip_from(s@, 0, true),
                    out@ + fence_lines(s@, i as int, fl as nat).0 + strip_from(
                        s@,
                        fence_lines(s@, i as int, fl as nat).1,
                        true,
                    ) == total,
                ensures
                    i0 < i <= s.len(),
                    out@ + strip_from(s@, i as int, true) == total,
                decreases s.len() - i,
            {
                let ls = i;
                let le2 = line_end_at(&s, i);
                let closes = closes_fence_at(&s, ls, le2, fl);
                proof {
                    lemma_line_end_bounds(s@, ls as int);
                    let next = if le2 < s.len() {
                        le2 + 1
                    } else {
                        le2 as int
                    };
                    lemma_fence_lines_progress(s@, next, fl as nat);
                }
                push_blank(&mut out, &s, ls, le2);
                i = le2;
                if i < s.len() {
                    out.push('\n');
                    i += 1;
                }
                if closes {
                    assert(out@ + strip_from(s@, i as int, true) =~= total);
                    break;
                }
                assert(out@ + fence_lines(s@, i as int, fl as nat).0 + strip_from(
                    s@,
                    fence_lines(s@, i as int, fl as nat).1,
                    true,
                ) =~= total);
            }
            als = true;
            continue;
        }
        if c == '`' {
            proof {
                lemma_run_len_bounds(s@, i as int, '`');
            }
            match inline_close_at(&s, i + fl, fl) {
                Some(end) => {
                    proof {
                        lemma_inline_close_bounds(s@, i + fl, fl as nat);
                    }
                    push_blank(&mut out, &s, i, end + fl);
                    assert(out@ + strip_from(s@, end + fl, false) =~= total);
                    i = end + fl;
                    als = false;
                    continue;
                },
                None => {},
            }
        }
        out.push(c);
        assert(out@ + strip_from(s@, i + 1, c == '\n') =~= total);
        als = c == '\n';
        i += 1;
    }
    string_from_chars(&out, 0, out.len())
}


// ---------- Wikilinks ----------

/// Strings modelled as character sequences.
pub open spec fn strs(v: Seq<String>) -> Seq<Seq<char>> {
    v.map_values(|x: String| x@)
}

/// Index of the first `]]` starting at or after `j`.
pub open spec fn find_close(s: Seq<char>, j: int) -> Option<int>
    decreases s.len() - j,
{
    if j < 0 || j + 1 >= s.len() {
        None
    } else if s[j] == ']' && s[j + 1] == ']' {
        Some(j)
    } else {
        find_close(s, j + 1)
    }
}

/// Index of the first `|` or `#` in `t`, or its length.
pub open spec fn target_cut(t: Seq<char>, k: int) -> int
    decreases t.len() - k,
{
    if k < 0 || k >= t.len() {
        t.len() as int
    } else if t[k] == '|' || t[k] == '#' {
        k
    } else {
        target_cut(t, k + 1)
    }
}

/// The target of a link body: what precedes the first `|` or `#`, trimmed.
pub open spec fn link_target(inner: Seq<char>) -> Seq<char> {
    trim_ws(inner.take(target_cut(inner, 0)))
}

/// Targets of the `[[...]]` links from `i` on, skipping empty targets.
pub open spec fn links_from(s: Seq<char>, i: int) -> Seq<Seq<char>>
    decreases s.len() - i,
{
    if i < 0 || i + 1 >= s.len() {
        Seq::empty()
    } else if s[i] == '[' && s[i + 1] == '[' && find_close(s, i + 2) is Some {
        let end = find_close(s, i + 2)->0;
        proof {
            lemma_find_close_bounds(s, i + 2);
        }
        let t = link_target(s.subrange(i + 2, end));
        if t.len() > 0 {
            seq![t] + links_from(s, end + 2)
        } else {
            links_from(s, end + 2)
        }
    } else {
        links_from(s, i + 1)
    }
}

/// Link targets of a text, code regions excluded.
pub open spec fn wikilinks(content: Seq<char>) -> Seq<Seq<char>> {
    links_from(strip_code(content), 0)
}

pub proof fn lemma_find_close_bounds(s: Seq<char>, j: int)
    requires
        0 <= j,
        find_close(s, j) is Some,
    ensures
        j <= find_close(s, j)->0,
        find_close(s, j)->0 + 2 <= s.len(),
    decreases s.len() - j,
{
    if j + 1 < s.len() && !(s[j] == ']' && s[j + 1] == ']') {
        lemma_find_close_bounds(s, j + 1);
    }
}

fn find_close_at(s: &Vec<char>, j0: usize) -> (r: Option<usize>)
    requires
        j0 <= s.len(),
    ensures
        match find_close(s@, j0 as int) {
            Some(e) => r == Some(e as usize),
            None => r is None,
        },
{
    let mut j = j0;
    while j < s.len() && j + 1 < s.len()
        invariant
            j0 <= j <= s.len(),
            find_close(s@, j0 as int) == find_close(s@, j as int),
        decreases s.len() - j,
    {
        if s[j] == ']' && s[j + 1] == ']' {
            return Some(j);
        }
        j += 1;
    }
    None
}

fn target_cut_at(s: &Vec<char>, lo: usize, hi: usize) -> (r: usize)
    requires
        lo <= hi <= s.len(),
    ensures
        lo <= r <= hi,
        r - lo == target_cut(s@.subrange(lo as int, hi as int), 0),
{
    let ghost t = s@.subrange(lo as int, hi as int);
    let mut k = lo;
    while k < hi && !(s[k] == '|' || s[k] == '#')
        invariant
            lo <= k <= hi <= s.len(),
            t == s@.subrange(lo as int, hi as int),
            target_cut(t, 0) == target_cut(t, k - lo),
        decreases hi - k,
    {
        k += 1;
    }
    k
}

/// Targets of the `[[target|alias]]` / `[[target#heading]]` links of a text,
/// trimmed, in order; links inside code regions and empty targets are left
/// out.
pub fn extract_wikilinks(content: &str) -> (r: Vec<String>)
    ensures
        strs(r@) == wikilinks(content@),
{
    let stripped = strip_code_regions(content);
    let s = chars_of(stripped.as_str());
    let ghost total = links_from(s@, 0);
    let mut links: Vec<String> = Vec::new();
    let mut i: usize = 0;
    while i < s.len() && i + 1 < s.len()
        invariant
            0 <= i <= s.len(),
            total == links_from(s@, 0),
            strs(links@) + links_from(s@, i as int) == total,
        decreases s.len() - i,
    {
        if s[i] == '[' && s[i + 1] == '[' {
            match find_close_at(&s, i + 2) {
                Some(end) => {
                    proof {
                        lemma_find_close_bounds(s@, i + 2);
                    }
                    let cut = target_cut_at(&s, i + 2, end);
                    let (a, b) = trim_range(&s, i + 2, cut);
                    proof {
                        let inner = s@.subrange(i + 2, end as int);
                        assert(inner.take(cut - (i + 2)) =~= s@.subrange(i + 2, cut as int));
                    }
                    if a < b {
                        let t = string_from_chars(&s, a, b);
                        let ghost prev = links@;
                        links.push(t);
                        assert(strs(links@) =~= strs(prev).push(t@));
                        assert(strs(links@) + links_from(s@, end + 2) =~= total);
                    } else {
                        assert(strs(links@) + links_from(s@, end + 2) =~= total);
                    }
                    i = end + 2;
                    continue;
                },
                None => {},
            }
        }
        i += 1;
    }
    assert(strs(links@) =~= total);
    links
}

// ---------- Tags ----------

pub open spec fn is_tag_char(c: char) -> bool {
    char_is_alphanumeric(c) || c == '/' || c == '_' || c == '-'
}

/// End of the run of tag characters starting at `j`.
pub open spec fn tag_end(s: Seq<char>, j: int) -> int
    decreases s.len() - j,
{
    if 0 <= j < s.len() && is_tag_char(s[j]) {
        tag_end(s, j + 1)
    } else {
        j
    }
}

/// Inline tags of one line from `i` on. A `#` starts a tag when it opens
/// the line or follows whitespace and the run of tag characters after it
/// starts with a letter; the character that ends the run is skipped.
pub open spec fn line_tags_from(s: Seq<char>, i: int) -> Seq<Seq<char>>
    decreases s.len() - i,
{
    if i < 0 || i >= s.len() {
        Seq::empty()
    } else if s[i] != '#' {
        line_tags_from(s, i + 1)
    } else {
        let e = tag_end(s, i + 1);
        proof {
            lemma_tag_end_bounds(s, i + 1);
        }
        let tag = s.subrange(i + 1, e);
        let valid = tag.len() > 0 && char_is_alphabetic(tag[0]) && (i == 0 || char_is_whitespace(
            s[i - 1],
        ));
        let next = if e < s.len() {
            e + 1
        } else {
            e
        };
        if valid {
            seq![tag] + line_tags_from(s, next)
        } else {
            line_tags_from(s, next)
        }
    }
}

pub proof fn lemma_tag_end_bounds(s: Seq<char>, j: int)
    requires
        0 <= j <= s.len(),
    ensures
        j <= tag_end(s, j) <= s.len(),
    decreases s.len() - j,
{
    if j < s.len() && is_tag_char(s[j]) {
        lemma_tag_end_bounds(s, j + 1);
    }
}

/// The lines of a text as `str::lines` gives them: split at `\n`, a
/// trailing `\r` dropped, no empty line after a final newline.
pub open spec fn lines_from(s: Seq<char>, i: int) -> Seq<Seq<char>>
    decreases s.len() - i,
{
    if i < 0 || i >= s.len() {
        Seq::empty()
    } else {
        let le = line_end(s, i);
        proof {
            lemma_line_end_bounds(s, i);
        }
        let raw = s.subrange(i, le);
        let line = if raw.len() > 0 && raw.last() == '\r' {
            raw.drop_last()
        } else {
            raw
        };
        if le >= s.len() {
            seq![line]
        } else {
            seq![line] + lines_from(s, le + 1)
        }
    }
}

/// Tags of every line, in order.
pub open spec fn tags_of_lines(ls: Seq<Seq<char>>) -> Seq<Seq<char>>
    decreases ls.len(),
{
    if ls.len() == 0 {
        Seq::empty()
    } else {
        tags_of_lines(ls.drop_last()) + line_tags_from(ls.last(), 0)
    }
}

fn line_tags(s: &Vec<char>) -> (r: Vec<String>)
    ensures
        strs(r@) == line_tags_from(s@, 0),
{
    let ghost total = line_tags_from(s@, 0);
    let mut tags: Vec<String> = Vec::new();
    let mut i: usize = 0;
    while i < s.len()
        invariant
            0 <= i <= s.len(),
            total == line_tags_from(s@, 0),
            strs(tags@) + line_tags_from(s@, i as int) == total,
        decreases s.len() - i,
    {
        if s[i] != '#' {
            i += 1;
            continue;
        }
        let mut e = i + 1;
        while e < s.len() && (is_alphanumeric(s[e]) || s[e] == '/' || s[e] == '_' || s[e] == '-')
            invariant
                i < e <= s.len(),
                tag_end(s@, i + 1) == tag_end(s@, e as int),
            decreases s.len() - e,
        {
            e += 1;
        }
        let valid = e > i + 1 && is_alphabetic(s[i + 1]) && (i == 0 || is_whitespace(s[i - 1]));
        let next = if e < s.len() {
            e + 1
        } else {
            e
        };
        if valid {
            let t = string_from_chars(s, i + 1, e);
            let ghost prev = tags@;
            tags.push(t);
            assert(strs(tags@) =~= strs(prev).push(t@));
            assert(strs(tags@) + line_tags_from(s@, next as int) =~= total);
        }
        i = next;
    }
    assert(strs(tags@) =~= total);
    tags
}

/// Inline `#tags` of one line.
pub fn extract_inline_tags_from_line(line: &str) -> (r: Vec<String>)
    ensures
        strs(r@) == line_tags_from(line@, 0),
{
    let s = chars_of(line);
    line_tags(&s)
}

/// Inline `#tags` of a note body, line by line.
pub fn extract_inline_tags(body: &str) -> (r: Vec<String>)
    ensures
        strs(r@) == tags_of_lines(lines_from(body@, 0)),
{
    let s = chars_of(body);
    let ghost all_lines = lines_from(s@, 0);
    let mut tags: Vec<String> = Vec::new();
    let mut i: usize = 0;
    let ghost mut done: Seq<Seq<char>> = Seq::empty();
    while i < s.len()
        invariant
            0 <= i <= s.len(),
            all_lines == lines_from(s@, 0),
            done + lines_from(s@, i as int) == all_lines,
            strs(tags@) == tags_of_lines(done),
        decreases s.len() - i,
    {
        let le = line_end_at(&s, i);
        proof {
            lemma_line_end_bounds(s@, i as int);
        }
        let hi = if le > i && s[le - 1] == '\r' {
            le - 1
        } else {
            le
        };
        let line = sub_chars(&s, i, hi);
        proof {
            assert(line@ =~= (if s@.subrange(i as int, le as int).len() > 0 && s@.subrange(
                i as int,
                le as int,
            ).last() == '\r' {
                s@.subrange(i as int, le as int).drop_last()
            } else {
                s@.subrange(i as int, le as int)
            }));
        }
        let lt = line_tags(&line);
        let ghost prev = tags@;
        let mut k: usize = 0;
        while k < lt.len()
            invariant
                0 <= k <= lt.len(),
                strs(tags@) == strs(prev) + strs(lt@.take(k as int)),
            decreases lt.len() - k,
        {
            let ghost before = tags@;
            tags.push(lt[k].clone());
            assert(strs(tags@) =~= strs(before).push(lt@[k as int]@));
            assert(strs(lt@.take(k + 1)) =~= strs(lt@.take(k as int)).push(lt@[k as int]@));
            assert(strs(tags@) =~= strs(prev) + strs(lt@.take(k + 1)));
            k += 1;
        }
        proof {
            assert(lt@.take(lt.len() as int) =~= lt@);
            let ndone = done.push(line@);
            assert(ndone.drop_last() =~= done);
            if le < s.len() {
                assert(ndone + lines_from(s@, le + 1) =~= all_lines);
            } else {
                assert(ndone =~= all_lines);
            }
            done = ndone;
        }
        i = if le < s.len() {
            le + 1
        } else {
            le
        };
    }
    proof {
        assert(done =~= all_lines);
    }
    tags
}


// ---------- Sort keys ----------

/// Width to which digit runs are padded in sort keys.
pub const PAD: usize = 16;

/// End of the run of ASCII digits starting at `i`.
pub open spec fn digit_end(s: Seq<char>, i: int) -> int
    decreases s.len() - i,
{
    if 0 <= i < s.len() && is_digit(s[i]) {
        digit_end(s, i + 1)
    } else {
        i
    }
}

/// `d` without its leading zeros.
pub open spec fn strip_zeros(d: Seq<char>) -> Seq<char>
    decreases d.len(),
{
    if d.len() > 0 && d[0] == '0' {
        strip_zeros(d.drop_first())
    } else {
        d
    }
}

pub open spec fn zeros(n: nat) -> Seq<char> {
    Seq::new(n, |k: int| '0')
}

/// Key of a digit run: its value without leading zeros (`0` for all
/// zeros), left-padded with zeros to at least `PAD` characters.
pub open spec fn digit_key(d: Seq<char>) -> Seq<char> {
    let t = if strip_zeros(d).len() == 0 {
        seq!['0']
    } else {
        strip_zeros(d)
    };
    if t.len() < PAD {
        zeros((PAD - t.len()) as nat) + t
    } else {
        t
    }
}

/// Key of a character outside a digit run: a space for punctuation when
/// collapsing (`/` excepted), ASCII letters lowercased, other characters
/// by the Unicode lowercase mapping.
pub open spec fn char_key(c: char, collapse: bool) -> Seq<char> {
    if collapse && !char_is_alphanumeric(c) && c != '/' {
        seq![' ']
    } else if (c as u32) < 0x80 {
        if 'A' <= c <= 'Z' {
            seq![((c as u32) + 32) as char]
        } else {
            seq![c]
        }
    } else {
        char_to_lowercase(c)
    }
}

/// Sort key of `s[i..]`.
pub open spec fn key_from(s: Seq<char>, i: int, collapse: bool) -> Seq<char>
    decreases s.len() - i,
{
    if i < 0 || i >= s.len() {
        Seq::empty()
    } else if is_digit(s[i]) {
        let j = digit_end(s, i);
        proof {
            lemma_digit_end_bounds(s, i);
        }
        digit_key(s.subrange(i, j)) + key_from(s, j, collapse)
    } else {
        char_key(s[i], collapse) + key_from(s, i + 1, collapse)
    }
}

pub proof fn lemma_digit_end_bounds(s: Seq<char>, i: int)
    requires
        0 <= i <= s.len(),
    ensures
        i <= digit_end(s, i) <= s.len(),
        i < s.len() && is_digit(s[i]) ==> i < digit_end(s, i),
        forall|k: int| i <= k < digit_end(s, i) ==> is_digit(#[trigger] s[k]),
    decreases s.len() - i,
{
    if i < s.len() && is_digit(s[i]) {
        lemma_digit_end_bounds(s, i + 1);
    }
}

fn ascii_lower(c: char) -> (r: char)
    requires
        'A' <= c <= 'Z',
    ensures
        r == ((c as u32) + 32) as char,
{
    let b = c as u8;
    (b + 32) as char
}

fn push_chars(out: &mut String, v: &Vec<char>)
    ensures
        final(out)@ == old(out)@ + v@,
{
    let mut k: usize = 0;
    while k < v.len()
        invariant
            0 <= k <= v.len(),
            out@ == old(out)@ + v@.take(k as int),
        decreases v.len() - k,
    {
        push_char(out, v[k]);
        k += 1;
        assert(out@ =~= old(out)@ + v@.take(k as int));
    }
    assert(v@.take(v.len() as int) =~= v@);
}

/// Append the key of the digit run `s[i..j]`.
fn push_digit_key(out: &mut String, s: &Vec<char>, i: usize, j: usize)
    requires
        i < j <= s.len(),
    ensures
        final(out)@ == old(out)@ + digit_key(s@.subrange(i as int, j as int)),
{
    let ghost d = s@.subrange(i as int, j as int);
    let mut a = i;
    while a < j && s[a] == '0'
        invariant
            i <= a <= j <= s.len(),
            d == s@.subrange(i as int, j as int),
            strip_zeros(d) == strip_zeros(s@.subrange(a as int, j as int)),
        decreases j - a,
    {
        assert(s@.subrange(a as int, j as int).drop_first() =~= s@.subrange(a + 1, j as int));
        a += 1;
    }
    assert(strip_zeros(s@.subrange(a as int, j as int)) == s@.subrange(a as int, j as int));
    let tlen: usize = if a == j {
        1
    } else {
        j - a
    };
    if tlen < PAD {
        let mut k: usize = 0;
        while k < PAD - tlen
            invariant
                k <= PAD - tlen,
                out@ == old(out)@ + zeros(k as nat),
            decreases PAD - tlen - k,
        {
            push_char(out, '0');
            k += 1;
            assert(out@ =~= old(out)@ + zeros(k as nat));
        }
    }
    let ghost mid = out@;
    if a == j {
        push_char(out, '0');
    } else {
        let mut k = a;
        while k < j
            invariant
                a <= k <= j <= s.len(),
                out@ == mid + s@.subrange(a as int, k as int),
            decreases j - k,
        {
            push_char(out, s[k]);
            k += 1;
            assert(out@ =~= mid + s@.subrange(a as int, k as int));
        }
    }
    assert(out@ =~= old(out)@ + digit_key(d));
}

fn natural_key_inner(s: &str, collapse_punctuation: bool) -> (r: String)
    ensures
        r@ == key_from(s@, 0, collapse_punctuation),
{
    let v = chars_of(s);
    let ghost total = key_from(v@, 0, collapse_punctuation);
    let mut out = String::new();
    let mut i: usize = 0;
    while i < v.len()
        invariant
            0 <= i <= v.len(),
            total == key_from(v@, 0, collapse_punctuation),
            out@ + key_from(v@, i as int, collapse_punctuation) == total,
        decreases v.len() - i,
    {
        let c = v[i];
        if is_ascii_digit(c) {
            let mut j = i;
            while j < v.len() && is_ascii_digit(v[j])
                invariant
                    i <= j <= v.len(),
                    digit_end(v@, i as int) == digit_end(v@, j as int),
                decreases v.len() - j,
            {
                j += 1;
            }
            proof {
                lemma_digit_end_bounds(v@, i as int);
            }
            let ghost before = out@;
            push_digit_key(&mut out, &v, i, j);
            assert(out@ + key_from(v@, j as int, collapse_punctuation) =~= total);
            i = j;
        } else {
            let ghost before = out@;
            if collapse_punctuation && !is_alphanumeric(c) && c != '/' {
                push_char(&mut out, ' ');
            } else if (c as u32) < 0x80 {
                if 'A' <= c && c <= 'Z' {
                    push_char(&mut out, ascii_lower(c));
                } else {
                    push_char(&mut out, c);
                }
            } else {
                let low = to_lowercase_chars(c);
                push_chars(&mut out, &low);
            }
            assert(out@ =~= before + char_key(c, collapse_punctuation));
            assert(out@ + key_from(v@, i + 1, collapse_punctuation) =~= total);
            i += 1;
        }
    }
    out
}

/// Path-style natural sort key: letters lowercased, each digit run replaced
/// by its value zero-padded to 16 characters, punctuation kept.
pub fn natural_sort_key(s: &str) -> (r: String)
    ensures
        r@ == key_from(s@, 0, false),
{
    natural_key_inner(s, false)
}

/// Sort key for string properties: like `natural_sort_key`, with every
/// non-alphanumeric character other than `/` replaced by a space.
pub fn obsidian_sort_key(s: &str) -> (r: String)
    ensures
        r@ == key_from(s@, 0, true),
{
    natural_key_inner(s, true)
}


// ---------- Frontmatter values ----------

/// Frontmatter as read from a note: its keys in sorted order with their
/// values.
pub open spec fn fm_get(fm: Seq<(String, YamlValue)>, key: Seq<char>) -> Option<YamlValue>
    decreases fm.len(),
{
    if fm.len() == 0 {
        None
    } else if fm[0].0@ == key {
        Some(fm[0].1)
    } else {
        fm_get(fm.drop_first(), key)
    }
}

pub(crate) fn fm_get_exec<'a>(fm: &'a Vec<(String, YamlValue)>, key: &str) -> (r: Option<&'a YamlValue>)
    ensures
        match fm_get(fm@, key@) {
            Some(v) => r == Some(&v),
            None => r is None,
        },
{
    let mut i: usize = 0;
    assert(fm@.skip(0) =~= fm@);
    while i < fm.len()
        invariant
            0 <= i <= fm.len(),
            fm_get(fm@, key@) == fm_get(fm@.skip(i as int), key@),
        decreases fm.len() - i,
    {
        assert(fm@.skip(i as int).drop_first() =~= fm@.skip(i + 1));
        if crate::text::str_eq(fm[i].0.as_str(), key) {
            return Some(&fm[i].1);
        }
        i += 1;
    }
    None
}

/// `s` without its leading `#` characters.
pub open spec fn drop_hashes(s: Seq<char>) -> Seq<char>
    decreases s.len(),
{
    if s.len() > 0 && s[0] == '#' {
        drop_hashes(s.drop_first())
    } else {
        s
    }
}

fn drop_hashes_exec(s: &String) -> (r: String)
    ensures
        r@ == drop_hashes(s@),
{
    let v = chars_of(s.as_str());
    let mut a: usize = 0;
    assert(v@.skip(0) =~= v@);
    while a < v.len() && v[a] == '#'
        invariant
            0 <= a <= v.len(),
            drop_hashes(v@) == drop_hashes(v@.skip(a as int)),
        decreases v.len() - a,
    {
        assert(v@.skip(a as int).drop_first() =~= v@.skip(a + 1));
        a += 1;
    }
    assert(v@.skip(a as int) =~= v@.subrange(a as int, v@.len() as int));
    string_from_chars(&v, a, v.len())
}

pub open spec fn tag_item_step_fn() -> spec_fn(Seq<Seq<char>>, YamlValue) -> Option<Seq<Seq<char>>> {
    |acc: Seq<Seq<char>>, x: YamlValue|
        Some(
            match crate::yaml::str_of(x) {
                Some(t) => acc.push(drop_hashes(t)),
                None => acc,
            },
        )
}

/// Tags listed in the frontmatter `tags` key: the string items of a list,
/// or a single string, each without leading `#`.
pub open spec fn frontmatter_tags(fm: Seq<(String, YamlValue)>) -> Seq<Seq<char>> {
    match fm_get(fm, "tags"@) {
        Some(YamlValue::Sequence(items)) => match crate::yaml::fold_opt(
            items@,
            Seq::empty(),
            tag_item_step_fn(),
        ) {
            Some(x) => x,
            None => Seq::empty(),
        },
        Some(YamlValue::String(t)) => seq![drop_hashes(t@)],
        _ => Seq::empty(),
    }
}

pub fn extract_frontmatter_tags(fm: &Vec<(String, YamlValue)>) -> (r: Vec<String>)
    ensures
        strs(r@) == frontmatter_tags(fm@),
{
    let mut out: Vec<String> = Vec::new();
    match fm_get_exec(fm, "tags") {
        Some(YamlValue::Sequence(items)) => {
            let ghost init: Seq<Seq<char>> = Seq::empty();
            let mut i: usize = 0;
            while i < items.len()
                invariant
                    0 <= i <= items.len(),
                    init == Seq::<Seq<char>>::empty(),
                    crate::yaml::fold_opt(items@.take(i as int), init, tag_item_step_fn()) == Some(
                        strs(out@),
                    ),
                decreases items.len() - i,
            {
                let ghost acc0 = strs(out@);
                proof {
                    crate::yaml::lemma_fold_opt_step(items@, init, tag_item_step_fn(), i as int);
                    assert(tag_item_step_fn()(acc0, items@[i as int]) == Some(
                        match crate::yaml::str_of(items@[i as int]) {
                            Some(t) => acc0.push(drop_hashes(t)),
                            None => acc0,
                        },
                    ));
                }
                match items[i].as_str() {
                    Some(t) => {
                        let d = drop_hashes_exec(t);
                        let ghost prev = out@;
                        out.push(d);
                        assert(strs(out@) =~= strs(prev).push(d@));
                    },
                    None => {},
                }
                i += 1;
            }
            proof {
                crate::yaml::lemma_fold_opt_full(items@, init, tag_item_step_fn());
            }
            out
        },
        Some(YamlValue::String(t)) => {
            out.push(drop_hashes_exec(t));
            assert(strs(out@) =~= seq![drop_hashes(t@)]);
            out
        },
        _ => {
            assert(strs(out@) =~= Seq::<Seq<char>>::empty());
            out
        },
    }
}

pub open spec fn has_pair_at(s: Seq<char>, c: char) -> bool {
    exists|k: int| 0 <= k && k + 1 < s.len() && #[trigger] s[k] == c && s[k + 1] == c
}

/// The link target when the whole (trimmed) string is one `[[target]]` or
/// `[[target|alias]]` link with a non-empty target.
pub open spec fn as_link(s: Seq<char>) -> Option<Seq<char>> {
    let t = trim_ws(s);
    if t.len() >= 4 && t[0] == '[' && t[1] == '[' && t[t.len() - 2] == ']' && t[t.len() - 1]
        == ']' {
        let inner = t.subrange(2, t.len() - 2);
        if has_pair_at(inner, '[') || has_pair_at(inner, ']') {
            None
        } else {
            let target = trim_ws(inner.take(pipe_cut(inner, 0)));
            if target.len() == 0 {
                None
            } else {
                Some(target)
            }
        }
    } else {
        None
    }
}

/// Index of the first `|` in `t` at or after `k`, or its length.
pub open spec fn pipe_cut(t: Seq<char>, k: int) -> int
    decreases t.len() - k,
{
    if k < 0 || k >= t.len() {
        t.len() as int
    } else if t[k] == '|' {
        k
    } else {
        pipe_cut(t, k + 1)
    }
}

fn has_pair_exec(s: &Vec<char>, lo: usize, hi: usize, c: char) -> (r: bool)
    requires
        lo <= hi <= s.len(),
    ensures
        r == has_pair_at(s@.subrange(lo as int, hi as int), c),
{
    let ghost t = s@.subrange(lo as int, hi as int);
    let mut k = lo;
    while k < hi && k + 1 < hi
        invariant
            lo <= k <= hi <= s.len(),
            t == s@.subrange(lo as int, hi as int),
            forall|m: int| 0 <= m < k - lo ==> !(#[trigger] t[m] == c && t[m + 1] == c),
        decreases hi - k,
    {
        if s[k] == c && s[k + 1] == c {
            assert(t[k - lo] == c && t[k - lo + 1] == c);
            return true;
        }
        k += 1;
    }
    false
}

fn as_link_exec(s: &String) -> (r: Option<String>)
    ensures
        match as_link(s@) {
            Some(t) => r is Some && r->0@ == t,
            None => r is None,
        },
{
    let v = chars_of(s.as_str());
    let (a, b) = trim_range(&v, 0, v.len());
    let ghost t = trim_ws(v@);
    proof {
        assert(v@.subrange(0, v@.len() as int) =~= v@);
        assert(t =~= v@.subrange(a as int, b as int));
    }
    if !(b - a >= 4 && v[a] == '[' && v[a + 1] == '[' && v[b - 2] == ']' && v[b - 1] == ']') {
        return None;
    }
    let lo = a + 2;
    let hi = b - 2;
    assert(t.subrange(2, t.len() - 2) =~= v@.subrange(lo as int, hi as int));
    if has_pair_exec(&v, lo, hi, '[') || has_pair_exec(&v, lo, hi, ']') {
        return None;
    }
    let ghost inner = v@.subrange(lo as int, hi as int);
    let mut k = lo;
    while k < hi && v[k] != '|'
        invariant
            lo <= k <= hi <= v.len(),
            inner == v@.subrange(lo as int, hi as int),
            pipe_cut(inner, 0) == pipe_cut(inner, k - lo),
        decreases hi - k,
    {
        k += 1;
    }
    assert(inner.take(k - lo) =~= v@.subrange(lo as int, k as int));
    let (c, d) = trim_range(&v, lo, k);
    if c == d {
        None
    } else {
        Some(string_from_chars(&v, c, d))
    }
}

/// Link targets of frontmatter values that are whole links, looking into
/// lists (tags are not looked through).
pub open spec fn value_links(v: YamlValue) -> Seq<Seq<char>>
    decreases v,
{
    match v {
        YamlValue::String(s) => match as_link(s@) {
            Some(t) => seq![t],
            None => Seq::empty(),
        },
        YamlValue::Sequence(items) => items_links(items@),
        _ => Seq::empty(),
    }
}

pub open spec fn items_links(items: Seq<YamlValue>) -> Seq<Seq<char>>
    decreases items,
{
    if items.len() == 0 {
        Seq::empty()
    } else {
        items_links(items.drop_last()) + value_links(items.last())
    }
}

/// Whole-link targets of all frontmatter values, in key order.
pub open spec fn frontmatter_link_values(fm: Seq<(String, YamlValue)>) -> Seq<Seq<char>>
    decreases fm.len(),
{
    if fm.len() == 0 {
        Seq::empty()
    } else {
        frontmatter_link_values(fm.drop_last()) + value_links(fm.last().1)
    }
}

fn append_strings(out: &mut Vec<String>, more: Vec<String>)
    ensures
        strs(final(out)@) == strs(old(out)@) + strs(more@),
{
    let mut k: usize = 0;
    let ghost start = out@;
    while k < more.len()
        invariant
            0 <= k <= more.len(),
            start == old(out)@,
            strs(out@) == strs(start) + strs(more@.take(k as int)),
        decreases more.len() - k,
    {
        let ghost before = out@;
        out.push(more[k].clone());
        assert(strs(out@) =~= strs(before).push(more@[k as int]@));
        assert(strs(more@.take(k + 1)) =~= strs(more@.take(k as int)).push(more@[k as int]@));
        k += 1;
    }
    assert(more@.take(more.len() as int) =~= more@);
}

fn collect_items_links(items: &Vec<YamlValue>, out: &mut Vec<String>)
    ensures
        strs(final(out)@) == strs(old(out)@) + items_links(items@),
    decreases items@, 0nat,
{
    let mut i: usize = 0;
    while i < items.len()
        invariant
            0 <= i <= items.len(),
            strs(out@) == strs(old(out)@) + items_links(items@.take(i as int)),
        decreases items.len() - i,
    {
        assert(items@.take(i + 1).drop_last() =~= items@.take(i as int));
        collect_value_links(&items[i], out);
        assert(strs(out@) =~= strs(old(out)@) + items_links(items@.take(i + 1)));
        i += 1;
    }
    assert(items@.take(items.len() as int) =~= items@);
}

fn collect_value_links(v: &YamlValue, out: &mut Vec<String>)
    ensures
        strs(final(out)@) == strs(old(out)@) + value_links(*v),
    decreases v, 0nat,
{
    match v {
        YamlValue::String(s) => {
            match as_link_exec(s) {
                Some(t) => {
                    let ghost before = out@;
                    out.push(t);
                    assert(strs(out@) =~= strs(before) + seq![t@]);
                },
                None => {
                    assert(strs(out@) =~= strs(old(out)@) + Seq::<Seq<char>>::empty());
                },
            }
        },
        YamlValue::Sequence(items) => collect_items_links(items, out),
        _ => {
            assert(strs(out@) =~= strs(old(out)@) + Seq::<Seq<char>>::empty());
        },
    }
}

/// Targets of frontmatter values that are entire wikilinks.
pub fn extract_frontmatter_link_values(fm: &Vec<(String, YamlValue)>) -> (r: Vec<String>)
    ensures
        strs(r@) == frontmatter_link_values(fm@),
{
    let mut out: Vec<String> = Vec::new();
    let mut i: usize = 0;
    while i < fm.len()
        invariant
            0 <= i <= fm.len(),
            strs(out@) == frontmatter_link_values(fm@.take(i as int)),
        decreases fm.len() - i,
    {
        assert(fm@.take(i + 1).drop_last() =~= fm@.take(i as int));
        let ghost before = strs(out@);
        collect_value_links(&fm[i].1, &mut out);
        i += 1;
    }
    assert(fm@.take(fm.len() as int) =~= fm@);
    out
}

/// The trimmed string is a single `[[...]]` link (no second `[[` after the
/// opening one).
pub open spec fn is_pure_link(s: Seq<char>) -> bool {
    let t = trim_ws(s);
    t.len() >= 2 && t[0] == '[' && t[1] == '[' && t.len() >= 2 && t[t.len() - 2] == ']' && t[t.len()
        - 1] == ']' && !has_pair_at(t.subrange(2, t.len() as int), '[')
}

/// Wikilinks embedded in frontmatter strings that are not whole links.
pub open spec fn value_inline_links(v: YamlValue) -> Seq<Seq<char>>
    decreases v,
{
    match v {
        YamlValue::String(s) => if is_pure_link(s@) {
            Seq::empty()
        } else {
            wikilinks(s@)
        },
        YamlValue::Sequence(items) => items_inline_links(items@),
        _ => Seq::empty(),
    }
}

pub open spec fn items_inline_links(items: Seq<YamlValue>) -> Seq<Seq<char>>
    decreases items,
{
    if items.len() == 0 {
        Seq::empty()
    } else {
        items_inline_links(items.drop_last()) + value_inline_links(items.last())
    }
}

pub open spec fn frontmatter_inline_links(fm: Seq<(String, YamlValue)>) -> Seq<Seq<char>>
    decreases fm.len(),
{
    if fm.len() == 0 {
        Seq::empty()
    } else {
        frontmatter_inline_links(fm.drop_last()) + value_inline_links(fm.last().1)
    }
}

fn is_pure_link_exec(s: &String) -> (r: bool)
    ensures
        r == is_pure_link(s@),
{
    let v = chars_of(s.as_str());
    let (a, b) = trim_range(&v, 0, v.len());
    proof {
        assert(v@.subrange(0, v@.len() as int) =~= v@);
    }
    let ghost t = trim_ws(v@);
    if !(b - a >= 2 && v[a] == '[' && v[a + 1] == '[' && v[b - 2] == ']' && v[b - 1] == ']') {
        return false;
    }
    assert(t.subrange(2, t.len() as int) =~= v@.subrange(a + 2, b as int));
    !has_pair_exec(&v, a + 2, b, '[')
}

fn collect_items_inline_links(items: &Vec<YamlValue>, out: &mut Vec<String>)
    ensures
        strs(final(out)@) == strs(old(out)@) + items_inline_links(items@),
    decreases items@, 0nat,
{
    let mut i: usize = 0;
    while i < items.len()
        invariant
            0 <= i <= items.len(),
            strs(out@) == strs(old(out)@) + items_inline_links(items@.take(i as int)),
        decreases items.len() - i,
    {
        assert(items@.take(i + 1).drop_last() =~= items@.take(i as int));
        collect_inline_links(&items[i], out);
        assert(strs(out@) =~= strs(old(out)@) + items_inline_links(items@.take(i + 1)));
        i += 1;
    }
    assert(items@.take(items.len() as int) =~= items@);
}

fn collect_inline_links(v: &YamlValue, out: &mut Vec<String>)
    ensures
        strs(final(out)@) == strs(old(out)@) + value_inline_links(*v),
    decreases v, 0nat,
{
    match v {
        YamlValue::String(s) => {
            if is_pure_link_exec(s) {
                assert(strs(out@) =~= strs(old(out)@) + Seq::<Seq<char>>::empty());
            } else {
                let more = extract_wikilinks(s.as_str());
                append_strings(out, more);
            }
        },
        YamlValue::Sequence(items) => collect_items_inline_links(items, out),
        _ => {
            assert(strs(out@) =~= strs(old(out)@) + Seq::<Seq<char>>::empty());
        },
    }
}

/// Wikilinks mentioned inside frontmatter strings that are not whole links;
/// these count for backlinks only.
pub fn extract_inline_frontmatter_wikilinks(fm: &Vec<(String, YamlValue)>) -> (r: Vec<String>)
    ensures
        strs(r@) == frontmatter_inline_links(fm@),
{
    let mut out: Vec<String> = Vec::new();
    let mut i: usize = 0;
    while i < fm.len()
        invariant
            0 <= i <= fm.len(),
            strs(out@) == frontmatter_inline_links(fm@.take(i as int)),
        decreases fm.len() - i,
    {
        assert(fm@.take(i + 1).drop_last() =~= fm@.take(i as int));
        collect_inline_links(&fm[i].1, &mut out);
        i += 1;
    }
    assert(fm@.take(fm.len() as int) =~= fm@);
    out
}


// ---------- Backlinks ----------

/// A markdown note as link resolution sees it: its path relative to the
/// vault, its file stem, its folder, and the link targets it mentions
/// (body and frontmatter).
#[derive(Debug)]
pub struct LinkedNote {
    pub rel_path: String,
    pub stem: String,
    pub folder: String,
    pub links: Vec<String>,
}

/// A canvas file: its path and the link targets it mentions.
#[derive(Debug)]
pub struct CanvasLinks {
    pub rel_path: String,
    pub links: Vec<String>,
}

/// Index of the last `/` in `p[..k]`, or -1.
pub open spec fn last_slash(p: Seq<char>, k: int) -> int
    decreases k,
{
    if k <= 0 || k > p.len() {
        -1
    } else if p[k - 1] == '/' {
        k - 1
    } else {
        last_slash(p, k - 1)
    }
}

/// Folder part of a path: what precedes its last `/`.
pub open spec fn folder_of(p: Seq<char>) -> Seq<char> {
    let k = last_slash(p, p.len() as int);
    if k >= 0 {
        p.take(k)
    } else {
        Seq::empty()
    }
}

/// Index of the first `/` at or after `i`, or the length.
pub open spec fn slash_end(f: Seq<char>, i: int) -> int
    decreases f.len() - i,
{
    if i < 0 || i >= f.len() {
        f.len() as int
    } else if f[i] == '/' {
        i
    } else {
        slash_end(f, i + 1)
    }
}

/// The non-empty `/`-separated segments of a folder from `i` on.
pub open spec fn segments_from(f: Seq<char>, i: int) -> Seq<Seq<char>>
    decreases f.len() - i,
{
    if i < 0 || i >= f.len() {
        Seq::empty()
    } else {
        let e = slash_end(f, i);
        proof {
            lemma_slash_end_bounds(f, i);
        }
        let seg = f.subrange(i, e);
        let rest = if e < f.len() {
            segments_from(f, e + 1)
        } else {
            Seq::empty()
        };
        if seg.len() > 0 {
            seq![seg] + rest
        } else {
            rest
        }
    }
}

pub proof fn lemma_slash_end_bounds(f: Seq<char>, i: int)
    requires
        0 <= i <= f.len(),
    ensures
        i <= slash_end(f, i) <= f.len(),
    decreases f.len() - i,
{
    if i < f.len() && f[i] != '/' {
        lemma_slash_end_bounds(f, i + 1);
    }
}

/// Length of the common prefix of two segment lists.
pub open spec fn shared(a: Seq<Seq<char>>, b: Seq<Seq<char>>) -> nat
    decreases a.len(),
{
    if a.len() == 0 || b.len() == 0 || a[0] != b[0] {
        0
    } else {
        1 + shared(a.drop_first(), b.drop_first())
    }
}

/// How closely the folder of `path` matches `source_folder`: the number of
/// leading folder segments they share.
pub open spec fn closeness(path: Seq<char>, source_folder: Seq<char>) -> nat {
    shared(segments_from(source_folder, 0), segments_from(folder_of(path), 0))
}

fn folder_of_exec(p: &Vec<char>) -> (r: Vec<char>)
    ensures
        r@ == folder_of(p@),
{
    let mut k = p.len();
    while k > 0 && p[k - 1] != '/'
        invariant
            0 <= k <= p.len(),
            last_slash(p@, p@.len() as int) == last_slash(p@, k as int),
        decreases k,
    {
        k -= 1;
    }
    if k > 0 {
        sub_chars(p, 0, k - 1)
    } else {
        Vec::new()
    }
}

fn segments_exec(f: &Vec<char>) -> (r: Vec<Vec<char>>)
    ensures
        r@.map_values(|x: Vec<char>| x@) == segments_from(f@, 0),
{
    let ghost total = segments_from(f@, 0);
    let mut out: Vec<Vec<char>> = Vec::new();
    let mut i: usize = 0;
    while i < f.len()
        invariant
            0 <= i <= f.len(),
            total == segments_from(f@, 0),
            out@.map_values(|x: Vec<char>| x@) + segments_from(f@, i as int) == total,
        decreases f.len() - i,
    {
        let mut e = i;
        while e < f.len() && f[e] != '/'
            invariant
                i <= e <= f.len(),
                slash_end(f@, i as int) == slash_end(f@, e as int),
            decreases f.len() - e,
        {
            e += 1;
        }
        let ghost before = out@.map_values(|x: Vec<char>| x@);
        if e > i {
            let seg = sub_chars(f, i, e);
            out.push(seg);
            assert(out@.map_values(|x: Vec<char>| x@) =~= before.push(f@.subrange(i as int, e as int)));
        }
        if e < f.len() {
            assert(out@.map_values(|x: Vec<char>| x@) + segments_from(f@, e + 1) =~= total);
            i = e + 1;
        } else {
            assert(out@.map_values(|x: Vec<char>| x@) =~= total);
            i = e;
        }
    }
    out
}

fn shared_exec(a: &Vec<Vec<char>>, b: &Vec<Vec<char>>) -> (r: usize)
    ensures
        r == shared(a@.map_values(|x: Vec<char>| x@), b@.map_values(|x: Vec<char>| x@)),
{
    let ghost av = a@.map_values(|x: Vec<char>| x@);
    let ghost bv = b@.map_values(|x: Vec<char>| x@);
    let mut n: usize = 0;
    assert(av.skip(0) =~= av);
    assert(bv.skip(0) =~= bv);
    while n < a.len() && n < b.len() && crate::text::chars_eq(&a[n], &b[n])
        invariant
            0 <= n <= a.len(),
            n <= b.len(),
            av == a@.map_values(|x: Vec<char>| x@),
            bv == b@.map_values(|x: Vec<char>| x@),
            shared(av, bv) == n + shared(av.skip(n as int), bv.skip(n as int)),
        decreases a.len() - n,
    {
        assert(av.skip(n as int).drop_first() =~= av.skip(n + 1));
        assert(bv.skip(n as int).drop_first() =~= bv.skip(n + 1));
        n += 1;
    }
    n
}

/// Among `candidates`, the first one whose folder shares the most leading
/// segments with `source_folder` (so, for sorted candidates, the
/// alphabetically first of the closest).
pub fn resolve_closest(candidates: &Vec<String>, source_folder: &str) -> (r: usize)
    requires
        candidates.len() > 0,
    ensures
        r < candidates.len(),
        forall|j: int|
            0 <= j < candidates.len() ==> closeness(#[trigger] candidates@[j]@, source_folder@)
                <= closeness(candidates@[r as int]@, source_folder@),
        forall|j: int|
            0 <= j < r ==> closeness(#[trigger] candidates@[j]@, source_folder@) < closeness(
                candidates@[r as int]@,
                source_folder@,
            ),
{
    let src = segments_exec(&chars_of(source_folder));
    let mut best_idx: usize = 0;
    let mut best: usize = 0;
    let mut i: usize = 0;
    while i < candidates.len()
        invariant
            0 <= i <= candidates.len(),
            src@.map_values(|x: Vec<char>| x@) == segments_from(source_folder@, 0),
            best_idx < candidates.len(),
            i == 0 ==> best_idx == 0,
            i > 0 ==> best_idx < i && best == closeness(candidates@[best_idx as int]@, source_folder@),
            forall|j: int|
                0 <= j < i ==> closeness(#[trigger] candidates@[j]@, source_folder@) <= best,
            forall|j: int|
                0 <= j < best_idx ==> closeness(#[trigger] candidates@[j]@, source_folder@) < best,
        decreases candidates.len() - i,
    {
        let folder = folder_of_exec(&chars_of(candidates[i].as_str()));
        let segs = segments_exec(&folder);
        let sh = shared_exec(&src, &segs);
        if i == 0 || sh > best {
            best = sh;
            best_idx = i;
        }
        i += 1;
    }
    best_idx
}

/// The path a link target resolves to, seen from a note in `source_folder`:
/// a note with exactly that path; else the note at that path plus `.md`;
/// else, among the notes with that stem, the closest (ties broken
/// alphabetically).
pub open spec fn resolve_link(files: Seq<LinkedNote>, link: Seq<char>, source_folder: Seq<char>) -> Option<Seq<char>> {
    if exists|i: int| 0 <= i < files.len() && #[trigger] files[i].rel_path@ == link {
        Some(link)
    } else if exists|i: int| 0 <= i < files.len() && #[trigger] files[i].rel_path@ == link + ".md"@ {
        Some(link + ".md"@)
    } else if exists|i: int| 0 <= i < files.len() && #[trigger] files[i].stem@ == link {
        Some(choose|r: Seq<char>| stem_best(files, link, source_folder, r))
    } else {
        None
    }
}

/// `r` is the closest note with stem `link`, alphabetically first among
/// equally close ones.
pub open spec fn stem_best(files: Seq<LinkedNote>, link: Seq<char>, source_folder: Seq<char>, r: Seq<char>) -> bool {
    &&& exists|i: int| 0 <= i < files.len() && #[trigger] files[i].stem@ == link && files[i].rel_path@ == r
    &&& forall|j: int|
        0 <= j < files.len() && #[trigger] files[j].stem@ == link ==> closeness(
            files[j].rel_path@,
            source_folder,
        ) < closeness(r, source_folder) || (closeness(files[j].rel_path@, source_folder)
            == closeness(r, source_folder) && !seq_lt(files[j].rel_path@, r))
}

pub proof fn lemma_stem_best_unique(
    files: Seq<LinkedNote>,
    link: Seq<char>,
    source_folder: Seq<char>,
    r1: Seq<char>,
    r2: Seq<char>,
)
    requires
        stem_best(files, link, source_folder, r1),
        stem_best(files, link, source_folder, r2),
    ensures
        r1 == r2,
{
    let i1 = choose|i: int| 0 <= i < files.len() && #[trigger] files[i].stem@ == link && files[i].rel_path@ == r1;
    let i2 = choose|i: int| 0 <= i < files.len() && #[trigger] files[i].stem@ == link && files[i].rel_path@ == r2;
    assert(files[i1].stem@ == link);
    assert(files[i2].stem@ == link);
    crate::text::lemma_seq_lt_total(r1, r2);
}

/// `p` is the path of a note with stem `link`.
pub open spec fn is_stem_path(files: Seq<LinkedNote>, link: Seq<char>, p: Seq<char>) -> bool {
    exists|j: int| 0 <= j < files.len() && #[trigger] files[j].stem@ == link && files[j].rel_path@ == p
}

/// Some link of `links` resolves to `target`.
pub open spec fn links_to(
    files: Seq<LinkedNote>,
    links: Seq<String>,
    source_folder: Seq<char>,
    target: Seq<char>,
) -> bool {
    exists|m: int| 0 <= m < links.len() && resolve_link(files, #[trigger] links[m]@, source_folder) == Some(target)
}

/// Paths of the notes and canvases with a link resolving to `target`.
pub open spec fn backlink_sources(
    files: Seq<LinkedNote>,
    canvases: Seq<CanvasLinks>,
    target: Seq<char>,
) -> Set<Seq<char>> {
    Set::new(
        |p: Seq<char>|
            (exists|i: int|
                0 <= i < files.len() && #[trigger] files[i].rel_path@ == p && links_to(
                    files,
                    files[i].links@,
                    files[i].folder@,
                    target,
                )) || (exists|c: int|
                0 <= c < canvases.len() && #[trigger] canvases[c].rel_path@ == p && links_to(
                    files,
                    canvases[c].links@,
                    folder_of(canvases[c].rel_path@),
                    target,
                )),
    )
}

fn path_eq_any(files: &Vec<LinkedNote>, p: &Vec<char>) -> (r: bool)
    ensures
        r == exists|i: int| 0 <= i < files.len() && #[trigger] files@[i].rel_path@ == p@,
{
    let mut i: usize = 0;
    while i < files.len()
        invariant
            0 <= i <= files.len(),
            forall|j: int| 0 <= j < i ==> #[trigger] files@[j].rel_path@ != p@,
        decreases files.len() - i,
    {
        if crate::text::chars_eq(&chars_of(files[i].rel_path.as_str()), p) {
            return true;
        }
        i += 1;
    }
    false
}

fn resolve_exec(files: &Vec<LinkedNote>, link: &String, source_folder: &String) -> (r: Option<String>)
    ensures
        match resolve_link(files@, link@, source_folder@) {
            Some(t) => r is Some && r->0@ == t,
            None => r is None,
        },
{
    let lv = chars_of(link.as_str());
    if path_eq_any(files, &lv) {
        return Some(link.clone());
    }
    let mut with_md = lv.clone();
    with_md.push('.');
    with_md.push('m');
    with_md.push('d');
    proof {
        reveal_strlit(".md");
        assert(with_md@ =~= link@ + ".md"@);
    }
    if path_eq_any(files, &with_md) {
        return Some(string_from_chars(&with_md, 0, with_md.len()));
    }
    let mut cands: Vec<String> = Vec::new();
    let mut i: usize = 0;
    while i < files.len()
        invariant
            0 <= i <= files.len(),
            lv@ == link@,
            forall|k: int| 0 <= k < cands.len() ==> is_stem_path(files@, link@, #[trigger] cands@[k]@),
            forall|j: int| 0 <= j < i && #[trigger] files@[j].stem@ == link@ ==> views_of(cands@).contains(files@[j].rel_path@),
        decreases files.len() - i,
    {
        if str_eq(files[i].stem.as_str(), link.as_str()) {
            let ghost before = cands@;
            cands.push(files[i].rel_path.clone());
            proof {
                assert(views_of(cands@) =~= views_of(before).push(files@[i as int].rel_path@));
                assert forall|j: int| 0 <= j <= i && #[trigger] files@[j].stem@ == link@ implies views_of(cands@).contains(files@[j].rel_path@) by {
                    if j < i {
                        let k = choose|k: int| 0 <= k < views_of(before).len() && views_of(before)[k] == files@[j].rel_path@;
                        assert(views_of(cands@)[k] == files@[j].rel_path@);
                    } else {
                        assert(views_of(cands@)[before.len() as int] == files@[j].rel_path@);
                    }
                }
                assert forall|k: int| 0 <= k < cands.len() implies is_stem_path(files@, link@, #[trigger] cands@[k]@) by {
                    if k < before.len() {
                        assert(cands@[k] == before[k]);
                    } else {
                        assert(files@[i as int].stem@ == link@);
                    }
                }
            }
        }
        i += 1;
    }
    if cands.len() == 0 {
        proof {
            assert forall|j: int| 0 <= j < files.len() implies #[trigger] files@[j].stem@ != link@ by {
                if files@[j].stem@ == link@ {
                    assert(views_of(cands@).contains(files@[j].rel_path@));
                }
            }
        }
        return None;
    }
    let sorted = sorted_distinct(&cands);
    proof {
        assert(views_of(cands@).contains(cands@[0]@));
        assert(views_of(cands@).to_set().contains(cands@[0]@));
    }
    let b = resolve_closest(&sorted, source_folder.as_str());
    let r = sorted[b].clone();
    proof {
        let sv = views_of(sorted@);
        let cv = views_of(cands@);
        assert(sv[b as int] == r@);
        assert(sv.to_set().contains(r@));
        assert(cv.to_set().contains(r@));
        let k = choose|k: int| 0 <= k < cv.len() && cv[k] == r@;
        assert(cands@[k]@ == r@);
        assert(is_stem_path(files@, link@, cands@[k]@));
        assert forall|j: int|
            0 <= j < files@.len() && #[trigger] files@[j].stem@ == link@ implies closeness(
                files@[j].rel_path@,
                source_folder@,
            ) < closeness(r@, source_folder@) || (closeness(files@[j].rel_path@, source_folder@)
                == closeness(r@, source_folder@) && !seq_lt(files@[j].rel_path@, r@)) by {
            let c = files@[j].rel_path@;
            assert(cv.contains(c));
            assert(cv.to_set().contains(c));
            assert(sv.to_set().contains(c));
            let m = choose|m: int| 0 <= m < sv.len() && sv[m] == c;
            assert(sorted@[m]@ == c);
            assert(closeness(sorted@[m]@, source_folder@) <= closeness(sorted@[b as int]@, source_folder@));
            if m < b {
                assert(closeness(sorted@[m]@, source_folder@) < closeness(sorted@[b as int]@, source_folder@));
            } else if m == b {
                crate::text::lemma_seq_lt_irrefl(c);
            } else {
                assert(seq_lt(sv[b as int], sv[m]));
                crate::text::lemma_seq_lt_asym(sv[b as int], sv[m]);
            }
        }
        assert(stem_best(files@, link@, source_folder@, r@));
        let chosen = choose|x: Seq<char>| stem_best(files@, link@, source_folder@, x);
        lemma_stem_best_unique(files@, link@, source_folder@, r@, chosen);
    }
    Some(r)
}


pub open spec fn pairs_view(v: Seq<(String, String)>) -> Seq<(Seq<char>, Seq<char>)> {
    v.map_values(|q: (String, String)| (q.0@, q.1@))
}

/// Every recorded (target, source) pair is a real backlink.
pub open spec fn pairs_sound(
    files: Seq<LinkedNote>,
    canvases: Seq<CanvasLinks>,
    pv: Seq<(Seq<char>, Seq<char>)>,
) -> bool {
    forall|q: int| 0 <= q < pv.len() ==> backlink_sources(files, canvases, #[trigger] pv[q].0).contains(pv[q].1)
}

/// Links of `links` (seen from `folder`) up to `upto` are recorded with source `path`.
pub open spec fn links_recorded(
    files: Seq<LinkedNote>,
    links: Seq<String>,
    upto: int,
    folder: Seq<char>,
    path: Seq<char>,
    pv: Seq<(Seq<char>, Seq<char>)>,
) -> bool {
    forall|m: int|
        0 <= m < upto && m < links.len() && (#[trigger] resolve_link(files, links[m]@, folder)) is Some
            ==> pv.contains((resolve_link(files, links[m]@, folder)->0, path))
}

fn record_links(
    files: &Vec<LinkedNote>,
    canvases: &Vec<CanvasLinks>,
    links: &Vec<String>,
    folder: &String,
    path: &String,
    pairs: &mut Vec<(String, String)>,
)
    requires
        pairs_sound(files@, canvases@, pairs_view(old(pairs)@)),
        (exists|i: int|
            0 <= i < files@.len() && #[trigger] files@[i].rel_path@ == path@ && files@[i].links@
                == links@ && files@[i].folder@ == folder@) || (exists|c: int|
            0 <= c < canvases@.len() && #[trigger] canvases@[c].rel_path@ == path@
                && canvases@[c].links@ == links@ && folder_of(canvases@[c].rel_path@) == folder@),
    ensures
        pairs_sound(files@, canvases@, pairs_view(final(pairs)@)),
        links_recorded(files@, links@, links@.len() as int, folder@, path@, pairs_view(final(pairs)@)),
        forall|x: (Seq<char>, Seq<char>)|
            pairs_view(old(pairs)@).contains(x) ==> #[trigger] pairs_view(final(pairs)@).contains(x),
{
    let mut m: usize = 0;
    while m < links.len()
        invariant
            0 <= m <= links.len(),
            pairs_sound(files@, canvases@, pairs_view(pairs@)),
            (exists|i: int|
                0 <= i < files@.len() && #[trigger] files@[i].rel_path@ == path@ && files@[i].links@
                    == links@ && files@[i].folder@ == folder@) || (exists|c: int|
                0 <= c < canvases@.len() && #[trigger] canvases@[c].rel_path@ == path@
                    && canvases@[c].links@ == links@ && folder_of(canvases@[c].rel_path@) == folder@),
            links_recorded(files@, links@, m as int, folder@, path@, pairs_view(pairs@)),
            forall|x: (Seq<char>, Seq<char>)|
                pairs_view(old(pairs)@).contains(x) ==> #[trigger] pairs_view(pairs@).contains(x),
        decreases links.len() - m,
    {
        match resolve_exec(files, &links[m], folder) {
            Some(t) => {
                let ghost before = pairs_view(pairs@);
                pairs.push((t, path.clone()));
                proof {
                    let pv = pairs_view(pairs@);
                    assert(pv =~= before.push((t@, path@)));
                    assert(links_to(files@, links@, folder@, t@)) by {
                        assert(resolve_link(files@, links@[m as int]@, folder@) == Some(t@));
                    }
                    assert(backlink_sources(files@, canvases@, t@).contains(path@));
                    assert forall|q: int| 0 <= q < pv.len() implies backlink_sources(
                        files@,
                        canvases@,
                        #[trigger] pv[q].0,
                    ).contains(pv[q].1) by {
                        if q < before.len() {
                            assert(pv[q] == before[q]);
                        }
                    }
                    assert forall|x: (Seq<char>, Seq<char>)| before.contains(x) implies #[trigger] pv.contains(x) by {
                        let q = choose|q: int| 0 <= q < before.len() && before[q] == x;
                        assert(pv[q] == x);
                    }
                    assert(pv[before.len() as int] == (t@, path@));
                    assert forall|mm: int|
                        0 <= mm < m + 1 && mm < links@.len() && (#[trigger] resolve_link(
                            files@,
                            links@[mm]@,
                            folder@,
                        )) is Some implies pv.contains(
                        (resolve_link(files@, links@[mm]@, folder@)->0, path@),
                    ) by {
                        if mm < m {
                            assert(before.contains(
                                (resolve_link(files@, links@[mm]@, folder@)->0, path@),
                            ));
                        }
                    }
                }
            },
            None => {},
        }
        m += 1;
    }
}

/// Every (target, source) pair of a link that resolves, across notes and
/// canvases.
fn collect_pairs(files: &Vec<LinkedNote>, canvases: &Vec<CanvasLinks>) -> (r: Vec<(String, String)>)
    ensures
        pairs_sound(files@, canvases@, pairs_view(r@)),
        forall|i: int|
            0 <= i < files@.len() ==> links_recorded(
                files@,
                #[trigger] files@[i].links@,
                files@[i].links@.len() as int,
                files@[i].folder@,
                files@[i].rel_path@,
                pairs_view(r@),
            ),
        forall|c: int|
            0 <= c < canvases@.len() ==> links_recorded(
                files@,
                #[trigger] canvases@[c].links@,
                canvases@[c].links@.len() as int,
                folder_of(canvases@[c].rel_path@),
                canvases@[c].rel_path@,
                pairs_view(r@),
            ),
{
    let mut pairs: Vec<(String, String)> = Vec::new();
    let mut i: usize = 0;
    while i < files.len()
        invariant
            0 <= i <= files.len(),
            pairs_sound(files@, canvases@, pairs_view(pairs@)),
            forall|j: int|
                0 <= j < i ==> links_recorded(
                    files@,
                    #[trigger] files@[j].links@,
                    files@[j].links@.len() as int,
                    files@[j].folder@,
                    files@[j].rel_path@,
                    pairs_view(pairs@),
                ),
        decreases files.len() - i,
    {
        let ghost before = pairs_view(pairs@);
        assert(files@[i as int].rel_path@ == files[i as int].rel_path@ && files@[i as int].links@
            == files[i as int].links@ && files@[i as int].folder@ == files[i as int].folder@);
        record_links(files, canvases, &files[i].links, &files[i].folder, &files[i].rel_path, &mut pairs);
        proof {
            assert forall|j: int|
                0 <= j < i + 1 implies links_recorded(
                    files@,
                    #[trigger] files@[j].links@,
                    files@[j].links@.len() as int,
                    files@[j].folder@,
                    files@[j].rel_path@,
                    pairs_view(pairs@),
                ) by {
                if j < i {
                    assert(links_recorded(
                        files@,
                        files@[j].links@,
                        files@[j].links@.len() as int,
                        files@[j].folder@,
                        files@[j].rel_path@,
                        before,
                    ));
                }
            }
        }
        i += 1;
    }
    let mut c: usize = 0;
    while c < canvases.len()
        invariant
            0 <= c <= canvases.len(),
            pairs_sound(files@, canvases@, pairs_view(pairs@)),
            forall|j: int|
                0 <= j < files@.len() ==> links_recorded(
                    files@,
                    #[trigger] files@[j].links@,
                    files@[j].links@.len() as int,
                    files@[j].folder@,
                    files@[j].rel_path@,
                    pairs_view(pairs@),
                ),
            forall|j: int|
                0 <= j < c ==> links_recorded(
                    files@,
                    #[trigger] canvases@[j].links@,
                    canvases@[j].links@.len() as int,
                    folder_of(canvases@[j].rel_path@),
                    canvases@[j].rel_path@,
                    pairs_view(pairs@),
                ),
        decreases canvases.len() - c,
    {
        let ghost before = pairs_view(pairs@);
        let pchars = chars_of(canvases[c].rel_path.as_str());
        let fv = folder_of_exec(&pchars);
        let folder = string_from_chars(&fv, 0, fv.len());
        assert(fv@.subrange(0, fv@.len() as int) =~= fv@);
        record_links(files, canvases, &canvases[c].links, &folder, &canvases[c].rel_path, &mut pairs);
        proof {
            assert forall|j: int|
                0 <= j < files@.len() implies links_recorded(
                    files@,
                    #[trigger] files@[j].links@,
                    files@[j].links@.len() as int,
                    files@[j].folder@,
                    files@[j].rel_path@,
                    pairs_view(pairs@),
                ) by {
                assert(links_recorded(
                    files@,
                    files@[j].links@,
                    files@[j].links@.len() as int,
                    files@[j].folder@,
                    files@[j].rel_path@,
                    before,
                ));
            }
            assert forall|j: int|
                0 <= j < c + 1 implies links_recorded(
                    files@,
                    #[trigger] canvases@[j].links@,
                    canvases@[j].links@.len() as int,
                    folder_of(canvases@[j].rel_path@),
                    canvases@[j].rel_path@,
                    pairs_view(pairs@),
                ) by {
                if j < c {
                    assert(links_recorded(
                        files@,
                        canvases@[j].links@,
                        canvases@[j].links@.len() as int,
                        folder_of(canvases@[j].rel_path@),
                        canvases@[j].rel_path@,
                        before,
                    ));
                }
            }
        }
        c += 1;
    }
    pairs
}


/// The sources recorded for `target`.
fn gather_sources(pairs: &Vec<(String, String)>, target: &String) -> (r: Vec<String>)
    ensures
        forall|x: Seq<char>|
            #[trigger] views_of(r@).contains(x) <==> pairs_view(pairs@).contains((target@, x)),
{
    let ghost pv = pairs_view(pairs@);
    let mut out: Vec<String> = Vec::new();
    let mut q: usize = 0;
    while q < pairs.len()
        invariant
            0 <= q <= pairs.len(),
            pv == pairs_view(pairs@),
            forall|x: Seq<char>|
                #[trigger] views_of(out@).contains(x) <==> pv.take(q as int).contains((target@, x)),
        decreases pairs.len() - q,
    {
        let ghost before = views_of(out@);
        let ghost pre = pv.take(q as int);
        assert(pv.take(q + 1) =~= pre.push(pv[q as int]));
        if str_eq(pairs[q].0.as_str(), target.as_str()) {
            out.push(pairs[q].1.clone());
            proof {
                let now = views_of(out@);
                assert(now =~= before.push(pairs@[q as int].1@));
                assert forall|x: Seq<char>| #[trigger] now.contains(x) <==> pv.take(q + 1).contains(
                    (target@, x),
                ) by {
                    assert(before.contains(x) <==> pre.contains((target@, x)));
                    if now.contains(x) {
                        let k = choose|k: int| 0 <= k < now.len() && now[k] == x;
                        if k < before.len() {
                            assert(before[k] == x);
                            assert(before.contains(x));
                            let m = choose|m: int| 0 <= m < pre.len() && pre[m] == (target@, x);
                            assert(pv.take(q + 1)[m] == (target@, x));
                        } else {
                            assert(pv.take(q + 1)[q as int] == (target@, x));
                        }
                    }
                    if pv.take(q + 1).contains((target@, x)) {
                        let m = choose|m: int| 0 <= m < q + 1 && #[trigger] pv.take(q + 1)[m] == (target@, x);
                        if m < q {
                            assert(pre[m] == (target@, x));
                            assert(pre.contains((target@, x)));
                            let k = choose|k: int| 0 <= k < before.len() && before[k] == x;
                            assert(now[k] == x);
                        } else {
                            assert(now[before.len() as int] == x);
                        }
                    }
                }
            }
        } else {
            proof {
                assert forall|x: Seq<char>| #[trigger] before.contains(x) <==> pv.take(q + 1).contains(
                    (target@, x),
                ) by {
                    if pv.take(q + 1).contains((target@, x)) {
                        let m = choose|m: int| 0 <= m < q + 1 && #[trigger] pv.take(q + 1)[m] == (target@, x);
                        if m < q {
                            assert(pre[m] == (target@, x));
                        }
                    }
                    if pre.contains((target@, x)) {
                        let m = choose|m: int| 0 <= m < pre.len() && pre[m] == (target@, x);
                        assert(pv.take(q + 1)[m] == (target@, x));
                    }
                }
            }
        }
        q += 1;
    }
    assert(pv.take(pairs.len() as int) =~= pv);
    out
}

/// For each note, the sorted, duplicate-free paths of the notes and
/// canvases with a link resolving to it. A note whose path repeats an
/// earlier note's gets no backlinks.
pub fn compute_backlinks(files: &Vec<LinkedNote>, canvases: &Vec<CanvasLinks>) -> (r: Vec<
    Vec<String>,
>)
    ensures
        r@.len() == files@.len(),
        forall|k: int|
            0 <= k < files@.len() ==> if exists|j: int|
                0 <= j < k && #[trigger] files@[j].rel_path@ == files@[k].rel_path@ {
                r@[k]@.len() == 0
            } else {
                strictly_sorted(views_of(#[trigger] r@[k]@)) && views_of(r@[k]@).to_set()
                    == backlink_sources(files@, canvases@, files@[k].rel_path@)
            },
{
    let pairs = collect_pairs(files, canvases);
    let ghost pv = pairs_view(pairs@);
    let mut out: Vec<Vec<String>> = Vec::new();
    let mut k: usize = 0;
    while k < files.len()
        invariant
            0 <= k <= files.len(),
            out@.len() == k,
            pv == pairs_view(pairs@),
            pairs_sound(files@, canvases@, pv),
            forall|i: int|
                0 <= i < files@.len() ==> links_recorded(
                    files@,
                    #[trigger] files@[i].links@,
                    files@[i].links@.len() as int,
                    files@[i].folder@,
                    files@[i].rel_path@,
                    pv,
                ),
            forall|c: int|
                0 <= c < canvases@.len() ==> links_recorded(
                    files@,
                    #[trigger] canvases@[c].links@,
                    canvases@[c].links@.len() as int,
                    folder_of(canvases@[c].rel_path@),
                    canvases@[c].rel_path@,
                    pv,
                ),
            forall|kk: int|
                0 <= kk < k ==> if exists|j: int|
                    0 <= j < kk && #[trigger] files@[j].rel_path@ == files@[kk].rel_path@ {
                    out@[kk]@.len() == 0
                } else {
                    strictly_sorted(views_of(#[trigger] out@[kk]@)) && views_of(out@[kk]@).to_set()
                        == backlink_sources(files@, canvases@, files@[kk].rel_path@)
                },
        decreases files.len() - k,
    {
        let target = &files[k].rel_path;
        let mut dup = false;
        let mut j: usize = 0;
        while j < k
            invariant
                0 <= j <= k < files.len(),
                *target == files@[k as int].rel_path,
                !dup ==> forall|jj: int| 0 <= jj < j ==> #[trigger] files@[jj].rel_path@ != target@,
                dup ==> exists|jj: int| 0 <= jj < k && #[trigger] files@[jj].rel_path@ == target@,
            decreases k - j,
        {
            if !dup && str_eq(files[j].rel_path.as_str(), target.as_str()) {
                dup = true;
            }
            j += 1;
        }
        let ghost tv = target@;
        if dup {
            out.push(Vec::new());
        } else {
            let srcs = gather_sources(&pairs, target);
            let list = sorted_distinct(&srcs);
            proof {
                let bs = backlink_sources(files@, canvases@, tv);
                assert forall|p: Seq<char>| views_of(list@).to_set().contains(p) <==> bs.contains(p) by {
                    assert(views_of(list@).to_set().contains(p) == views_of(srcs@).to_set().contains(p));
                    if views_of(srcs@).contains(p) {
                        assert(pv.contains((tv, p)));
                        let q = choose|q: int| 0 <= q < pv.len() && pv[q] == (tv, p);
                        assert(pv[q].0 == tv);
                        assert(bs.contains(pv[q].1));
                    }
                    if bs.contains(p) {
                        if exists|i: int|
                            0 <= i < files@.len() && #[trigger] files@[i].rel_path@ == p && links_to(
                                files@,
                                files@[i].links@,
                                files@[i].folder@,
                                tv,
                            ) {
                            let i = choose|i: int|
                                0 <= i < files@.len() && #[trigger] files@[i].rel_path@ == p && links_to(
                                    files@,
                                    files@[i].links@,
                                    files@[i].folder@,
                                    tv,
                                );
                            let m = choose|m: int|
                                0 <= m < files@[i].links@.len() && resolve_link(
                                    files@,
                                    #[trigger] files@[i].links@[m]@,
                                    files@[i].folder@,
                                ) == Some(tv);
                            assert(links_recorded(
                                files@,
                                files@[i].links@,
                                files@[i].links@.len() as int,
                                files@[i].folder@,
                                files@[i].rel_path@,
                                pv,
                            ));
                            assert(resolve_link(files@, files@[i].links@[m]@, files@[i].folder@) is Some);
                            assert(pv.contains((tv, p)));
                        } else {
                            let c = choose|c: int|
                                0 <= c < canvases@.len() && #[trigger] canvases@[c].rel_path@ == p
                                    && links_to(
                                    files@,
                                    canvases@[c].links@,
                                    folder_of(canvases@[c].rel_path@),
                                    tv,
                                );
                            let m = choose|m: int|
                                0 <= m < canvases@[c].links@.len() && resolve_link(
                                    files@,
                                    #[trigger] canvases@[c].links@[m]@,
                                    folder_of(canvases@[c].rel_path@),
                                ) == Some(tv);
                            assert(links_recorded(
                                files@,
                                canvases@[c].links@,
                                canvases@[c].links@.len() as int,
                                folder_of(canvases@[c].rel_path@),
                                canvases@[c].rel_path@,
                                pv,
                            ));
                            assert(resolve_link(
                                files@,
                                canvases@[c].links@[m]@,
                                folder_of(canvases@[c].rel_path@),
                            ) is Some);
                            assert(pv.contains((tv, p)));
                        }
                        assert(views_of(srcs@).contains(p));
                    }
                }
                assert(views_of(list@).to_set() =~= bs);
            }
            out.push(list);
        }
        proof {
            assert forall|kk: int|
                0 <= kk < k + 1 implies if exists|j: int|
                    0 <= j < kk && #[trigger] files@[j].rel_path@ == files@[kk].rel_path@ {
                    out@[kk]@.len() == 0
                } else {
                    strictly_sorted(views_of(#[trigger] out@[kk]@)) && views_of(out@[kk]@).to_set()
                        == backlink_sources(files@, canvases@, files@[kk].rel_path@)
                } by {
                if kk == k {
                    if !dup {
                        assert(forall|jj: int| 0 <= jj < kk ==> #[trigger] files@[jj].rel_path@ != files@[kk].rel_path@);
                    }
                }
            }
        }
        k += 1;
    }
    out
}


// ---------- Column types of frontmatter properties ----------

/// What a single frontmatter value suggests about its column's type.
#[derive(Debug, Clone, Copy, PartialEq, Eq, Structural)]
pub enum TypeProbe {
    Int,
    Float,
    Bool,
    Date,
    Datetime,
    StringList,
    String,
}

/// Column type chosen for a frontmatter property.
#[derive(Debug, Clone, Copy, PartialEq, Eq, Structural)]
pub enum ColumnKind {
    Int64,
    Float64,
    Boolean,
    Date,
    Datetime,
    StringList,
    String,
}

/// A bare date or datetime string is a date/datetime; anything else
/// (wikilink-wrapped dates included) is a string.
pub open spec fn probe_string_spec(s: Seq<char>) -> TypeProbe {
    if crate::dates::naive_datetime_micros(s, "%Y-%m-%dT%H:%M:%S"@) is Some
        || crate::dates::naive_datetime_micros(s, "%Y-%m-%d %H:%M:%S"@) is Some {
        TypeProbe::Datetime
    } else if crate::dates::naive_date_days(s, "%Y-%m-%d"@) is Some {
        TypeProbe::Date
    } else {
        TypeProbe::String
    }
}

/// The type a value suggests; none for null. A number is an integer when
/// it fits `i64`; a tagged value is probed through its tag, and is a string
/// when the tagged value is null.
pub open spec fn probe_spec(v: YamlValue) -> Option<TypeProbe>
    decreases v,
{
    match v {
        YamlValue::Null => None,
        YamlValue::Bool(_) => Some(TypeProbe::Bool),
        YamlValue::Number(n) => match n {
            crate::yaml::YamlNumber::PosInt(u) => if u <= i64::MAX {
                Some(TypeProbe::Int)
            } else {
                Some(TypeProbe::Float)
            },
            crate::yaml::YamlNumber::NegInt(_) => Some(TypeProbe::Int),
            crate::yaml::YamlNumber::Float(_) => Some(TypeProbe::Float),
        },
        YamlValue::String(s) => Some(probe_string_spec(s@)),
        YamlValue::Sequence(_) => Some(TypeProbe::StringList),
        YamlValue::Mapping(_) => Some(TypeProbe::String),
        YamlValue::Tagged(_, inner) => match probe_spec(*inner) {
            Some(p) => Some(p),
            None => Some(TypeProbe::String),
        },
    }
}

pub fn probe_string(s: &str) -> (r: TypeProbe)
    ensures
        r == probe_string_spec(s@),
{
    proof {
        crate::dates::lemma_datetime_patterns();
    }
    if crate::dates::parse_datetime_micros(s, "%Y-%m-%dT%H:%M:%S").is_some()
        || crate::dates::parse_datetime_micros(s, "%Y-%m-%d %H:%M:%S").is_some() {
        TypeProbe::Datetime
    } else if crate::dates::parse_date_days(s, "%Y-%m-%d").is_some() {
        TypeProbe::Date
    } else {
        TypeProbe::String
    }
}

pub fn probe(v: &YamlValue) -> (r: Option<TypeProbe>)
    ensures
        r == probe_spec(*v),
    decreases v,
{
    match v {
        YamlValue::Null => None,
        YamlValue::Bool(_) => Some(TypeProbe::Bool),
        YamlValue::Number(n) => match n {
            crate::yaml::YamlNumber::PosInt(u) => if *u <= i64::MAX as u64 {
                Some(TypeProbe::Int)
            } else {
                Some(TypeProbe::Float)
            },
            crate::yaml::YamlNumber::NegInt(_) => Some(TypeProbe::Int),
            crate::yaml::YamlNumber::Float(_) => Some(TypeProbe::Float),
        },
        YamlValue::String(s) => Some(probe_string(s.as_str())),
        YamlValue::Sequence(_) => Some(TypeProbe::StringList),
        YamlValue::Mapping(_) => Some(TypeProbe::String),
        YamlValue::Tagged(_, inner) => match probe(inner) {
            Some(p) => Some(p),
            None => Some(TypeProbe::String),
        },
    }
}

/// Some value of the column probes as `p`.
pub open spec fn has_probe(values: Seq<YamlValue>, p: TypeProbe) -> bool {
    exists|i: int| 0 <= i < values.len() && probe_spec(#[trigger] values[i]) == Some(p)
}

/// Column type from the probes of its values: a single kind wins; integers
/// with floats make floats; dates with datetimes make datetimes; lists
/// alone make string lists; no probe at all, or any other mix, makes
/// strings.
pub open spec fn infer_spec(values: Seq<YamlValue>) -> ColumnKind {
    let has_int = has_probe(values, TypeProbe::Int);
    let float = has_probe(values, TypeProbe::Float);
    let b = has_probe(values, TypeProbe::Bool);
    let date = has_probe(values, TypeProbe::Date);
    let dt = has_probe(values, TypeProbe::Datetime);
    let list = has_probe(values, TypeProbe::StringList);
    let string = has_probe(values, TypeProbe::String);
    if has_int && !float && !b && !date && !dt && !list && !string {
        ColumnKind::Int64
    } else if !b && !date && !dt && !list && !string && (has_int || float) {
        ColumnKind::Float64
    } else if b && !has_int && !float && !date && !dt && !list && !string {
        ColumnKind::Boolean
    } else if !has_int && !float && !b && !list && !string && dt {
        ColumnKind::Datetime
    } else if !has_int && !float && !b && !list && !string && date {
        ColumnKind::Date
    } else if list && !has_int && !float && !b && !date && !dt && !string {
        ColumnKind::StringList
    } else {
        ColumnKind::String
    }
}

/// The values behind the references.
pub open spec fn deref_all(s: Seq<&YamlValue>) -> Seq<YamlValue> {
    s.map_values(|r: &YamlValue| *r)
}

/// Column type of a frontmatter property from the values it takes across
/// notes (null where a note lacks it).
pub fn infer_dtype(values: &Vec<&YamlValue>) -> (r: ColumnKind)
    ensures
        r == infer_spec(deref_all(values@)),
{
    let ghost vs = deref_all(values@);
    let mut has_int = false;
    let mut float = false;
    let mut b = false;
    let mut date = false;
    let mut dt = false;
    let mut list = false;
    let mut string = false;
    let mut i: usize = 0;
    while i < values.len()
        invariant
            0 <= i <= values.len(),
            vs == deref_all(values@),
            vs.len() == values.len(),
            has_int == has_probe(vs.take(i as int), TypeProbe::Int),
            float == has_probe(vs.take(i as int), TypeProbe::Float),
            b == has_probe(vs.take(i as int), TypeProbe::Bool),
            date == has_probe(vs.take(i as int), TypeProbe::Date),
            dt == has_probe(vs.take(i as int), TypeProbe::Datetime),
            list == has_probe(vs.take(i as int), TypeProbe::StringList),
            string == has_probe(vs.take(i as int), TypeProbe::String),
        decreases values.len() - i,
    {
        let p = probe(values[i]);
        assert(vs[i as int] == *values@[i as int]);
        let ghost pre = vs.take(i as int);
        let ghost nxt = vs.take(i + 1);
        match p {
            Some(TypeProbe::Int) => has_int = true,
            Some(TypeProbe::Float) => float = true,
            Some(TypeProbe::Bool) => b = true,
            Some(TypeProbe::Date) => date = true,
            Some(TypeProbe::Datetime) => dt = true,
            Some(TypeProbe::StringList) => list = true,
            Some(TypeProbe::String) => string = true,
            None => {},
        }
        proof {
            assert forall|q: TypeProbe| #[trigger] has_probe(nxt, q) == (has_probe(pre, q) || p == Some(q)) by {
                if has_probe(nxt, q) {
                    let k = choose|k: int| 0 <= k < nxt.len() && probe_spec(#[trigger] nxt[k]) == Some(q);
                    if k < i {
                        assert(pre[k] == nxt[k]);
                    }
                }
                if has_probe(pre, q) {
                    let k = choose|k: int| 0 <= k < pre.len() && probe_spec(#[trigger] pre[k]) == Some(q);
                    assert(nxt[k] == pre[k]);
                }
                if p == Some(q) {
                    assert(nxt[i as int] == vs[i as int]);
                }
            }
            assert(has_probe(nxt, TypeProbe::Int) == (has_probe(pre, TypeProbe::Int) || p == Some(TypeProbe::Int)));
            assert(has_probe(nxt, TypeProbe::Float) == (has_probe(pre, TypeProbe::Float) || p == Some(TypeProbe::Float)));
            assert(has_probe(nxt, TypeProbe::Bool) == (has_probe(pre, TypeProbe::Bool) || p == Some(TypeProbe::Bool)));
            assert(has_probe(nxt, TypeProbe::Date) == (has_probe(pre, TypeProbe::Date) || p == Some(TypeProbe::Date)));
            assert(has_probe(nxt, TypeProbe::Datetime) == (has_probe(pre, TypeProbe::Datetime) || p == Some(TypeProbe::Datetime)));
            assert(has_probe(nxt, TypeProbe::StringList) == (has_probe(pre, TypeProbe::StringList) || p == Some(TypeProbe::StringList)));
            assert(has_probe(nxt, TypeProbe::String) == (has_probe(pre, TypeProbe::String) || p == Some(TypeProbe::String)));
        }
        i += 1;
    }
    assert(vs.take(values.len() as int) =~= vs);
    if has_int && !float && !b && !date && !dt && !list && !string {
        ColumnKind::Int64
    } else if !b && !date && !dt && !list && !string && (has_int || float) {
        ColumnKind::Float64
    } else if b && !has_int && !float && !date && !dt && !list && !string {
        ColumnKind::Boolean
    } else if !has_int && !float && !b && !list && !string && dt {
        ColumnKind::Datetime
    } else if !has_int && !float && !b && !list && !string && date {
        ColumnKind::Date
    } else if list && !has_int && !float && !b && !date && !dt && !string {
        ColumnKind::StringList
    } else {
        ColumnKind::String
    }
}


// ---------- Cell values ----------

pub open spec fn digit_char(d: nat) -> char {
    ((d % 10) + 48) as char
}

/// Decimal digits of `n`.
pub open spec fn dec(n: nat) -> Seq<char>
    decreases n,
{
    if n < 10 {
        seq![digit_char(n)]
    } else {
        dec(n / 10).push(digit_char(n % 10))
    }
}

/// Decimal text of a signed integer.
pub open spec fn int_text(i: int) -> Seq<char> {
    if i < 0 {
        seq!['-'] + dec((-i) as nat)
    } else {
        dec(i as nat)
    }
}

pub(crate) fn u64_text(n: u64) -> (r: Vec<char>)
    ensures
        r@ == dec(n as nat),
    decreases n,
{
    if n < 10 {
        let mut v: Vec<char> = Vec::new();
        v.push(((n as u8) + 48) as char);
        v
    } else {
        let mut v = u64_text(n / 10);
        v.push((((n % 10) as u8) + 48) as char);
        v
    }
}

pub(crate) fn i64_text(i: i64) -> (r: Vec<char>)
    ensures
        r@ == int_text(i as int),
{
    if i < 0 {
        let mag: u64 = if i == i64::MIN {
            9223372036854775808u64
        } else {
            (-i) as u64
        };
        let d = u64_text(mag);
        let mut v: Vec<char> = Vec::new();
        v.push('-');
        let mut k: usize = 0;
        while k < d.len()
            invariant
                0 <= k <= d.len(),
                v@ == seq!['-'] + d@.take(k as int),
            decreases d.len() - k,
        {
            v.push(d[k]);
            k += 1;
            assert(v@ =~= seq!['-'] + d@.take(k as int));
        }
        assert(d@.take(d.len() as int) =~= d@);
        v
    } else {
        u64_text(i as u64)
    }
}

/// Text of a value as a list item in a cell: `null`, `true`/`false`,
/// numbers in decimal, strings as they are, lists joined with `, `,
/// mappings empty, tags looked through.
pub open spec fn cell_text(v: YamlValue) -> Seq<char>
    decreases v,
{
    match v {
        YamlValue::Null => "null"@,
        YamlValue::Bool(b) => if b {
            "true"@
        } else {
            "false"@
        },
        YamlValue::Number(n) => match n {
            crate::yaml::YamlNumber::PosInt(u) => dec(u as nat),
            crate::yaml::YamlNumber::NegInt(i) => int_text(i as int),
            crate::yaml::YamlNumber::Float(t) => t@,
        },
        YamlValue::String(s) => s@,
        YamlValue::Sequence(items) => joined_cells(items@),
        YamlValue::Mapping(_) => Seq::empty(),
        YamlValue::Tagged(_, inner) => cell_text(*inner),
    }
}

pub open spec fn joined_cells(items: Seq<YamlValue>) -> Seq<char>
    decreases items,
{
    if items.len() == 0 {
        Seq::empty()
    } else if items.len() == 1 {
        cell_text(items[0])
    } else {
        joined_cells(items.drop_last()) + ", "@ + cell_text(items.last())
    }
}

fn push_str_chars(out: &mut Vec<char>, s: &str)
    ensures
        final(out)@ == old(out)@ + s@,
{
    let v = chars_of(s);
    let mut k: usize = 0;
    while k < v.len()
        invariant
            0 <= k <= v.len(),
            out@ == old(out)@ + v@.take(k as int),
        decreases v.len() - k,
    {
        out.push(v[k]);
        k += 1;
        assert(out@ =~= old(out)@ + v@.take(k as int));
    }
    assert(v@.take(v.len() as int) =~= v@);
}

fn push_vec_chars(out: &mut Vec<char>, v: &Vec<char>)
    ensures
        final(out)@ == old(out)@ + v@,
{
    let mut k: usize = 0;
    while k < v.len()
        invariant
            0 <= k <= v.len(),
            out@ == old(out)@ + v@.take(k as int),
        decreases v.len() - k,
    {
        out.push(v[k]);
        k += 1;
        assert(out@ =~= old(out)@ + v@.take(k as int));
    }
    assert(v@.take(v.len() as int) =~= v@);
}

fn push_cell(out: &mut Vec<char>, v: &YamlValue)
    ensures
        final(out)@ == old(out)@ + cell_text(*v),
    decreases v, 0nat,
{
    match v {
        YamlValue::Null => push_str_chars(out, "null"),
        YamlValue::Bool(b) => if *b {
            push_str_chars(out, "true")
        } else {
            push_str_chars(out, "false")
        },
        YamlValue::Number(n) => match n {
            crate::yaml::YamlNumber::PosInt(u) => {
                let d = u64_text(*u);
                push_vec_chars(out, &d);
            },
            crate::yaml::YamlNumber::NegInt(i) => {
                let d = i64_text(*i);
                push_vec_chars(out, &d);
            },
            crate::yaml::YamlNumber::Float(t) => push_str_chars(out, t.as_str()),
        },
        YamlValue::String(s) => push_str_chars(out, s.as_str()),
        YamlValue::Sequence(items) => push_joined(out, items),
        YamlValue::Mapping(_) => {
            assert(old(out)@ + Seq::<char>::empty() =~= old(out)@);
        },
        YamlValue::Tagged(_, inner) => push_cell(out, inner),
    }
}

fn push_joined(out: &mut Vec<char>, items: &Vec<YamlValue>)
    ensures
        final(out)@ == old(out)@ + joined_cells(items@),
    decreases items@, 0nat,
{
    let mut i: usize = 0;
    while i < items.len()
        invariant
            0 <= i <= items.len(),
            out@ == old(out)@ + joined_cells(items@.take(i as int)),
        decreases items.len() - i,
    {
        assert(items@.take(i + 1).drop_last() =~= items@.take(i as int));
        if i > 0 {
            push_str_chars(out, ", ");
        } else {
            assert(items@.take(1)[0] == items@[0]);
        }
        push_cell(out, &items[i]);
        assert(out@ =~= old(out)@ + joined_cells(items@.take(i + 1)));
        i += 1;
    }
    assert(items@.take(items.len() as int) =~= items@);
}

/// Text of a value as an item of a list cell.
pub fn yaml_value_to_string_cell(v: &YamlValue) -> (r: String)
    ensures
        r@ == cell_text(*v),
{
    let mut out: Vec<char> = Vec::new();
    push_cell(&mut out, v);
    assert(out@.subrange(0, out@.len() as int) =~= out@);
    string_from_chars(&out, 0, out.len())
}

/// A string cell: none for null, the cell text otherwise.
pub fn value_as_string_cell(v: &YamlValue) -> (r: Option<String>)
    ensures
        match v {
            YamlValue::Null => r is None,
            _ => r is Some && r->0@ == cell_text(*v),
        },
{
    match v {
        YamlValue::Null => None,
        _ => Some(yaml_value_to_string_cell(v)),
    }
}

/// A boolean cell: only booleans count.
pub fn value_as_bool(v: &YamlValue) -> (r: Option<bool>)
    ensures
        r == (match v {
            YamlValue::Bool(b) => Some(*b),
            _ => None::<bool>,
        }),
{
    match v {
        YamlValue::Bool(b) => Some(*b),
        _ => None,
    }
}

/// Value of a run of decimal digits.
pub open spec fn digits_value(d: Seq<char>) -> int
    decreases d.len(),
{
    if d.len() == 0 {
        0
    } else {
        digits_value(d.drop_last()) * 10 + (d.last() as int - 48)
    }
}

pub open spec fn all_digits(d: Seq<char>) -> bool {
    forall|k: int| 0 <= k < d.len() ==> is_digit(#[trigger] d[k])
}

/// `str::parse::<i64>`: an optional sign, then at least one digit, and
/// the value in range.
pub open spec fn parse_i64_spec(s: Seq<char>) -> Option<i64> {
    let neg = s.len() > 0 && s[0] == '-';
    let d = if s.len() > 0 && (s[0] == '-' || s[0] == '+') {
        s.drop_first()
    } else {
        s
    };
    if d.len() == 0 || !all_digits(d) {
        None
    } else {
        let v = if neg {
            -digits_value(d)
        } else {
            digits_value(d)
        };
        if i64::MIN <= v <= i64::MAX {
            Some(v as i64)
        } else {
            None
        }
    }
}

pub proof fn lemma_digits_value_nonneg_mono(d: Seq<char>, k: int)
    requires
        all_digits(d),
        0 <= k <= d.len(),
    ensures
        0 <= digits_value(d.take(k)) <= digits_value(d),
    decreases d.len() - k,
{
    if k < d.len() {
        lemma_digits_value_nonneg_mono(d, k + 1);
        assert(d.take(k + 1).drop_last() =~= d.take(k));
        assert(is_digit(d[k]));
    } else {
        assert(d.take(k) =~= d);
        lemma_digits_value_nonneg(d);
    }
}

pub proof fn lemma_digits_value_nonneg(d: Seq<char>)
    requires
        all_digits(d),
    ensures
        0 <= digits_value(d),
    decreases d.len(),
{
    if d.len() > 0 {
        assert(all_digits(d.drop_last()));
        lemma_digits_value_nonneg(d.drop_last());
        assert(is_digit(d[d.len() - 1]));
    }
}

/// Parse a signed 64-bit decimal integer.
pub fn parse_i64(s: &str) -> (r: Option<i64>)
    ensures
        r == parse_i64_spec(s@),
{
    let v = chars_of(s);
    let neg = v.len() > 0 && v[0] == '-';
    let start: usize = if v.len() > 0 && (v[0] == '-' || v[0] == '+') {
        1
    } else {
        0
    };
    let ghost d = if v@.len() > 0 && (v@[0] == '-' || v@[0] == '+') {
        v@.drop_first()
    } else {
        v@
    };
    assert(d =~= v@.subrange(start as int, v@.len() as int));
    if start == v.len() {
        return None;
    }
    let limit: u128 = 9223372036854775808u128;
    let mut acc: u128 = 0;
    let mut k = start;
    while k < v.len()
        invariant
            start <= k <= v.len(),
            start < v.len(),
            v@ == s@,
            neg == (s@.len() > 0 && s@[0] == '-'),
            d == (if s@.len() > 0 && (s@[0] == '-' || s@[0] == '+') {
                s@.drop_first()
            } else {
                s@
            }),
            d == v@.subrange(start as int, v@.len() as int),
            all_digits(d.take(k - start)),
            limit == 9223372036854775808u128,
            acc <= limit,
            acc == digits_value(d.take(k - start)),
        decreases v.len() - k,
    {
        if !is_ascii_digit(v[k]) {
            assert(!is_digit(d[k - start]));
            return None;
        }
        proof {
            assert(d.take(k - start + 1).drop_last() =~= d.take(k - start));
            assert(all_digits(d.take(k - start + 1)));
        }
        let digit = (v[k] as u32 - 48) as u128;
        assert(digit <= 9);
        assert(acc * 10 <= limit * 10) by (nonlinear_arith)
            requires
                acc <= limit,
        ;
        let next = acc * 10 + digit;
        if next > limit {
            proof {
                let j = k - start + 1;
                assert(d.take(j).last() == v@[k as int]);
                assert(next as int == digits_value(d.take(j)));
                assert(digits_value(d.take(j)) > limit);
                if all_digits(d) {
                    lemma_digits_value_nonneg_mono(d, j);
                }
            }
            return None;
        }
        acc = next;
        k += 1;
    }
    proof {
        assert(d.take(d.len() as int) =~= d);
    }
    if neg {
        if acc == limit {
            Some(i64::MIN)
        } else {
            Some(-(acc as i64))
        }
    } else {
        if acc == limit {
            None
        } else {
            Some(acc as i64)
        }
    }
}

/// An integer cell: integers that fit, booleans as 1/0, strings that parse.
pub open spec fn value_i64_spec(v: YamlValue) -> Option<i64> {
    match v {
        YamlValue::Number(crate::yaml::YamlNumber::PosInt(u)) => if u <= i64::MAX {
            Some(u as i64)
        } else {
            None
        },
        YamlValue::Number(crate::yaml::YamlNumber::NegInt(i)) => Some(i),
        YamlValue::Bool(b) => Some(
            if b {
                1
            } else {
                0
            },
        ),
        YamlValue::String(s) => parse_i64_spec(s@),
        _ => None,
    }
}

pub fn value_as_i64(v: &YamlValue) -> (r: Option<i64>)
    ensures
        r == value_i64_spec(*v),
{
    match v {
        YamlValue::Number(crate::yaml::YamlNumber::PosInt(u)) => if *u <= i64::MAX as u64 {
            Some(*u as i64)
        } else {
            None
        },
        YamlValue::Number(crate::yaml::YamlNumber::NegInt(i)) => Some(*i),
        YamlValue::Bool(b) => Some(
            if *b {
                1
            } else {
                0
            },
        ),
        YamlValue::String(s) => parse_i64(s.as_str()),
        _ => None,
    }
}


// ---------- Wikilink wrappers and reserved columns ----------

/// `s` trimmed, without a leading `[[` and a trailing `]]` where present.
pub open spec fn strip_wikilink_spec(s: Seq<char>) -> Seq<char> {
    let t = trim_ws(s);
    let a = if t.len() >= 2 && t[0] == '[' && t[1] == '[' {
        t.skip(2)
    } else {
        t
    };
    if a.len() >= 2 && a[a.len() - 2] == ']' && a[a.len() - 1] == ']' {
        a.take(a.len() - 2)
    } else {
        a
    }
}

/// Remove the `[[...]]` wrapper around a (trimmed) value.
pub fn strip_wikilink(s: &str) -> (r: String)
    ensures
        r@ == strip_wikilink_spec(s@),
{
    let v = chars_of(s);
    let (a0, b) = trim_range(&v, 0, v.len());
    proof {
        assert(v@.subrange(0, v@.len() as int) =~= v@);
    }
    let ghost t = trim_ws(v@);
    let a = if b - a0 >= 2 && v[a0] == '[' && v[a0 + 1] == '[' {
        assert(t.skip(2) =~= v@.subrange(a0 + 2, b as int));
        a0 + 2
    } else {
        a0
    };
    let e = if b - a >= 2 && v[b - 2] == ']' && v[b - 1] == ']' {
        b - 2
    } else {
        b
    };
    let r = string_from_chars(&v, a, e);
    proof {
        let aa = if t.len() >= 2 && t[0] == '[' && t[1] == '[' {
            t.skip(2)
        } else {
            t
        };
        assert(aa =~= v@.subrange(a as int, b as int));
        if aa.len() >= 2 && aa[aa.len() - 2] == ']' && aa[aa.len() - 1] == ']' {
            assert(aa.take(aa.len() - 2) =~= v@.subrange(a as int, e as int));
        }
    }
    r
}

/// Names of the file-metadata columns; a frontmatter key with one of these
/// names gets a `note_` prefix.
pub open spec fn is_reserved_column(k: Seq<char>) -> bool {
    k == "file_path"@ || k == "file_name"@ || k == "file_folder"@ || k == "file_ext"@ || k
        == "file_size"@ || k == "file_ctime"@ || k == "file_mtime"@ || k == "file_tags"@ || k
        == "file_links"@ || k == "file_backlinks"@ || k == "file_path_natkey"@ || k
        == "file_name_natkey"@
}

/// The metadata column names, in column order.
pub open spec fn meta_column_names() -> Seq<Seq<char>> {
    seq![
        "file_path"@,
        "file_name"@,
        "file_folder"@,
        "file_ext"@,
        "file_size"@,
        "file_ctime"@,
        "file_mtime"@,
        "file_tags"@,
        "file_links"@,
        "file_backlinks"@,
        "file_path_natkey"@,
        "file_name_natkey"@,
    ]
}

/// The metadata column names, in column order.
pub fn file_meta_columns() -> (r: Vec<&'static str>)
    ensures
        r@.len() == meta_column_names().len(),
        forall|i: int| 0 <= i < r@.len() ==> #[trigger] r@[i]@ == meta_column_names()[i],
        forall|i: int| 0 <= i < r@.len() ==> is_reserved_column(#[trigger] r@[i]@),
{
    let r = vec![
        "file_path",
        "file_name",
        "file_folder",
        "file_ext",
        "file_size",
        "file_ctime",
        "file_mtime",
        "file_tags",
        "file_links",
        "file_backlinks",
        "file_path_natkey",
        "file_name_natkey",
    ];
    r
}

pub fn is_reserved(k: &str) -> (r: bool)
    ensures
        r == is_reserved_column(k@),
{
    str_eq(k, "file_path") || str_eq(k, "file_name") || str_eq(k, "file_folder") || str_eq(
        k,
        "file_ext",
    ) || str_eq(k, "file_size") || str_eq(k, "file_ctime") || str_eq(k, "file_mtime") || str_eq(
        k,
        "file_tags",
    ) || str_eq(k, "file_links") || str_eq(k, "file_backlinks") || str_eq(k, "file_path_natkey")
        || str_eq(k, "file_name_natkey")
}

/// Column name of a frontmatter key.
pub open spec fn column_name(k: Seq<char>) -> Seq<char> {
    if is_reserved_column(k) {
        "note_"@ + k
    } else {
        k
    }
}

pub open spec fn columns_distinct(keys: Seq<String>) -> bool {
    forall|i: int, j: int|
        0 <= i < j < keys.len() ==> column_name(#[trigger] keys[i]@) != column_name(
            #[trigger] keys[j]@,
        )
}

/// Column names for the frontmatter keys, in key order; a query error when
/// two keys would share a column.
pub fn plan_frontmatter_columns(keys: &Vec<String>) -> (r: Result<Vec<String>, crate::error::CrabaseError>)
    ensures
        columns_distinct(keys@) ==> (r is Ok && r->Ok_0@.len() == keys@.len() && forall|i: int|
            0 <= i < keys@.len() ==> (#[trigger] r->Ok_0@[i])@ == column_name(keys@[i]@)),
        !columns_distinct(keys@) ==> (r is Err && r->Err_0 is Query),
{
    let mut cols: Vec<String> = Vec::new();
    let mut i: usize = 0;
    while i < keys.len()
        invariant
            0 <= i <= keys.len(),
            cols@.len() == i,
            forall|m: int| 0 <= m < i ==> (#[trigger] cols@[m])@ == column_name(keys@[m]@),
            forall|m: int, n: int|
                0 <= m < n < i ==> column_name(#[trigger] keys@[m]@) != column_name(
                    #[trigger] keys@[n]@,
                ),
        decreases keys.len() - i,
    {
        let k = &keys[i];
        let col = if is_reserved(k.as_str()) {
            let mut c = String::from_str("note_");
            c.append(k.as_str());
            c
        } else {
            k.clone()
        };
        let mut j: usize = 0;
        while j < i
            invariant
                0 <= j <= i < keys.len(),
                cols@.len() == i,
                col@ == column_name(keys@[i as int]@),
                forall|m: int| 0 <= m < i ==> (#[trigger] cols@[m])@ == column_name(keys@[m]@),
                forall|m: int| 0 <= m < j ==> column_name(#[trigger] keys@[m]@) != col@,
            decreases i - j,
        {
            if cols[j] == col {
                proof {
                    assert(column_name(keys@[j as int]@) == column_name(keys@[i as int]@));
                }
                return Err(crate::error::CrabaseError::Query(String::from_str(
                    "Frontmatter key collision producing the same column from multiple sources",
                )));
            }
            j += 1;
        }
        cols.push(col);
        i += 1;
    }
    Ok(cols)
}

// ---------- Canvas file references ----------

/// First index at or after `i` where `pat` occurs in `s`.
pub open spec fn find_sub(s: Seq<char>, pat: Seq<char>, i: int) -> Option<int>
    decreases s.len() + 1 - i,
{
    if i < 0 || i + pat.len() > s.len() {
        None
    } else if s.subrange(i, i + pat.len()) == pat {
        Some(i)
    } else {
        find_sub(s, pat, i + 1)
    }
}

/// The target of a `"file": "..."` entry on a canvas line, if non-empty.
pub open spec fn canvas_ref(line: Seq<char>) -> Option<Seq<char>> {
    match find_sub(line, "\"file\":"@, 0) {
        Some(idx) => match find_sub(line, "\""@, idx + 7) {
            Some(st) => match find_sub(line, "\""@, st + 1) {
                Some(e) => if e > st + 1 {
                    Some(line.subrange(st + 1, e))
                } else {
                    None
                },
                None => None,
            },
            None => None,
        },
        None => None,
    }
}

pub open spec fn canvas_refs_of(ls: Seq<Seq<char>>) -> Seq<Seq<char>>
    decreases ls.len(),
{
    if ls.len() == 0 {
        Seq::empty()
    } else {
        canvas_refs_of(ls.drop_last()) + match canvas_ref(ls.last()) {
            Some(t) => seq![t],
            None => Seq::empty(),
        }
    }
}

pub proof fn lemma_find_sub_bounds(s: Seq<char>, pat: Seq<char>, i: int)
    requires
        0 <= i,
        find_sub(s, pat, i) is Some,
    ensures
        i <= find_sub(s, pat, i)->0,
        find_sub(s, pat, i)->0 + pat.len() <= s.len(),
    decreases s.len() + 1 - i,
{
    if i + pat.len() <= s.len() && s.subrange(i, i + pat.len()) != pat {
        lemma_find_sub_bounds(s, pat, i + 1);
    }
}

fn find_sub_exec(s: &Vec<char>, pat: &Vec<char>, i0: usize) -> (r: Option<usize>)
    ensures
        match find_sub(s@, pat@, i0 as int) {
            Some(k) => r is Some && r->0 == k,
            None => r is None,
        },
{
    let mut i = i0;
    while i <= s.len() && pat.len() <= s.len() - i
        invariant
            i0 <= i,
            find_sub(s@, pat@, i0 as int) == find_sub(s@, pat@, i as int),
        decreases s.len() + 1 - i,
    {
        let mut m: usize = 0;
        while m < pat.len() && s[i + m] == pat[m]
            invariant
                0 <= m <= pat.len(),
                i + pat.len() <= s.len(),
                forall|q: int| 0 <= q < m ==> s@[i + q] == pat@[q],
            decreases pat.len() - m,
        {
            m += 1;
        }
        if m == pat.len() {
            assert(s@.subrange(i as int, i + pat.len()) =~= pat@);
            return Some(i);
        }
        assert(s@.subrange(i as int, i + pat.len())[m as int] != pat@[m as int]);
        i += 1;
    }
    None
}

fn canvas_ref_exec(line: &Vec<char>) -> (r: Option<String>)
    ensures
        match canvas_ref(line@) {
            Some(t) => r is Some && r->0@ == t,
            None => r is None,
        },
{
    let key: Vec<char> = vec!['"', 'f', 'i', 'l', 'e', '"', ':'];
    let quote: Vec<char> = vec!['"'];
    proof {
        reveal_strlit("\"file\":");
        reveal_strlit("\"");
        assert(key@ =~= "\"file\":"@);
        assert(quote@ =~= "\""@);
    }
    match find_sub_exec(line, &key, 0) {
        Some(idx) => {
            proof {
                lemma_find_sub_bounds(line@, key@, 0);
                assert(key@.len() == 7);
                assert(idx + key@.len() <= line@.len());
                assert(line@.len() == line.len());
                assert(idx + 7 <= line.len());
            }
            match find_sub_exec(line, &quote, idx + 7) {
                Some(st) => {
                    proof {
                        lemma_find_sub_bounds(line@, quote@, idx + 7);
                    }
                    match find_sub_exec(line, &quote, st + 1) {
                        Some(e) => {
                            proof {
                                lemma_find_sub_bounds(line@, quote@, st + 1);
                            }
                            if e > st + 1 {
                                Some(string_from_chars(line, st + 1, e))
                            } else {
                                None
                            }
                        },
                        None => None,
                    }
                },
                None => None,
            }
        },
        None => None,
    }
}

/// Targets of the `"file": "..."` entries of a canvas, one per line.
pub fn extract_canvas_file_refs(content: &str) -> (r: Vec<String>)
    ensures
        strs(r@) == canvas_refs_of(lines_from(content@, 0)),
{
    let s = chars_of(content);
    let ghost all_lines = lines_from(s@, 0);
    let mut out: Vec<String> = Vec::new();
    let mut i: usize = 0;
    let ghost mut done: Seq<Seq<char>> = Seq::empty();
    while i < s.len()
        invariant
            0 <= i <= s.len(),
            all_lines == lines_from(s@, 0),
            done + lines_from(s@, i as int) == all_lines,
            strs(out@) == canvas_refs_of(done),
        decreases s.len() - i,
    {
        let le = line_end_at(&s, i);
        proof {
            lemma_line_end_bounds(s@, i as int);
        }
        let hi = if le > i && s[le - 1] == '\r' {
            le - 1
        } else {
            le
        };
        let line = sub_chars(&s, i, hi);
        proof {
            assert(line@ =~= (if s@.subrange(i as int, le as int).len() > 0 && s@.subrange(
                i as int,
                le as int,
            ).last() == '\r' {
                s@.subrange(i as int, le as int).drop_last()
            } else {
                s@.subrange(i as int, le as int)
            }));
        }
        let ghost before = strs(out@);
        match canvas_ref_exec(&line) {
            Some(t) => {
                out.push(t);
                assert(strs(out@) =~= before + seq![t@]);
            },
            None => {
                assert(strs(out@) =~= before + Seq::<Seq<char>>::empty());
            },
        }
        proof {
            let ndone = done.push(line@);
            assert(ndone.drop_last() =~= done);
            if le < s.len() {
                assert(ndone + lines_from(s@, le + 1) =~= all_lines);
            } else {
                assert(ndone =~= all_lines);
            }
            done = ndone;
        }
        i = if le < s.len() {
            le + 1
        } else {
            le
        };
    }
    proof {
        assert(done =~= all_lines);
    }
    out
}


// ---------- Frontmatter block ----------

/// How a note's text divides into a frontmatter block and a body.
#[derive(Debug)]
pub enum FrontmatterSplit {
    /// No frontmatter block: the whole text is the body.
    Absent,
    /// The YAML text of the block and the body after its closing line.
    Found { yaml: String, body: String },
    /// The closing line was found, but the byte offset computed for it does
    /// not fall between characters; slicing the text there panics.
    Misaligned,
}

pub enum FrontmatterSplitV {
    Absent,
    Found { yaml: Seq<char>, body: Seq<char> },
    Misaligned,
}

impl vstd::prelude::View for FrontmatterSplit {
    type V = FrontmatterSplitV;

    open spec fn view(&self) -> FrontmatterSplitV {
        match self {
            FrontmatterSplit::Absent => FrontmatterSplitV::Absent,
            FrontmatterSplit::Found { yaml, body } => FrontmatterSplitV::Found {
                yaml: yaml@,
                body: body@,
            },
            FrontmatterSplit::Misaligned => FrontmatterSplitV::Misaligned,
        }
    }
}

/// A closing line of the block.
pub open spec fn is_close_line(l: Seq<char>) -> bool {
    l == seq!['-', '-', '-'] || l == seq!['-', '-', '-', '\r']
}

/// Index of the first closing line (`---`) at or after line `k`, or -1.
pub open spec fn close_line_idx(ls: Seq<Seq<char>>, k: int) -> int
    decreases ls.len() - k,
{
    if k < 0 || k >= ls.len() {
        -1
    } else if is_close_line(ls[k]) {
        k
    } else {
        close_line_idx(ls, k + 1)
    }
}

/// Byte offset of line `k`, counting each earlier line's bytes plus one for
/// its line break.
pub open spec fn bytes_before(ls: Seq<Seq<char>>, k: int) -> nat
    decreases k,
{
    if k <= 0 || k > ls.len() {
        0
    } else {
        bytes_before(ls, k - 1) + utf8_len(ls[k - 1]) + 1
    }
}

/// The character index at which `a` reaches byte offset `b`, searching
/// from `c`.
pub open spec fn char_at_byte(a: Seq<char>, b: int, c: int) -> Option<int>
    decreases a.len() - c,
{
    if c < 0 || c > a.len() {
        None
    } else if utf8_len(a.take(c)) == b {
        Some(c)
    } else if utf8_len(a.take(c)) > b || c == a.len() {
        None
    } else {
        char_at_byte(a, b, c + 1)
    }
}

pub open spec fn opens_crlf(content: Seq<char>) -> bool {
    content.len() >= 5 && content[0] == '-' && content[1] == '-' && content[2] == '-' && content[3]
        == '\r' && content[4] == '\n'
}

pub open spec fn opens_lf(content: Seq<char>) -> bool {
    content.len() >= 4 && content[0] == '-' && content[1] == '-' && content[2] == '-' && content[3]
        == '\n'
}

/// Split of a note: a text opening with a `---` line has a block up to the
/// next `---` line. The offset of that line is counted from the lines with
/// their trailing `\r` removed, so after `\r\n` line breaks it falls short.
pub open spec fn split_spec(content: Seq<char>) -> FrontmatterSplitV {
    if !opens_lf(content) && !opens_crlf(content) {
        FrontmatterSplitV::Absent
    } else {
        let a = if opens_crlf(content) {
            content.skip(5)
        } else {
            content.skip(4)
        };
        let ls = lines_from(a, 0);
        let k = close_line_idx(ls, 0);
        if k < 0 {
            FrontmatterSplitV::Absent
        } else {
            let cp = bytes_before(ls, k);
            match char_at_byte(a, cp as int, 0) {
                None => FrontmatterSplitV::Misaligned,
                Some(c) => {
                    let rs = cp + 4;
                    if rs <= utf8_len(a) {
                        match char_at_byte(a, rs as int, 0) {
                            None => FrontmatterSplitV::Misaligned,
                            Some(c2) => FrontmatterSplitV::Found { yaml: a.take(c), body: a.skip(c2) },
                        }
                    } else {
                        FrontmatterSplitV::Found { yaml: a.take(c), body: Seq::empty() }
                    }
                },
            }
        }
    }
}

fn utf8_len_exec(v: &Vec<char>, lo: usize, hi: usize) -> (r: usize)
    requires
        lo <= hi <= v.len(),
        utf8_len(v@.subrange(lo as int, hi as int)) <= usize::MAX,
    ensures
        r == utf8_len(v@.subrange(lo as int, hi as int)),
{
    let mut n: usize = 0;
    let mut k = lo;
    while k < hi
        invariant
            lo <= k <= hi <= v.len(),
            utf8_len(v@.subrange(lo as int, hi as int)) <= usize::MAX,
            n == utf8_len(v@.subrange(lo as int, k as int)),
        decreases hi - k,
    {
        proof {
            assert(v@.subrange(lo as int, k + 1).drop_last() =~= v@.subrange(lo as int, k as int));
            crate::text::lemma_utf8_len_concat(
                v@.subrange(lo as int, k + 1),
                v@.subrange(k + 1, hi as int),
            );
            assert(v@.subrange(lo as int, k + 1) + v@.subrange(k + 1, hi as int) =~= v@.subrange(
                lo as int,
                hi as int,
            ));
        }
        n = n + char_len_utf8(v[k]);
        k += 1;
    }
    n
}

fn char_at_byte_exec(a: &Vec<char>, b: usize) -> (r: Option<usize>)
    ensures
        match char_at_byte(a@, b as int, 0) {
            Some(c) => r is Some && r->0 == c,
            None => r is None,
        },
{
    let mut c: usize = 0;
    let mut acc: usize = 0;
    assert(a@.take(0) =~= Seq::<char>::empty());
    while c < a.len() && acc < b
        invariant
            0 <= c <= a.len(),
            acc == utf8_len(a@.take(c as int)),
            acc <= b,
            char_at_byte(a@, b as int, 0) == char_at_byte(a@, b as int, c as int),
        decreases a.len() - c,
    {
        assert(a@.take(c + 1).drop_last() =~= a@.take(c as int));
        let w = char_len_utf8(a[c]);
        if w > b - acc {
            assert(utf8_len(a@.take(c + 1)) > b);
            assert(char_at_byte(a@, b as int, c + 1) is None);
            return None;
        }
        acc = acc + w;
        c += 1;
    }
    if acc == b {
        Some(c)
    } else {
        None
    }
}

pub proof fn lemma_char_at_byte_bounds(a: Seq<char>, b: int, c: int)
    requires
        0 <= c,
        char_at_byte(a, b, c) is Some,
    ensures
        c <= char_at_byte(a, b, c)->0 <= a.len(),
    decreases a.len() - c,
{
    if c <= a.len() && utf8_len(a.take(c)) != b && !(utf8_len(a.take(c)) > b || c == a.len()) {
        lemma_char_at_byte_bounds(a, b, c + 1);
    }
}

/// Bytes of a line (without its `\r`) fit between its start and its end.
proof fn lemma_line_bytes(a: Seq<char>, i: int, hi: int, le: int)
    requires
        0 <= i <= hi <= le <= a.len(),
        hi == le || (hi == le - 1 && a[le - 1] == '\r'),
        le < a.len() ==> a[le] == '\n',
    ensures
        utf8_len(a.take(i)) + utf8_len(a.subrange(i, hi)) <= utf8_len(a.take(le)),
        le < a.len() ==> utf8_len(a.take(le + 1)) == utf8_len(a.take(le)) + 1,
        utf8_len(a.take(le)) <= utf8_len(a),
{
    crate::text::lemma_utf8_len_concat(a.take(i), a.subrange(i, le));
    assert(a.take(i) + a.subrange(i, le) =~= a.take(le));
    crate::text::lemma_utf8_len_concat(a.subrange(i, hi), a.subrange(hi, le));
    assert(a.subrange(i, hi) + a.subrange(hi, le) =~= a.subrange(i, le));
    if le < a.len() {
        assert(a.take(le + 1).drop_last() =~= a.take(le));
    }
    crate::text::lemma_utf8_len_mono(a, le, a.len() as int);
    crate::text::lemma_utf8_len_full(a);
}

/// Divide a note's text into its frontmatter YAML and its body.
pub fn split_frontmatter(content: &str) -> (r: FrontmatterSplit)
    ensures
        r@ == split_spec(content@),
{
    let _ = crate::text::byte_len(content);
    let v = chars_of(content);
    let crlf = v.len() >= 5 && v[0] == '-' && v[1] == '-' && v[2] == '-' && v[3] == '\r' && v[4]
        == '\n';
    let lf = v.len() >= 4 && v[0] == '-' && v[1] == '-' && v[2] == '-' && v[3] == '\n';
    if !lf && !crlf {
        return FrontmatterSplit::Absent;
    }
    let start: usize = if crlf {
        5
    } else {
        4
    };
    let a = sub_chars(&v, start, v.len());
    proof {
        assert(a@ =~= v@.skip(start as int));
        crate::text::lemma_utf8_len_concat(v@.take(start as int), a@);
        assert(v@.take(start as int) + a@ =~= v@);
    }
    let ghost ls = lines_from(a@, 0);
    let ghost mut done: Seq<Seq<char>> = Seq::empty();
    let mut i: usize = 0;
    let mut pos: usize = 0;
    let mut found: Option<usize> = None;
    assert(a@.take(0) =~= Seq::<char>::empty());
    while i < a.len()
        invariant_except_break
            0 <= i <= a.len(),
            found is None,
            utf8_len(a@) < usize::MAX,
            ls == lines_from(a@, 0),
            done + lines_from(a@, i as int) == ls,
            close_line_idx(ls, 0) == close_line_idx(ls, done.len() as int),
            i < a.len() ==> pos == bytes_before(ls, done.len() as int),
            pos <= utf8_len(a@.take(i as int)),
        ensures
            ls == lines_from(a@, 0),
            match found {
                Some(cp) => close_line_idx(ls, 0) >= 0 && cp == bytes_before(ls, close_line_idx(ls, 0)),
                None => close_line_idx(ls, 0) < 0,
            },
        decreases a.len() - i,
    {
        let le = line_end_at(&a, i);
        proof {
            lemma_line_end_bounds(a@, i as int);
        }
        let hi = if le > i && a[le - 1] == '\r' {
            le - 1
        } else {
            le
        };
        let ghost line = a@.subrange(i as int, hi as int);
        proof {
            assert(line =~= (if a@.subrange(i as int, le as int).len() > 0 && a@.subrange(
                i as int,
                le as int,
            ).last() == '\r' {
                a@.subrange(i as int, le as int).drop_last()
            } else {
                a@.subrange(i as int, le as int)
            }));
            assert(ls[done.len() as int] == line) by {
                assert((done + lines_from(a@, i as int))[done.len() as int] == line);
            }
        }
        let is_close = (hi - i == 3 && a[i] == '-' && a[i + 1] == '-' && a[i + 2] == '-') || (hi
            - i == 4 && a[i] == '-' && a[i + 1] == '-' && a[i + 2] == '-' && a[i + 3] == '\r');
        proof {
            if is_close {
                if hi - i == 3 {
                    assert(line =~= seq!['-', '-', '-']);
                } else {
                    assert(line =~= seq!['-', '-', '-', '\r']);
                }
            }
            if is_close_line(line) {
                assert(line.len() == 3 || line.len() == 4);
                assert(line[0] == '-' && line[1] == '-' && line[2] == '-');
                if line.len() == 4 {
                    assert(line[3] == '\r');
                }
            }
        }
        if is_close {
            found = Some(pos);
            break;
        }
        proof {
            lemma_line_bytes(a@, i as int, hi as int, le as int);
        }
        if le < a.len() {
            let w = utf8_len_exec(&a, i, hi);
            pos = pos + w + 1;
        }
        proof {
            let ndone = done.push(line);
            assert(ndone.drop_last() =~= done);
            if le < a.len() {
                assert(ndone + lines_from(a@, le + 1) =~= ls);
            } else {
                assert(ndone =~= ls);
                crate::text::lemma_utf8_len_full(a@);
            }
            done = ndone;
        }
        i = if le < a.len() {
            le + 1
        } else {
            le
        };
    }
    let cp = match found {
        Some(cp) => cp,
        None => {
            return FrontmatterSplit::Absent;
        },
    };
    match char_at_byte_exec(&a, cp) {
        None => FrontmatterSplit::Misaligned,
        Some(c) => {
            proof {
                assert(a@.subrange(0, a@.len() as int) =~= a@);
                lemma_char_at_byte_bounds(a@, cp as int, 0);
            }
            let total = utf8_len_exec(&a, 0, a.len());
            if cp <= total && total - cp >= 4 {
                match char_at_byte_exec(&a, cp + 4) {
                    None => FrontmatterSplit::Misaligned,
                    Some(c2) => {
                        proof {
                            lemma_char_at_byte_bounds(a@, cp + 4, 0);
                        }
                        assert(a@.subrange(0, c as int) =~= a@.take(c as int));
                        assert(a@.subrange(c2 as int, a@.len() as int) =~= a@.skip(c2 as int));
                        FrontmatterSplit::Found {
                            yaml: string_from_chars(&a, 0, c),
                            body: string_from_chars(&a, c2, a.len()),
                        }
                    },
                }
            } else {
                assert(a@.subrange(0, c as int) =~= a@.take(c as int));
                FrontmatterSplit::Found { yaml: string_from_chars(&a, 0, c), body: String::new() }
            }
        },
    }
}

proof fn lemma_tag_run_end(s: Seq<char>, j: int, e: int)
    requires
        0 <= j <= e <= s.len(),
        forall|k: int| j <= k < e ==> (char_is_alphanumeric(#[trigger] s[k]) || s[k] == '/' || s[k] == '_'
            || s[k] == '-'),
        e == s.len() || !(char_is_alphanumeric(s[e]) || s[e] == '/' || s[e] == '_' || s[e] == '-'),
    ensures
        tag_end(s, j) == e,
    decreases e - j,
{
    if j < e {
        lemma_tag_run_end(s, j + 1, e);
    }
}

/// An inline tag is the whole run after its `#` of characters that are
/// alphanumeric, `/`, `_` or `-`: where a `#` opens the line or follows
/// whitespace and such a run starting with a letter follows it, the tags
/// from that `#` on begin with that run, and the scan resumes after the
/// character that ends it.
pub proof fn law_inline_tag_is_the_whole_run(s: Seq<char>, i: int, e: int)
    requires
        0 <= i,
        i + 1 < e <= s.len(),
        s[i] == '#',
        i == 0 || char_is_whitespace(s[i - 1]),
        char_is_alphabetic(s[i + 1]),
        forall|k: int| i + 1 <= k < e ==> (char_is_alphanumeric(#[trigger] s[k]) || s[k] == '/' || s[k]
            == '_' || s[k] == '-'),
        e == s.len() || !(char_is_alphanumeric(s[e]) || s[e] == '/' || s[e] == '_' || s[e] == '-'),
    ensures
        line_tags_from(s, i) == seq![s.subrange(i + 1, e)] + line_tags_from(
            s,
            if e < s.len() {
                e + 1
            } else {
                e
            },
        ),
{
    lemma_tag_run_end(s, i + 1, e);
    assert(s.subrange(i + 1, e)[0] == s[i + 1]);
}

/// A `#` starts no tag inside a word or before a character that is not a
/// letter (`a#b`, `#1`): the run after it is skipped with the character
/// that ends it, and no tag comes from it.
pub proof fn law_no_tag_inside_words_or_before_non_letters(s: Seq<char>, i: int, e: int)
    requires
        0 <= i,
        i < e <= s.len(),
        s[i] == '#',
        (i > 0 && !char_is_whitespace(s[i - 1])) || (i + 1 < s.len() && !char_is_alphabetic(s[i + 1])),
        forall|k: int| i + 1 <= k < e ==> (char_is_alphanumeric(#[trigger] s[k]) || s[k] == '/' || s[k]
            == '_' || s[k] == '-'),
        e == s.len() || !(char_is_alphanumeric(s[e]) || s[e] == '/' || s[e] == '_' || s[e] == '-'),
    ensures
        line_tags_from(s, i) == line_tags_from(
            s,
            if e < s.len() {
                e + 1
            } else {
                e
            },
        ),
{
    lemma_tag_run_end(s, i + 1, e);
    if e > i + 1 {
        assert(s.subrange(i + 1, e)[0] == s[i + 1]);
    }
}

} // verus!
