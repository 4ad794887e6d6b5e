use vstd::prelude::*;

verus! {

/// Number of bytes in the UTF-8 encoding of `c`.
pub open spec fn utf8_width(c: char) -> nat {
    let u = c as u32;
    if u < 0x80 {
        1
    } else if u < 0x800 {
        2
    } else if u < 0x10000 {
        3
    } else {
        4
    }
}

/// Number of bytes in the UTF-8 encoding of a character sequence.
pub open spec fn utf8_len(s: Seq<char>) -> nat
    decreases s.len(),
{
    if s.len() == 0 {
        0
    } else {
        utf8_len(s.drop_last()) + utf8_width(s.last())
    }
}

pub proof fn lemma_utf8_len_step(s: Seq<char>, i: int)
    requires
        0 <= i < s.len(),
    ensures
        utf8_len(s.take(i + 1)) == utf8_len(s.take(i)) + utf8_width(s[i]),
{
    assert(s.take(i + 1).drop_last() =~= s.take(i));
}

pub proof fn lemma_utf8_len_mono(s: Seq<char>, i: int, j: int)
    requires
        0 <= i <= j <= s.len(),
    ensures
        utf8_len(s.take(i)) <= utf8_len(s.take(j)),
    decreases j - i,
{
    if i < j {
        lemma_utf8_len_step(s, j - 1);
        lemma_utf8_len_mono(s, i, j - 1);
    }
}

pub proof fn lemma_utf8_len_full(s: Seq<char>)
    ensures
        utf8_len(s.take(s.len() as int)) == utf8_len(s),
{
    assert(s.take(s.len() as int) =~= s);
}

pub proof fn lemma_utf8_len_concat(x: Seq<char>, y: Seq<char>)
    ensures
        utf8_len(x + y) == utf8_len(x) + utf8_len(y),
    decreases y.len(),
{
    if y.len() > 0 {
        lemma_utf8_len_concat(x, y.drop_last());
        assert((x + y).drop_last() =~= x + y.drop_last());
    } else {
        assert(x + y =~= x);
    }
}

/// Calls `str::len`: the number of bytes of the UTF-8 encoding of `s`,
/// which, as for any allocation, is at most `isize::MAX`.
#[verifier::external_body]
pub(crate) fn byte_len(s: &str) -> (n: usize)
    ensures
        n == utf8_len(s@),
        n <= isize::MAX,
{
    s.len()
}

/// `char::len_utf8`: the number of bytes `c` needs in UTF-8.
pub fn char_len_utf8(c: char) -> (n: usize)
    ensures
        n == utf8_width(c),
{
    let u = c as u32;
    if u < 0x80 {
        1
    } else if u < 0x800 {
        2
    } else if u < 0x10000 {
        3
    } else {
        4
    }
}

/// ASCII decimal digit.
pub open spec fn is_digit(c: char) -> bool {
    '0' <= c && c <= '9'
}

pub fn is_ascii_digit(c: char) -> (b: bool)
    ensures
        b == is_digit(c),
{
    c >= '0' && c <= '9'
}

/// Unicode `White_Space` property, which `char::is_whitespace` reports: the
/// ASCII tab, line feed, vertical tab, form feed, carriage return and space,
/// and U+0085, U+00A0, U+1680, U+2000 to U+200A, U+2028, U+2029, U+202F,
/// U+205F, U+3000.
pub open spec fn char_is_whitespace(c: char) -> bool {
    let v = c as u32;
    ||| 0x09 <= v <= 0x0d
    ||| v == 0x20
    ||| v == 0x85
    ||| v == 0xa0
    ||| v == 0x1680
    ||| 0x2000 <= v <= 0x200a
    ||| v == 0x2028
    ||| v == 0x2029
    ||| v == 0x202f
    ||| v == 0x205f
    ||| v == 0x3000
}

/// ASCII letter.
pub open spec fn is_ascii_letter(c: char) -> bool {
    ('a' <= c && c <= 'z') || ('A' <= c && c <= 'Z')
}

/// Unicode `Alphabetic` property, as `char::is_alphabetic` reports it.
pub uninterp spec fn char_is_alphabetic(c: char) -> bool;

/// `Alphabetic` or `Numeric`, as `char::is_alphanumeric` reports it.
pub uninterp spec fn char_is_alphanumeric(c: char) -> bool;

/// Whether `c` is white space (Unicode `White_Space`), as
/// `char::is_whitespace` decides it.
pub fn is_whitespace(c: char) -> (b: bool)
    ensures
        b == char_is_whitespace(c),
{
    let v = c as u32;
    (0x09 <= v && v <= 0x0d) || v == 0x20 || v == 0x85 || v == 0xa0 || v == 0x1680 || (0x2000 <= v
        && v <= 0x200a) || v == 0x2028 || v == 0x2029 || v == 0x202f || v == 0x205f || v == 0x3000
}

/// Calls `char::is_alphabetic`; the contract names its Unicode-table result,
/// which among ASCII characters holds of the letters alone.
#[verifier::external_body]
pub(crate) fn is_alphabetic(c: char) -> (b: bool)
    ensures
        b == char_is_alphabetic(c),
        (c as u32) < 0x80 ==> (b == is_ascii_letter(c)),
{
    c.is_alphabetic()
}

/// Calls `char::is_alphanumeric`; the contract names its Unicode-table
/// result, which among ASCII characters holds of the letters and digits
/// alone.
#[verifier::external_body]
pub(crate) fn is_alphanumeric(c: char) -> (b: bool)
    ensures
        b == char_is_alphanumeric(c),
        (c as u32) < 0x80 ==> (b == (is_ascii_letter(c) || is_digit(c))),
{
    c.is_alphanumeric()
}

/// Lowercase form of a character, as `char::to_lowercase` yields it (one to
/// three characters, by the Unicode case tables).
pub uninterp spec fn char_to_lowercase(c: char) -> Seq<char>;

/// The ASCII lowercase of `c`: `A`–`Z` shifted to `a`–`z`, any other
/// character kept.
pub open spec fn ascii_lower(c: char) -> char {
    if 'A' <= c && c <= 'Z' {
        ((c as u32) + 32) as char
    } else {
        c
    }
}

/// The ASCII uppercase of `c`: `a`–`z` shifted to `A`–`Z`, any other
/// character kept.
pub open spec fn ascii_upper(c: char) -> char {
    if 'a' <= c && c <= 'z' {
        ((c as u32) - 32) as char
    } else {
        c
    }
}

/// Calls `char::to_lowercase` and collects the characters it yields; an
/// ASCII character gives its ASCII lowercase.
#[verifier::external_body]
pub(crate) fn to_lowercase_chars(c: char) -> (r: Vec<char>)
    ensures
        r@ == char_to_lowercase(c),
        (c as u32) < 0x80 ==> r@ == seq![ascii_lower(c)],
{
    c.to_lowercase().collect()
}

/// Uppercase form of a character, as `char::to_uppercase` yields it (one to
/// three characters, by the Unicode case tables).
pub uninterp spec fn char_to_uppercase(c: char) -> Seq<char>;

/// Calls `char::to_uppercase` and collects the characters it yields; an
/// ASCII character gives its ASCII uppercase.
#[verifier::external_body]
pub(crate) fn to_uppercase_chars(c: char) -> (r: Vec<char>)
    ensures
        r@ == char_to_uppercase(c),
        (c as u32) < 0x80 ==> r@ == seq![ascii_upper(c)],
{
    c.to_uppercase().collect()
}

/// Calls `String::push`: the string afterwards is the old one with `c` appended.
#[verifier::external_body]
pub(crate) fn push_char(s: &mut String, c: char)
    ensures
        final(s)@ == old(s)@.push(c),
{
    s.push(c)
}

/// The text that `format!("{:?}", s)` gives for a string: its `Debug` form.
pub uninterp spec fn str_debug(s: Seq<char>) -> Seq<char>;

/// Whether every character is printable ASCII other than `"` and `\`: the
/// characters that the `Debug` form of a string writes as they are.
pub open spec fn debug_plain(s: Seq<char>) -> bool {
    forall|i: int| 0 <= i < s.len() ==> 0x20 <= #[trigger] (s[i] as u32) <= 0x7e && s[i] != '"' && s[i] != '\\'
}

/// Calls `<str as Debug>::fmt` through `format!`: the string in double
/// quotes, with quotes, backslashes and other characters that need it
/// escaped; a string of plain printable ASCII is just quoted.
#[verifier::external_body]
pub(crate) fn debug_text(s: &str) -> (r: String)
    ensures
        r@ == str_debug(s@),
        debug_plain(s@) ==> r@ == seq!['"'] + s@ + seq!['"'],
{
    format!("{:?}", s)
}

/// Whether two strings hold the same characters.
pub fn str_eq(a: &str, b: &str) -> (r: bool)
    ensures
        r == (a@ == b@),
{
    a.to_owned() == b.to_owned()
}


/// The characters `v[lo..hi]`.
pub fn sub_chars(v: &Vec<char>, lo: usize, hi: usize) -> (r: Vec<char>)
    requires
        lo <= hi <= v.len(),
    ensures
        r@ == v@.subrange(lo as int, hi as int),
{
    let mut r: Vec<char> = Vec::new();
    let mut k = lo;
    while k < hi
        invariant
            lo <= k <= hi <= v.len(),
            r@ == v@.subrange(lo as int, k as int),
        decreases hi - k,
    {
        r.push(v[k]);
        k += 1;
        assert(r@ =~= v@.subrange(lo as int, k as int));
    }
    r
}

/// Index of the first non-whitespace character of `t` at or after `k`.
pub open spec fn trim_start_idx(t: Seq<char>, k: int) -> int
    decreases t.len() - k,
{
    if 0 <= k < t.len() && char_is_whitespace(t[k]) {
        trim_start_idx(t, k + 1)
    } else {
        k
    }
}

/// Index just after the last non-whitespace character of `t[lo..k]`.
pub open spec fn trim_end_idx(t: Seq<char>, lo: int, k: int) -> int
    decreases k - lo,
{
    if lo < k <= t.len() && char_is_whitespace(t[k - 1]) {
        trim_end_idx(t, lo, k - 1)
    } else {
        k
    }
}

/// `t` without leading and trailing whitespace, as `str::trim` gives it.
pub open spec fn trim_ws(t: Seq<char>) -> Seq<char> {
    let a = trim_start_idx(t, 0);
    t.subrange(a, trim_end_idx(t, a, t.len() as int))
}

/// Bounds of `v[lo..hi]` once trimmed.
pub fn trim_range(v: &Vec<char>, lo: usize, hi: usize) -> (r: (usize, usize))
    requires
        lo <= hi <= v.len(),
    ensures
        lo <= r.0 <= r.1 <= hi,
        v@.subrange(r.0 as int, r.1 as int) == trim_ws(v@.subrange(lo as int, hi as int)),
{
    let ghost t = v@.subrange(lo as int, hi as int);
    let mut a = lo;
    while a < hi && is_whitespace(v[a])
        invariant
            lo <= a <= hi <= v.len(),
            t == v@.subrange(lo as int, hi as int),
            trim_start_idx(t, 0) == trim_start_idx(t, a - lo),
        decreases hi - a,
    {
        a += 1;
    }
    let mut b = hi;
    while b > a && is_whitespace(v[b - 1])
        invariant
            lo <= a <= b <= hi <= v.len(),
            t == v@.subrange(lo as int, hi as int),
            trim_start_idx(t, 0) == a - lo,
            trim_end_idx(t, a - lo, t.len() as int) == trim_end_idx(t, a - lo, b - lo),
        decreases b - a,
    {
        b -= 1;
    }
    assert(v@.subrange(a as int, b as int) =~= t.subrange(a - lo, b - lo));
    (a, b)
}


// ---------- Order of strings ----------

/// Lexicographic order of character sequences by code point, which is the
/// order of `str` comparison.
pub open spec fn seq_lt(a: Seq<char>, b: Seq<char>) -> bool
    decreases a.len(),
{
    if a.len() == 0 {
        b.len() > 0
    } else if b.len() == 0 {
        false
    } else if a[0] != b[0] {
        a[0] < b[0]
    } else {
        seq_lt(a.drop_first(), b.drop_first())
    }
}

pub proof fn lemma_seq_lt_irrefl(a: Seq<char>)
    ensures
        !seq_lt(a, a),
    decreases a.len(),
{
    if a.len() > 0 {
        lemma_seq_lt_irrefl(a.drop_first());
    }
}

pub proof fn lemma_seq_lt_trans(a: Seq<char>, b: Seq<char>, c: Seq<char>)
    requires
        seq_lt(a, b),
        seq_lt(b, c),
    ensures
        seq_lt(a, c),
    decreases a.len(),
{
    if a.len() > 0 && b.len() > 0 && c.len() > 0 && a[0] == b[0] && b[0] == c[0] {
        lemma_seq_lt_trans(a.drop_first(), b.drop_first(), c.drop_first());
    }
}

pub proof fn lemma_seq_lt_total(a: Seq<char>, b: Seq<char>)
    ensures
        a == b || seq_lt(a, b) || seq_lt(b, a),
    decreases a.len(),
{
    if a.len() > 0 && b.len() > 0 && a[0] == b[0] {
        lemma_seq_lt_total(a.drop_first(), b.drop_first());
        if a.drop_first() == b.drop_first() {
            assert(a =~= seq![a[0]] + a.drop_first());
            assert(b =~= seq![b[0]] + b.drop_first());
        }
    } else if a.len() == 0 && b.len() == 0 {
        assert(a =~= b);
    }
}

pub proof fn lemma_seq_lt_asym(a: Seq<char>, b: Seq<char>)
    requires
        seq_lt(a, b),
    ensures
        !seq_lt(b, a),
{
    if seq_lt(b, a) {
        lemma_seq_lt_trans(a, b, a);
        lemma_seq_lt_irrefl(a);
    }
}

/// Whether two character vectors are equal.
pub fn chars_eq(a: &Vec<char>, b: &Vec<char>) -> (r: bool)
    ensures
        r == (a@ == b@),
{
    if a.len() != b.len() {
        return false;
    }
    let mut i: usize = 0;
    while i < a.len()
        invariant
            0 <= i <= a.len(),
            a.len() == b.len(),
            forall|k: int| 0 <= k < i ==> a@[k] == b@[k],
        decreases a.len() - i,
    {
        if a[i] != b[i] {
            return false;
        }
        i += 1;
    }
    assert(a@ =~= b@);
    true
}

/// Whether `a` sorts before `b`.
pub fn chars_lt(a: &Vec<char>, b: &Vec<char>) -> (r: bool)
    ensures
        r == seq_lt(a@, b@),
{
    let mut i: usize = 0;
    assert(a@.skip(0) =~= a@);
    assert(b@.skip(0) =~= b@);
    while i < a.len() && i < b.len() && a[i] == b[i]
        invariant
            0 <= i <= a.len(),
            i <= b.len(),
            seq_lt(a@, b@) == seq_lt(a@.skip(i as int), b@.skip(i as int)),
        decreases a.len() - i,
    {
        assert(a@.skip(i as int).drop_first() =~= a@.skip(i + 1));
        assert(b@.skip(i as int).drop_first() =~= b@.skip(i + 1));
        i += 1;
    }
    if i == a.len() {
        i < b.len()
    } else if i == b.len() {
        false
    } else {
        a[i] < b[i]
    }
}

/// Strings modelled as character sequences.
pub open spec fn views_of(v: Seq<String>) -> Seq<Seq<char>> {
    v.map_values(|x: String| x@)
}

/// `s` is strictly increasing.
pub open spec fn strictly_sorted(s: Seq<Seq<char>>) -> bool {
    forall|i: int, j: int| 0 <= i < j < s.len() ==> seq_lt(#[trigger] s[i], #[trigger] s[j])
}

/// The distinct strings of `v`, in increasing order.
pub fn sorted_distinct(v: &Vec<String>) -> (r: Vec<String>)
    ensures
        strictly_sorted(views_of(r@)),
        views_of(r@).to_set() == views_of(v@).to_set(),
{
    let mut out: Vec<String> = Vec::new();
    let mut keys: Vec<Vec<char>> = Vec::new();
    let mut i: usize = 0;
    while i < v.len()
        invariant
            0 <= i <= v.len(),
            keys@.len() == out@.len(),
            forall|k: int| 0 <= k < out@.len() ==> #[trigger] keys@[k]@ == out@[k]@,
            strictly_sorted(views_of(out@)),
            views_of(out@).to_set() == views_of(v@.take(i as int)).to_set(),
        decreases v.len() - i,
    {
        let x = chars_of(v[i].as_str());
        let ghost xs = x@;
        let ghost outv = views_of(out@);
        // first position whose key is not below x
        let mut p: usize = 0;
        while p < keys.len() && chars_lt(&keys[p], &x)
            invariant
                0 <= p <= keys@.len(),
                keys@.len() == out@.len(),
                forall|k: int| 0 <= k < out@.len() ==> #[trigger] keys@[k]@ == out@[k]@,
                outv == views_of(out@),
                xs == x@,
                forall|k: int| 0 <= k < p ==> seq_lt(#[trigger] outv[k], xs),
            decreases keys.len() - p,
        {
            assert(outv[p as int] == keys@[p as int]@);
            p += 1;
        }
        let present = p < keys.len() && !chars_lt(&x, &keys[p]);
        let ghost prefv = views_of(v@.take(i as int));
        proof {
            assert forall|y: Seq<char>| #[trigger] outv.contains(y) <==> prefv.contains(y) by {
                assert(outv.to_set().contains(y) == prefv.to_set().contains(y));
            }
            assert(views_of(v@.take(i + 1)) =~= prefv.push(xs));
            assert forall|y: Seq<char>| #[trigger] prefv.push(xs).contains(y) <==> (prefv.contains(y) || y == xs) by {
                if prefv.push(xs).contains(y) {
                    let k = choose|k: int| 0 <= k < prefv.len() + 1 && prefv.push(xs)[k] == y;
                    if k < prefv.len() {
                        assert(prefv[k] == y);
                    }
                }
                if prefv.contains(y) {
                    let k = choose|k: int| 0 <= k < prefv.len() && prefv[k] == y;
                    assert(prefv.push(xs)[k] == y);
                }
                if y == xs {
                    assert(prefv.push(xs)[prefv.len() as int] == y);
                }
            }
        }
        if !present {
            proof {
                if p < keys.len() {
                    assert(outv[p as int] == keys@[p as int]@);
                    assert(seq_lt(xs, outv[p as int]));
                }
            }
            out.insert(p, v[i].clone());
            keys.insert(p, x);
            proof {
                let nv = views_of(out@);
                assert(nv =~= outv.insert(p as int, xs));
                assert forall|a: int, b: int| 0 <= a < b < nv.len() implies seq_lt(
                    #[trigger] nv[a],
                    #[trigger] nv[b],
                ) by {
                    if b < p {
                        assert(seq_lt(outv[a], outv[b]));
                    } else if b == p {
                        assert(seq_lt(outv[a], xs));
                    } else {
                        if b - 1 > p {
                            assert(seq_lt(outv[p as int], outv[b - 1]));
                            lemma_seq_lt_trans(xs, outv[p as int], outv[b - 1]);
                        }
                        assert(seq_lt(xs, outv[b - 1]));
                        if a < p {
                            assert(seq_lt(outv[a], xs));
                            lemma_seq_lt_trans(outv[a], xs, outv[b - 1]);
                        } else if a > p {
                            assert(seq_lt(outv[a - 1], outv[b - 1]));
                        }
                    }
                }
                assert forall|y: Seq<char>| #[trigger] nv.contains(y) <==> (outv.contains(y) || y == xs) by {
                    if nv.contains(y) {
                        let k = choose|k: int| 0 <= k < nv.len() && nv[k] == y;
                        if k < p {
                            assert(outv[k] == y);
                        } else if k > p {
                            assert(outv[k - 1] == y);
                        }
                    }
                    if outv.contains(y) {
                        let k = choose|k: int| 0 <= k < outv.len() && outv[k] == y;
                        if k < p {
                            assert(nv[k] == y);
                        } else {
                            assert(nv[k + 1] == y);
                        }
                    }
                    if y == xs {
                        assert(nv[p as int] == y);
                    }
                }
                assert(nv.to_set() =~= views_of(v@.take(i + 1)).to_set());
            }
        } else {
            proof {
                assert(outv[p as int] == keys@[p as int]@);
                lemma_seq_lt_total(outv[p as int], xs);
                assert(outv[p as int] == xs);
                assert(outv.contains(xs));
                assert(views_of(out@).to_set() =~= views_of(v@.take(i + 1)).to_set());
            }
        }
        i += 1;
    }
    assert(v@.take(v.len() as int) =~= v@);
    out
}

/// The characters of `s`, in order.
pub fn chars_of(s: &str) -> (v: Vec<char>)
    ensures
        v@ == s@,
{
    let mut v: Vec<char> = Vec::new();
    for c in it: s.chars()
        invariant
            v@ == it.seq().take(it.index() as int),
    {
        v.push(c);
    }
    v
}

/// The characters `v[lo..hi]` as a `String`.
pub fn string_from_chars(v: &Vec<char>, lo: usize, hi: usize) -> (r: String)
    requires
        lo <= hi <= v.len(),
    ensures
        r@ == v@.subrange(lo as int, hi as int),
{
    let mut r = String::new();
    let mut k = lo;
    while k < hi
        invariant
            lo <= k <= hi <= v.len(),
            r@ == v@.subrange(lo as int, k as int),
        decreases hi - k,
    {
        push_char(&mut r, v[k]);
        k += 1;
        assert(r@ =~= v@.subrange(lo as int, k as int));
    }
    r
}

} // verus!
