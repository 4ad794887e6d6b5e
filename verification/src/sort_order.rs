//! How the sort keys order text: runs of digits compare by their value.
use vstd::prelude::*;

use crate::text::{is_digit, seq_lt};
use crate::vault::{PAD, all_digits, digit_end, digit_key, digits_value, key_from, strip_zeros, zeros};

verus! {

pub open spec fn pow10(n: nat) -> int
    decreases n,
{
    if n == 0 {
        1
    } else {
        10 * pow10((n - 1) as nat)
    }
}

pub proof fn lemma_pow10_pos(n: nat)
    ensures
        pow10(n) >= 1,
    decreases n,
{
    if n > 0 {
        lemma_pow10_pos((n - 1) as nat);
    }
}

pub proof fn lemma_pow10_mono(a: nat, b: nat)
    requires
        a <= b,
    ensures
        pow10(a) <= pow10(b),
    decreases b,
{
    if a < b {
        lemma_pow10_mono(a, (b - 1) as nat);
        lemma_pow10_pos((b - 1) as nat);
    }
}

/// The value of digits written after other digits.
pub proof fn lemma_digits_concat(a: Seq<char>, b: Seq<char>)
    ensures
        digits_value(a + b) == digits_value(a) * pow10(b.len()) + digits_value(b),
    decreases b.len(),
{
    if b.len() == 0 {
        assert(a + b =~= a);
    } else {
        let b0 = b.drop_last();
        lemma_digits_concat(a, b0);
        assert((a + b).drop_last() =~= a + b0);
        assert((a + b).last() == b.last());
        let x = digits_value(a);
        let p = pow10(b0.len());
        assert((x * p) * 10 == x * (10 * p)) by (nonlinear_arith);
    }
}

proof fn lemma_single_digit(c: char)
    ensures
        digits_value(seq![c]) == c as int - 48,
{
    assert(seq![c].drop_last() =~= Seq::<char>::empty());
    assert(seq![c].last() == c);
    assert(digits_value(Seq::<char>::empty()) == 0);
    assert(digits_value(seq![c]) == digits_value(seq![c].drop_last()) * 10 + (seq![c].last() as int - 48));
}

pub proof fn lemma_digits_bound(d: Seq<char>)
    requires
        all_digits(d),
    ensures
        0 <= digits_value(d) < pow10(d.len()),
    decreases d.len(),
{
    if d.len() > 0 {
        let d0 = d.drop_last();
        assert(all_digits(d0));
        lemma_digits_bound(d0);
        assert(is_digit(d[d.len() - 1]));
        let v = digits_value(d0);
        let p = pow10(d0.len());
        assert(v * 10 + 9 < 10 * p) by (nonlinear_arith)
            requires
                0 <= v < p,
        ;
    }
}

pub proof fn lemma_zeros_value(n: nat)
    ensures
        digits_value(zeros(n)) == 0,
        all_digits(zeros(n)),
    decreases n,
{
    if n > 0 {
        lemma_zeros_value((n - 1) as nat);
        assert(zeros(n).drop_last() =~= zeros((n - 1) as nat));
    }
}

/// A run of digits not starting with `0` is at least `10^(len-1)`.
pub proof fn lemma_leading_digit(d: Seq<char>)
    requires
        all_digits(d),
        d.len() > 0,
        d[0] != '0',
    ensures
        digits_value(d) >= pow10((d.len() - 1) as nat),
{
    let rest = d.drop_first();
    assert(d =~= seq![d[0]] + rest);
    lemma_digits_concat(seq![d[0]], rest);
    lemma_single_digit(d[0]);
    assert(all_digits(rest));
    lemma_digits_bound(rest);
    let h = digits_value(seq![d[0]]);
    assert(is_digit(d[0]));
    let p = pow10(rest.len());
    assert(h * p >= p) by (nonlinear_arith)
        requires
            h >= 1,
            p >= 1,
    ;
    lemma_pow10_pos(rest.len());
}

pub proof fn lemma_strip_zeros(d: Seq<char>)
    requires
        all_digits(d),
    ensures
        all_digits(strip_zeros(d)),
        digits_value(strip_zeros(d)) == digits_value(d),
        strip_zeros(d).len() == 0 || strip_zeros(d)[0] != '0',
    decreases d.len(),
{
    if d.len() > 0 && d[0] == '0' {
        let rest = d.drop_first();
        assert(all_digits(rest));
        lemma_strip_zeros(rest);
        assert(d =~= seq!['0'] + rest);
        lemma_digits_concat(seq!['0'], rest);
        lemma_single_digit('0');
        assert(digits_value(d) == 0 * pow10(rest.len()) + digits_value(rest));
    }
}

/// Digit strings of one length compare as their values do.
pub proof fn lemma_equal_length_digits(a: Seq<char>, b: Seq<char>)
    requires
        all_digits(a),
        all_digits(b),
        a.len() == b.len(),
    ensures
        seq_lt(a, b) <==> digits_value(a) < digits_value(b),
    decreases a.len(),
{
    if a.len() > 0 {
        let ra = a.drop_first();
        let rb = b.drop_first();
        assert(all_digits(ra) && all_digits(rb));
        lemma_equal_length_digits(ra, rb);
        assert(a =~= seq![a[0]] + ra);
        assert(b =~= seq![b[0]] + rb);
        lemma_digits_concat(seq![a[0]], ra);
        lemma_digits_concat(seq![b[0]], rb);
        lemma_single_digit(a[0]);
        lemma_single_digit(b[0]);
        lemma_digits_bound(ra);
        lemma_digits_bound(rb);
        let p = pow10(ra.len());
        let ha = a[0] as int - 48;
        let hb = b[0] as int - 48;
        let va = digits_value(ra);
        let vb = digits_value(rb);
        assert(is_digit(a[0]) && is_digit(b[0]));
        if a[0] < b[0] {
            assert(ha * p + va < hb * p + vb) by (nonlinear_arith)
                requires
                    ha < hb,
                    0 <= va < p,
                    0 <= vb < p,
            ;
        } else if b[0] < a[0] {
            assert(hb * p + vb < ha * p + va) by (nonlinear_arith)
                requires
                    hb < ha,
                    0 <= va < p,
                    0 <= vb < p,
            ;
        }
    }
}

/// The key of a run of digits whose value is below `10^PAD` is `PAD`
/// digits with the run's value.
pub proof fn lemma_digit_key_shape(d: Seq<char>)
    requires
        all_digits(d),
        digits_value(d) < pow10(PAD as nat),
    ensures
        digit_key(d).len() == PAD,
        all_digits(digit_key(d)),
        digits_value(digit_key(d)) == digits_value(d),
{
    lemma_strip_zeros(d);
    let s = strip_zeros(d);
    let t = if s.len() == 0 {
        seq!['0']
    } else {
        s
    };
    if s.len() == 0 {
        lemma_single_digit('0');
        assert(all_digits(t));
    }
    assert(digits_value(t) == digits_value(d));
    if t.len() > PAD {
        lemma_leading_digit(t);
        lemma_pow10_mono(PAD as nat, (t.len() - 1) as nat);
        assert(false);
    }
    if t.len() < PAD {
        let k = (PAD - t.len()) as nat;
        lemma_zeros_value(k);
        lemma_digits_concat(zeros(k), t);
        assert(digit_key(d) == zeros(k) + t);
        assert(digits_value(zeros(k) + t) == 0 * pow10(t.len()) + digits_value(t));
        assert forall|i: int| 0 <= i < digit_key(d).len() implies is_digit(#[trigger] digit_key(d)[i]) by {
            if i < k {
                assert(digit_key(d)[i] == zeros(k)[i]);
            } else {
                assert(digit_key(d)[i] == t[i - k]);
            }
        }
    }
}

/// Runs of digits below `10^16` sort by their values: the key of one comes
/// before the key of another exactly when its value is smaller.
pub proof fn law_digit_runs_sort_numerically(a: Seq<char>, b: Seq<char>)
    requires
        all_digits(a),
        all_digits(b),
        digits_value(a) < pow10(PAD as nat),
        digits_value(b) < pow10(PAD as nat),
    ensures
        seq_lt(digit_key(a), digit_key(b)) <==> digits_value(a) < digits_value(b),
{
    lemma_digit_key_shape(a);
    lemma_digit_key_shape(b);
    lemma_equal_length_digits(digit_key(a), digit_key(b));
}

proof fn lemma_digit_end_all(s: Seq<char>, i: int)
    requires
        all_digits(s),
        0 <= i <= s.len(),
    ensures
        digit_end(s, i) == s.len(),
    decreases s.len() - i,
{
    if i < s.len() {
        lemma_digit_end_all(s, i + 1);
    }
}

proof fn lemma_digit_end_within(p: Seq<char>, x: Seq<char>, i: int)
    requires
        0 <= i < p.len(),
        !is_digit(p.last()),
    ensures
        digit_end(p + x, i) == digit_end(p, i),
        digit_end(p, i) < p.len(),
    decreases p.len() - i,
{
    if is_digit(p[i]) {
        assert((p + x)[i] == p[i]);
        if i + 1 < p.len() {
            lemma_digit_end_within(p, x, i + 1);
        } else {
            assert(p[i] == p.last());
        }
    } else {
        assert((p + x)[i] == p[i]);
    }
}

/// The key of `p + x` is the key of `p` followed by the key of `x`, when
/// `p` does not end with a digit.
pub proof fn lemma_key_from_concat(p: Seq<char>, x: Seq<char>, i: int, collapse: bool)
    requires
        0 <= i <= p.len(),
        p.len() == 0 || !is_digit(p.last()),
    ensures
        key_from(p + x, i, collapse) == key_from(p, i, collapse) + key_from(x, 0, collapse),
    decreases p.len() - i,
{
    if i == p.len() {
        lemma_key_from_shift(p, x, 0, collapse);
        assert(key_from(p, i, collapse) =~= Seq::<char>::empty());
        assert(key_from(p + x, i, collapse) =~= key_from(p, i, collapse) + key_from(x, 0, collapse));
    } else {
        assert((p + x)[i] == p[i]);
        if is_digit(p[i]) {
            lemma_digit_end_within(p, x, i);
            crate::vault::lemma_digit_end_bounds(p, i);
            let j = digit_end(p, i);
            assert((p + x).subrange(i, j) =~= p.subrange(i, j));
            lemma_key_from_concat(p, x, j, collapse);
        } else {
            lemma_key_from_concat(p, x, i + 1, collapse);
        }
    }
}

/// The key of `(p + x)[p.len() + k..]` is the key of `x[k..]`.
proof fn lemma_key_from_shift(p: Seq<char>, x: Seq<char>, k: int, collapse: bool)
    requires
        0 <= k <= x.len(),
    ensures
        key_from(p + x, p.len() + k, collapse) == key_from(x, k, collapse),
    decreases x.len() - k,
{
    if k < x.len() {
        let s = p + x;
        let i = p.len() + k;
        assert(s[i] == x[k]);
        if is_digit(x[k]) {
            lemma_digit_end_shift(p, x, k);
            crate::vault::lemma_digit_end_bounds(x, k);
            let j = digit_end(x, k);
            assert(s.subrange(i, p.len() + j) =~= x.subrange(k, j));
            lemma_key_from_shift(p, x, j, collapse);
        } else {
            lemma_key_from_shift(p, x, k + 1, collapse);
        }
    }
}

proof fn lemma_digit_end_shift(p: Seq<char>, x: Seq<char>, k: int)
    requires
        0 <= k <= x.len(),
    ensures
        digit_end(p + x, p.len() + k) == p.len() + digit_end(x, k),
    decreases x.len() - k,
{
    if k < x.len() {
        assert((p + x)[p.len() + k] == x[k]);
        lemma_digit_end_shift(p, x, k + 1);
    }
}

proof fn lemma_seq_lt_common_prefix(k: Seq<char>, u: Seq<char>, w: Seq<char>)
    ensures
        seq_lt(k + u, k + w) <==> seq_lt(u, w),
    decreases k.len(),
{
    if k.len() > 0 {
        assert((k + u).drop_first() =~= k.drop_first() + u);
        assert((k + w).drop_first() =~= k.drop_first() + w);
        lemma_seq_lt_common_prefix(k.drop_first(), u, w);
    } else {
        assert(k + u =~= u);
        assert(k + w =~= w);
    }
}

/// Two texts that differ only in a final number below `10^16`, after a part
/// that does not end with a digit, sort by that number ("Exodus 9" before
/// "Exodus 19"), in both kinds of sort key.
pub proof fn law_numbered_names_sort_numerically(p: Seq<char>, a: Seq<char>, b: Seq<char>, collapse: bool)
    requires
        p.len() == 0 || !is_digit(p.last()),
        a.len() > 0,
        b.len() > 0,
        all_digits(a),
        all_digits(b),
        digits_value(a) < pow10(PAD as nat),
        digits_value(b) < pow10(PAD as nat),
    ensures
        seq_lt(key_from(p + a, 0, collapse), key_from(p + b, 0, collapse)) <==> digits_value(a) < digits_value(b),
{
    lemma_key_from_concat(p, a, 0, collapse);
    lemma_key_from_concat(p, b, 0, collapse);
    lemma_key_of_digits(a, collapse);
    lemma_key_of_digits(b, collapse);
    lemma_seq_lt_common_prefix(key_from(p, 0, collapse), digit_key(a), digit_key(b));
    law_digit_runs_sort_numerically(a, b);
}

proof fn lemma_key_of_digits(a: Seq<char>, collapse: bool)
    requires
        a.len() > 0,
        all_digits(a),
    ensures
        key_from(a, 0, collapse) == digit_key(a),
{
    lemma_digit_end_all(a, 0);
    assert(is_digit(a[0]));
    assert(a.subrange(0, a.len() as int) =~= a);
    assert(key_from(a, a.len() as int, collapse) =~= Seq::<char>::empty());
    assert(digit_key(a) + Seq::<char>::empty() =~= digit_key(a));
}

} // verus!
