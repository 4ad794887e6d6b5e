//! A YAML document tree, as the `.base` file and note frontmatter are read.
//!
//! This mirrors the value model of a YAML loader: scalars, sequences,
//! mappings with their entries in document order, and tagged values. The
//! accessors below look through tags the way the loader's accessors do.
use vstd::prelude::*;

use crate::text::str_eq;

verus! {

/// A YAML number: a non-negative integer, a negative integer, or a float
/// kept as its textual rendering.
#[derive(Debug, Clone, PartialEq, Eq)]
pub enum YamlNumber {
    PosInt(u64),
    NegInt(i64),
    Float(String),
}

/// A YAML value.
#[derive(Debug)]
pub enum YamlValue {
    Null,
    Bool(bool),
    Number(YamlNumber),
    String(String),
    Sequence(Vec<YamlValue>),
    /// Entries in document order; keys are distinct.
    Mapping(Vec<(YamlValue, YamlValue)>),
    /// A value with an explicit tag, such as `!ASC`; the tag text includes
    /// the leading `!`.
    Tagged(String, Box<YamlValue>),
}

/// The value with every outer tag removed.
pub open spec fn untag(v: YamlValue) -> YamlValue
    decreases v,
{
    match v {
        YamlValue::Tagged(_, inner) => untag(*inner),
        _ => v,
    }
}

/// `k` is the plain (untagged) string key `key`.
pub open spec fn is_str_key(k: YamlValue, key: Seq<char>) -> bool {
    k matches YamlValue::String(s) && s@ == key
}

/// Index of the first entry whose key is the plain string `key`, or -1.
pub open spec fn key_index(entries: Seq<(YamlValue, YamlValue)>, key: Seq<char>) -> int
    decreases entries.len(),
{
    if entries.len() == 0 {
        -1
    } else {
        let prev = key_index(entries.drop_last(), key);
        if prev >= 0 {
            prev
        } else if is_str_key(entries.last().0, key) {
            entries.len() - 1
        } else {
            -1
        }
    }
}

/// The value of the first entry whose key is the plain string `key`.
pub open spec fn lookup(entries: Seq<(YamlValue, YamlValue)>, key: Seq<char>) -> Option<YamlValue> {
    let i = key_index(entries, key);
    if 0 <= i < entries.len() {
        Some(entries[i].1)
    } else {
        None
    }
}

pub proof fn lemma_key_index_bound(entries: Seq<(YamlValue, YamlValue)>, key: Seq<char>)
    ensures
        -1 <= key_index(entries, key) < entries.len(),
    decreases entries.len(),
{
    if entries.len() > 0 {
        lemma_key_index_bound(entries.drop_last(), key);
    }
}

/// Left fold that stops at the first failing step.
pub open spec fn fold_opt<T, S>(xs: Seq<T>, init: S, step: spec_fn(S, T) -> Option<S>) -> Option<S>
    decreases xs.len(),
{
    if xs.len() == 0 {
        Some(init)
    } else {
        match fold_opt(xs.drop_last(), init, step) {
            Some(acc) => step(acc, xs.last()),
            None => None,
        }
    }
}

/// One more step of the fold over a prefix.
pub proof fn lemma_fold_opt_step<T, S>(
    xs: Seq<T>,
    init: S,
    step: spec_fn(S, T) -> Option<S>,
    i: int,
)
    requires
        0 <= i < xs.len(),
    ensures
        fold_opt(xs.take(i + 1), init, step) == (match fold_opt(xs.take(i), init, step) {
            Some(acc) => step(acc, xs[i]),
            None => None,
        }),
{
    assert(xs.take(i + 1).drop_last() =~= xs.take(i));
}

/// The fold over the whole sequence is the fold over its full prefix.
pub proof fn lemma_fold_opt_full<T, S>(xs: Seq<T>, init: S, step: spec_fn(S, T) -> Option<S>)
    ensures
        fold_opt(xs.take(xs.len() as int), init, step) == fold_opt(xs, init, step),
{
    assert(xs.take(xs.len() as int) =~= xs);
}

/// A fold that fails on a prefix fails on the whole sequence.
pub proof fn lemma_fold_opt_prefix_fails<T, S>(
    xs: Seq<T>,
    init: S,
    step: spec_fn(S, T) -> Option<S>,
    n: int,
)
    requires
        0 <= n <= xs.len(),
        fold_opt(xs.take(n), init, step) is None,
    ensures
        fold_opt(xs, init, step) is None,
    decreases xs.len() - n,
{
    if n < xs.len() {
        lemma_fold_opt_step(xs, init, step, n);
        lemma_fold_opt_prefix_fails(xs, init, step, n + 1);
    } else {
        assert(xs.take(n) =~= xs);
    }
}

/// String content of a value, looking through tags.
pub open spec fn str_of(v: YamlValue) -> Option<Seq<char>> {
    match untag(v) {
        YamlValue::String(s) => Some(s@),
        _ => None,
    }
}

impl YamlValue {
    /// The value with its tags removed.
    pub fn untag_ref(&self) -> (r: &YamlValue)
        ensures
            *r == untag(*self),
        decreases self,
    {
        match self {
            YamlValue::Tagged(_, inner) => inner.untag_ref(),
            _ => self,
        }
    }

    /// The string content, looking through tags.
    pub fn as_str(&self) -> (r: Option<&String>)
        ensures
            match untag(*self) {
                YamlValue::String(s) => r == Some(&s),
                _ => r is None,
            },
    {
        match self.untag_ref() {
            YamlValue::String(s) => Some(s),
            _ => None,
        }
    }

    /// A non-negative integer, looking through tags.
    pub fn as_u64(&self) -> (r: Option<u64>)
        ensures
            match untag(*self) {
                YamlValue::Number(YamlNumber::PosInt(n)) => r == Some(n),
                _ => r is None,
            },
    {
        match self.untag_ref() {
            YamlValue::Number(YamlNumber::PosInt(n)) => Some(*n),
            _ => None,
        }
    }

    /// The items of a sequence, looking through tags.
    pub fn as_sequence(&self) -> (r: Option<&Vec<YamlValue>>)
        ensures
            match untag(*self) {
                YamlValue::Sequence(items) => r == Some(&items),
                _ => r is None,
            },
    {
        match self.untag_ref() {
            YamlValue::Sequence(items) => Some(items),
            _ => None,
        }
    }

    /// The entries of a mapping, looking through tags.
    pub fn as_mapping(&self) -> (r: Option<&Vec<(YamlValue, YamlValue)>>)
        ensures
            match untag(*self) {
                YamlValue::Mapping(entries) => r == Some(&entries),
                _ => r is None,
            },
    {
        match self.untag_ref() {
            YamlValue::Mapping(entries) => Some(entries),
            _ => None,
        }
    }

    /// Whether this is the null value (tags are not looked through).
    pub fn is_null(&self) -> (r: bool)
        ensures
            r == (*self is Null),
    {
        match self {
            YamlValue::Null => true,
            _ => false,
        }
    }
}

/// The value of the first entry whose key is the plain string `key`.
pub fn mapping_get<'a>(entries: &'a Vec<(YamlValue, YamlValue)>, key: &str) -> (r: Option<
    &'a YamlValue,
>)
    ensures
        -1 <= key_index(entries@, key@) < entries@.len(),
        match lookup(entries@, key@) {
            Some(v) => r == Some(&v),
            None => r is None,
        },
{
    proof {
        lemma_key_index_bound(entries@, key@);
    }
    let mut i: usize = 0;
    while i < entries.len()
        invariant
            0 <= i <= entries.len(),
            key_index(entries@.take(i as int), key@) == -1,
        decreases entries.len() - i,
    {
        assert(entries@.take(i + 1).drop_last() =~= entries@.take(i as int));
        let matched = match &entries[i].0 {
            YamlValue::String(s) => str_eq(s.as_str(), key),
            _ => false,
        };
        if matched {
            proof {
                lemma_key_index_prefix(entries@, key@, i as int + 1);
            }
            return Some(&entries[i].1);
        }
        i += 1;
    }
    assert(entries@.take(entries.len() as int) =~= entries@);
    None
}

/// Once the first match lies inside a prefix, the whole mapping gives the
/// same index.
pub proof fn lemma_key_index_prefix(entries: Seq<(YamlValue, YamlValue)>, key: Seq<char>, n: int)
    requires
        0 <= n <= entries.len(),
        key_index(entries.take(n), key) >= 0,
    ensures
        key_index(entries, key) == key_index(entries.take(n), key),
    decreases entries.len() - n,
{
    if n < entries.len() {
        assert(entries.take(n + 1).drop_last() =~= entries.take(n));
        lemma_key_index_prefix(entries, key, n + 1);
    } else {
        assert(entries.take(n) =~= entries);
    }
}

} // verus!
