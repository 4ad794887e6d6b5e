//! The `.base` file: global filters, formulas, property display settings and
//! views, decoded from its YAML tree.
use vstd::prelude::*;

use vstd::view::View as _;

use crate::error::CrabaseError;
use crate::text::str_eq;
use crate::yaml::{
    YamlNumber, YamlValue, fold_opt, key_index, lemma_fold_opt_full, lemma_fold_opt_prefix_fails,
    lemma_fold_opt_step, lookup, mapping_get, str_of, untag,
};

verus! {

// ---------- Filters ----------

/// A filter node in the `.base` filter tree.
#[derive(Debug)]
pub enum FilterNode {
    And(Vec<FilterNode>),
    Or(Vec<FilterNode>),
    /// None of the children holds.
    Not(Vec<FilterNode>),
    Expr(String),
}

/// Model of a filter tree.
pub enum FilterNodeV {
    And(Seq<FilterNodeV>),
    Or(Seq<FilterNodeV>),
    Not(Seq<FilterNodeV>),
    Expr(Seq<char>),
}

pub open spec fn filter_view(f: FilterNode) -> FilterNodeV
    decreases f,
{
    match f {
        FilterNode::And(cs) => FilterNodeV::And(filters_view(cs@)),
        FilterNode::Or(cs) => FilterNodeV::Or(filters_view(cs@)),
        FilterNode::Not(cs) => FilterNodeV::Not(filters_view(cs@)),
        FilterNode::Expr(s) => FilterNodeV::Expr(s@),
    }
}

pub open spec fn filters_view(fs: Seq<FilterNode>) -> Seq<FilterNodeV>
    decreases fs,
{
    if fs.len() == 0 {
        Seq::empty()
    } else {
        filters_view(fs.drop_last()).push(filter_view(fs.last()))
    }
}

impl vstd::prelude::View for FilterNode {
    type V = FilterNodeV;

    open spec fn view(&self) -> FilterNodeV {
        filter_view(*self)
    }
}

pub open spec fn and_key() -> Seq<char> {
    seq!['a', 'n', 'd']
}

pub open spec fn or_key() -> Seq<char> {
    seq!['o', 'r']
}

pub open spec fn not_key() -> Seq<char> {
    seq!['n', 'o', 't']
}

/// Decoding of a filter value; `None` when the value is not a filter.
/// A string is an expression, a sequence is a conjunction, and a mapping
/// takes the first of its `and`, `or`, `not` keys.
pub open spec fn decode_filter(v: YamlValue) -> Option<FilterNodeV>
    decreases v, 0nat,
{
    match v {
        YamlValue::String(s) => Some(FilterNodeV::Expr(s@)),
        YamlValue::Mapping(entries) => {
            let ia = key_index(entries@, and_key());
            let io = key_index(entries@, or_key());
            let inot = key_index(entries@, not_key());
            if 0 <= ia < entries@.len() {
                match decode_filter_list(entries@[ia].1) {
                    Some(cs) => Some(FilterNodeV::And(cs)),
                    None => None,
                }
            } else if 0 <= io < entries@.len() {
                match decode_filter_list(entries@[io].1) {
                    Some(cs) => Some(FilterNodeV::Or(cs)),
                    None => None,
                }
            } else if 0 <= inot < entries@.len() {
                match decode_filter_list(entries@[inot].1) {
                    Some(cs) => Some(FilterNodeV::Not(cs)),
                    None => None,
                }
            } else {
                None
            }
        },
        YamlValue::Sequence(items) => match decode_filter_seq(items@) {
            Some(cs) => Some(FilterNodeV::And(cs)),
            None => None,
        },
        _ => None,
    }
}

/// The children under `and`/`or`/`not`: a sequence, or a single filter.
pub open spec fn decode_filter_list(v: YamlValue) -> Option<Seq<FilterNodeV>>
    decreases v, 1nat,
{
    match v {
        YamlValue::Sequence(items) => decode_filter_seq(items@),
        _ => match decode_filter(v) {
            Some(f) => Some(seq![f]),
            None => None,
        },
    }
}

/// Every item decoded in order; `None` if any item fails.
pub open spec fn decode_filter_seq(items: Seq<YamlValue>) -> Option<Seq<FilterNodeV>>
    decreases items, 0nat,
{
    if items.len() == 0 {
        Some(Seq::empty())
    } else {
        match decode_filter_seq(items.drop_last()) {
            Some(prefix) => match decode_filter(items.last()) {
                Some(f) => Some(prefix.push(f)),
                None => None,
            },
            None => None,
        }
    }
}

/// A bare sequence of filters means what the same sequence under `and:`
/// means.
pub proof fn law_bare_sequence_is_and(items: Vec<YamlValue>, entries: Vec<(YamlValue, YamlValue)>)
    requires
        entries@.len() == 1,
        crate::yaml::is_str_key(entries@[0].0, and_key()),
        entries@[0].1 == YamlValue::Sequence(items),
    ensures
        decode_filter(YamlValue::Sequence(items)) == decode_filter(YamlValue::Mapping(entries)),
{
    assert(entries@.drop_last() =~= Seq::<(YamlValue, YamlValue)>::empty());
    assert(key_index(entries@.drop_last(), and_key()) == -1);
    assert(key_index(entries@, and_key()) == 0);
}

/// `r` is `Ok` with model `m` when `m` is `Some`, and a `.base` format error
/// otherwise.
pub open spec fn decoded<T: vstd::prelude::View>(
    r: Result<T, CrabaseError>,
    m: Option<T::V>,
) -> bool {
    match m {
        Some(x) => r is Ok && r->Ok_0@ == x,
        None => r is Err && r->Err_0 is BaseFile,
    }
}

fn format_error(msg: &str) -> (e: CrabaseError)
    ensures
        e matches CrabaseError::BaseFile(m) && m@ == msg@,
{
    CrabaseError::BaseFile(msg.to_owned())
}

impl FilterNode {
    /// Decode a filter from its YAML value.
    pub fn from_yaml(value: &YamlValue) -> (r: Result<FilterNode, CrabaseError>)
        ensures
            decoded(r, decode_filter(*value)),
        decreases value, 0nat,
    {
        match value {
            YamlValue::String(s) => Ok(FilterNode::Expr(s.clone())),
            YamlValue::Mapping(entries) => {
                proof {
                    reveal_strlit("and");
                    reveal_strlit("or");
                    reveal_strlit("not");
                    assert("and"@ =~= and_key());
                    assert("or"@ =~= or_key());
                    assert("not"@ =~= not_key());
                }
                if let Some(v) = mapping_get(entries, "and") {
                    match parse_filter_list(v) {
                        Ok(cs) => Ok(FilterNode::And(cs)),
                        Err(e) => Err(e),
                    }
                } else if let Some(v) = mapping_get(entries, "or") {
                    match parse_filter_list(v) {
                        Ok(cs) => Ok(FilterNode::Or(cs)),
                        Err(e) => Err(e),
                    }
                } else if let Some(v) = mapping_get(entries, "not") {
                    match parse_filter_list(v) {
                        Ok(cs) => Ok(FilterNode::Not(cs)),
                        Err(e) => Err(e),
                    }
                } else {
                    Err(format_error("Filter mapping must have 'and', 'or', or 'not' key"))
                }
            },
            YamlValue::Sequence(items) => match parse_filter_seq(items) {
                Ok(cs) => Ok(FilterNode::And(cs)),
                Err(e) => Err(e),
            },
            _ => Err(format_error("Unexpected filter value type")),
        }
    }
}

fn parse_filter_list(value: &YamlValue) -> (r: Result<Vec<FilterNode>, CrabaseError>)
    ensures
        match decode_filter_list(*value) {
            Some(cs) => r is Ok && filters_view(r->Ok_0@) == cs,
            None => r is Err && r->Err_0 is BaseFile,
        },
    decreases value, 1nat,
{
    match value {
        YamlValue::Sequence(items) => parse_filter_seq(items),
        _ => match FilterNode::from_yaml(value) {
            Ok(f) => {
                let mut v: Vec<FilterNode> = Vec::new();
                v.push(f);
                proof {
                    assert(v@.drop_last() =~= Seq::<FilterNode>::empty());
                    assert(filters_view(Seq::<FilterNode>::empty()) =~= Seq::empty());
                }
                Ok(v)
            },
            Err(e) => Err(e),
        },
    }
}

fn parse_filter_seq(items: &Vec<YamlValue>) -> (r: Result<Vec<FilterNode>, CrabaseError>)
    ensures
        match decode_filter_seq(items@) {
            Some(cs) => r is Ok && filters_view(r->Ok_0@) == cs,
            None => r is Err && r->Err_0 is BaseFile,
        },
    decreases items@, 0nat,
{
    let mut out: Vec<FilterNode> = Vec::new();
    let mut i: usize = 0;
    while i < items.len()
        invariant
            0 <= i <= items.len(),
            decode_filter_seq(items@.take(i as int)) == Some(filters_view(out@)),
        decreases items.len() - i,
    {
        assert(items@.take(i + 1).drop_last() =~= items@.take(i as int));
        match FilterNode::from_yaml(&items[i]) {
            Ok(f) => {
                let ghost prev = out@;
                out.push(f);
                assert(out@.drop_last() =~= prev);
            },
            Err(e) => {
                proof {
                    lemma_filter_seq_prefix_fails(items@, i as int + 1);
                }
                return Err(e);
            },
        }
        i += 1;
    }
    assert(items@.take(items.len() as int) =~= items@);
    Ok(out)
}

/// A sequence whose prefix fails to decode fails as a whole.
pub proof fn lemma_filter_seq_prefix_fails(items: Seq<YamlValue>, n: int)
    requires
        0 <= n <= items.len(),
        decode_filter_seq(items.take(n)) is None,
    ensures
        decode_filter_seq(items) is None,
    decreases items.len() - n,
{
    if n < items.len() {
        assert(items.take(n + 1).drop_last() =~= items.take(n));
        lemma_filter_seq_prefix_fails(items, n + 1);
    } else {
        assert(items.take(n) =~= items);
    }
}


// ---------- Sort keys, grouping and property settings ----------

/// Sort direction.
#[derive(Debug, Clone, Copy, PartialEq, Eq, Structural)]
pub enum SortDirection {
    Asc,
    Desc,
}

impl Default for SortDirection {
    fn default() -> (r: SortDirection)
        ensures
            r == SortDirection::Asc,
    {
        SortDirection::Asc
    }
}

/// A sort key: a property and a direction.
#[derive(Debug, Clone)]
pub struct SortKey {
    pub property: String,
    pub direction: SortDirection,
}

/// Grouping of a view's rows.
#[derive(Debug, Clone)]
pub struct GroupBy {
    pub property: String,
    pub direction: SortDirection,
}

/// Display settings of a property.
#[derive(Debug, Clone)]
pub struct PropertyConfig {
    pub display_name: Option<String>,
}

impl vstd::prelude::View for SortKey {
    type V = (Seq<char>, SortDirection);

    open spec fn view(&self) -> (Seq<char>, SortDirection) {
        (self.property@, self.direction)
    }
}

impl vstd::prelude::View for GroupBy {
    type V = (Seq<char>, SortDirection);

    open spec fn view(&self) -> (Seq<char>, SortDirection) {
        (self.property@, self.direction)
    }
}

pub open spec fn opt_str_view(o: Option<String>) -> Option<Seq<char>> {
    match o {
        Some(s) => Some(s@),
        None => None,
    }
}

impl vstd::prelude::View for PropertyConfig {
    type V = Option<Seq<char>>;

    open spec fn view(&self) -> Option<Seq<char>> {
        opt_str_view(self.display_name)
    }
}

/// A tag without its leading `!` (unless nothing would remain).
pub open spec fn nobang(t: Seq<char>) -> Seq<char> {
    if t.len() >= 2 && t[0] == '!' {
        t.subrange(1, t.len() as int)
    } else {
        t
    }
}

pub open spec fn asc_name() -> Seq<char> {
    seq!['A', 'S', 'C']
}

pub open spec fn desc_name() -> Seq<char> {
    seq!['D', 'E', 'S', 'C']
}

/// A direction is the string `ASC` or `DESC`, or a null value tagged with
/// one of these names.
pub open spec fn decode_direction(v: YamlValue) -> Option<SortDirection> {
    match v {
        YamlValue::String(s) => if s@ == asc_name() {
            Some(SortDirection::Asc)
        } else if s@ == desc_name() {
            Some(SortDirection::Desc)
        } else {
            None
        },
        YamlValue::Tagged(tag, inner) => if !(*inner is Null) {
            None
        } else if nobang(tag@) == asc_name() {
            Some(SortDirection::Asc)
        } else if nobang(tag@) == desc_name() {
            Some(SortDirection::Desc)
        } else {
            None
        },
        _ => None,
    }
}

pub open spec fn property_name() -> Seq<char> {
    seq!['p', 'r', 'o', 'p', 'e', 'r', 't', 'y']
}

pub open spec fn direction_name() -> Seq<char> {
    seq!['d', 'i', 'r', 'e', 'c', 't', 'i', 'o', 'n']
}

pub open spec fn display_name_key() -> Seq<char> {
    seq!['d', 'i', 's', 'p', 'l', 'a', 'y', 'N', 'a', 'm', 'e']
}

/// Fields seen so far while reading a `property`/`direction` mapping.
pub open spec fn keyed_step(
    acc: (Option<Seq<char>>, Option<SortDirection>),
    e: (YamlValue, YamlValue),
) -> Option<(Option<Seq<char>>, Option<SortDirection>)> {
    match str_of(e.0) {
        None => None,
        Some(name) => if name == property_name() {
            if acc.0 is Some {
                None
            } else {
                match str_of(e.1) {
                    Some(p) => Some((Some(p), acc.1)),
                    None => None,
                }
            }
        } else if name == direction_name() {
            if acc.1 is Some {
                None
            } else {
                match decode_direction(e.1) {
                    Some(d) => Some((acc.0, Some(d))),
                    None => None,
                }
            }
        } else {
            Some(acc)
        },
    }
}

pub open spec fn keyed_step_fn() -> spec_fn(
    (Option<Seq<char>>, Option<SortDirection>),
    (YamlValue, YamlValue),
) -> Option<(Option<Seq<char>>, Option<SortDirection>)> {
    |acc: (Option<Seq<char>>, Option<SortDirection>), e: (YamlValue, YamlValue)|
        keyed_step(acc, e)
}

/// Decoding of a sort key or grouping: a mapping with string keys, a
/// required string `property`, an optional `direction` (ascending when
/// absent), no key twice, other keys ignored.
pub open spec fn decode_keyed(v: YamlValue) -> Option<(Seq<char>, SortDirection)> {
    match untag(v) {
        YamlValue::Mapping(entries) => match fold_opt(entries@, (None, None), keyed_step_fn()) {
            Some((Some(p), d)) => Some(
                (
                    p,
                    match d {
                        Some(x) => x,
                        None => SortDirection::Asc,
                    },
                ),
            ),
            _ => None,
        },
        _ => None,
    }
}

pub open spec fn sort_step_fn() -> spec_fn(Seq<(Seq<char>, SortDirection)>, YamlValue) -> Option<
    Seq<(Seq<char>, SortDirection)>,
> {
    |acc: Seq<(Seq<char>, SortDirection)>, item: YamlValue|
        match decode_keyed(item) {
            Some(k) => Some(acc.push(k)),
            None => None,
        }
}

/// Decoding of a list of sort keys; null is the empty list.
pub open spec fn decode_sort(v: YamlValue) -> Option<Seq<(Seq<char>, SortDirection)>> {
    match untag(v) {
        YamlValue::Sequence(items) => fold_opt(items@, Seq::empty(), sort_step_fn()),
        YamlValue::Null => Some(Seq::empty()),
        _ => None,
    }
}

pub open spec fn display_step(acc: (bool, Option<Seq<char>>), e: (YamlValue, YamlValue)) -> Option<
    (bool, Option<Seq<char>>),
> {
    match str_of(e.0) {
        None => None,
        Some(name) => if name == display_name_key() {
            if acc.0 {
                None
            } else if e.1 is Null {
                Some((true, None))
            } else {
                match str_of(e.1) {
                    Some(s) => Some((true, Some(s))),
                    None => None,
                }
            }
        } else {
            Some(acc)
        },
    }
}

pub open spec fn display_step_fn() -> spec_fn(
    (bool, Option<Seq<char>>),
    (YamlValue, YamlValue),
) -> Option<(bool, Option<Seq<char>>)> {
    |acc: (bool, Option<Seq<char>>), e: (YamlValue, YamlValue)| display_step(acc, e)
}

/// Decoding of a property's settings: a mapping (or null) whose optional
/// `displayName` is null or a string.
pub open spec fn decode_property(v: YamlValue) -> Option<Option<Seq<char>>> {
    match untag(v) {
        YamlValue::Mapping(entries) => match fold_opt(entries@, (false, None), display_step_fn()) {
            Some(acc) => Some(acc.1),
            None => None,
        },
        YamlValue::Null => Some(None),
        _ => None,
    }
}

fn decode_direction_exec(v: &YamlValue) -> (r: Option<SortDirection>)
    ensures
        r == decode_direction(*v),
{
    proof {
        reveal_strlit("ASC");
        reveal_strlit("DESC");
        assert("ASC"@ =~= asc_name());
        assert("DESC"@ =~= desc_name());
    }
    match v {
        YamlValue::String(s) => {
            if str_eq(s.as_str(), "ASC") {
                Some(SortDirection::Asc)
            } else if str_eq(s.as_str(), "DESC") {
                Some(SortDirection::Desc)
            } else {
                None
            }
        },
        YamlValue::Tagged(tag, inner) => {
            if !inner.is_null() {
                return None;
            }
            let chars = crate::text::chars_of(tag.as_str());
            let name = if chars.len() >= 2 && chars[0] == '!' {
                crate::text::string_from_chars(&chars, 1, chars.len())
            } else {
                crate::text::string_from_chars(&chars, 0, chars.len())
            };
            proof {
                assert(chars@.subrange(0, chars@.len() as int) =~= chars@);
            }
            if str_eq(name.as_str(), "ASC") {
                Some(SortDirection::Asc)
            } else if str_eq(name.as_str(), "DESC") {
                Some(SortDirection::Desc)
            } else {
                None
            }
        },
        _ => None,
    }
}

fn decode_keyed_exec(v: &YamlValue) -> (r: Option<(String, SortDirection)>)
    ensures
        match decode_keyed(*v) {
            Some(k) => match r {
                Some(x) => x.0@ == k.0 && x.1 == k.1,
                None => false,
            },
            None => r is None,
        },
{
    proof {
        reveal_strlit("property");
        reveal_strlit("direction");
        assert("property"@ =~= property_name());
        assert("direction"@ =~= direction_name());
    }
    let entries = match v.untag_ref() {
        YamlValue::Mapping(entries) => entries,
        _ => {
            return None;
        },
    };
    let ghost init: (Option<Seq<char>>, Option<SortDirection>) = (None, None);
    let mut prop: Option<String> = None;
    let mut dir: Option<SortDirection> = None;
    let mut i: usize = 0;
    while i < entries.len()
        invariant
            0 <= i <= entries.len(),
            untag(*v) == YamlValue::Mapping(*entries),
            init == (None::<Seq<char>>, None::<SortDirection>),
            fold_opt(entries@.take(i as int), init, keyed_step_fn()) == Some(
                (opt_str_view(prop), dir),
            ),
        decreases entries.len() - i,
    {
        let ghost acc0 = (opt_str_view(prop), dir);
        proof {
            reveal_strlit("property");
            reveal_strlit("direction");
            assert("property"@ =~= property_name());
            assert("direction"@ =~= direction_name());
            lemma_fold_opt_step(entries@, init, keyed_step_fn(), i as int);
            assert(keyed_step_fn()(acc0, entries@[i as int]) == keyed_step(acc0, entries@[i as int]));
        }
        let key = &entries[i].0;
        let val = &entries[i].1;
        let ok = match key.as_str() {
            None => false,
            Some(name) => {
                if str_eq(name.as_str(), "property") {
                    if prop.is_some() {
                        false
                    } else {
                        match val.as_str() {
                            Some(p) => {
                                prop = Some(p.clone());
                                true
                            },
                            None => false,
                        }
                    }
                } else if str_eq(name.as_str(), "direction") {
                    if dir.is_some() {
                        false
                    } else {
                        match decode_direction_exec(val) {
                            Some(d) => {
                                dir = Some(d);
                                true
                            },
                            None => false,
                        }
                    }
                } else {
                    true
                }
            },
        };
        if !ok {
            proof {
                lemma_fold_opt_prefix_fails(entries@, init, keyed_step_fn(), i as int + 1);
            }
            return None;
        }
        i += 1;
    }
    proof {
        lemma_fold_opt_full(entries@, init, keyed_step_fn());
    }
    match prop {
        Some(p) => Some(
            (
                p,
                match dir {
                    Some(d) => d,
                    None => SortDirection::Asc,
                },
            ),
        ),
        None => None,
    }
}

fn decode_sort_exec(v: &YamlValue) -> (r: Option<Vec<SortKey>>)
    ensures
        match decode_sort(*v) {
            Some(ks) => r is Some && r->0@.map_values(|k: SortKey| k@) == ks,
            None => r is None,
        },
{
    let items = match v.untag_ref() {
        YamlValue::Sequence(items) => items,
        YamlValue::Null => {
            let out: Vec<SortKey> = Vec::new();
            proof {
                assert(out@.map_values(|k: SortKey| k@) =~= Seq::<(Seq<char>, SortDirection)>::empty());
            }
            return Some(out);
        },
        _ => {
            return None;
        },
    };
    let ghost init: Seq<(Seq<char>, SortDirection)> = Seq::empty();
    let mut out: Vec<SortKey> = Vec::new();
    let mut i: usize = 0;
    while i < items.len()
        invariant
            0 <= i <= items.len(),
            untag(*v) == YamlValue::Sequence(*items),
            init == Seq::<(Seq<char>, SortDirection)>::empty(),
            fold_opt(items@.take(i as int), init, sort_step_fn()) == Some(
                out@.map_values(|k: SortKey| k@),
            ),
        decreases items.len() - i,
    {
        let ghost acc0 = out@.map_values(|k: SortKey| k@);
        proof {
            lemma_fold_opt_step(items@, init, sort_step_fn(), i as int);
            assert(sort_step_fn()(acc0, items@[i as int]) == (match decode_keyed(items@[i as int]) {
                Some(k) => Some(acc0.push(k)),
                None => None,
            }));
        }
        match decode_keyed_exec(&items[i]) {
            Some((p, d)) => {
                let ghost prev = out@;
                out.push(SortKey { property: p, direction: d });
                assert(out@.map_values(|k: SortKey| k@) =~= prev.map_values(|k: SortKey| k@).push(
                    (p@, d),
                ));
            },
            None => {
                proof {
                    lemma_fold_opt_prefix_fails(items@, init, sort_step_fn(), i as int + 1);
                }
                return None;
            },
        }
        i += 1;
    }
    proof {
        lemma_fold_opt_full(items@, init, sort_step_fn());
    }
    Some(out)
}

fn decode_property_exec(v: &YamlValue) -> (r: Option<PropertyConfig>)
    ensures
        match decode_property(*v) {
            Some(p) => r is Some && r->0@ == p,
            None => r is None,
        },
{
    proof {
        reveal_strlit("displayName");
        assert("displayName"@ =~= display_name_key());
    }
    let entries = match v.untag_ref() {
        YamlValue::Mapping(entries) => entries,
        YamlValue::Null => {
            return Some(PropertyConfig { display_name: None });
        },
        _ => {
            return None;
        },
    };
    let ghost init: (bool, Option<Seq<char>>) = (false, None);
    let mut seen = false;
    let mut shown: Option<String> = None;
    let mut i: usize = 0;
    while i < entries.len()
        invariant
            0 <= i <= entries.len(),
            untag(*v) == YamlValue::Mapping(*entries),
            init == (false, None::<Seq<char>>),
            fold_opt(entries@.take(i as int), init, display_step_fn()) == Some(
                (seen, opt_str_view(shown)),
            ),
        decreases entries.len() - i,
    {
        let ghost acc0 = (seen, opt_str_view(shown));
        proof {
            reveal_strlit("displayName");
            assert("displayName"@ =~= display_name_key());
            lemma_fold_opt_step(entries@, init, display_step_fn(), i as int);
            assert(display_step_fn()(acc0, entries@[i as int]) == display_step(acc0, entries@[i as int]));
        }
        let key = &entries[i].0;
        let val = &entries[i].1;
        let ok = match key.as_str() {
            None => false,
            Some(name) => {
                if str_eq(name.as_str(), "displayName") {
                    if seen {
                        false
                    } else if val.is_null() {
                        seen = true;
                        shown = None;
                        true
                    } else {
                        match val.as_str() {
                            Some(s) => {
                                seen = true;
                                shown = Some(s.clone());
                                true
                            },
                            None => false,
                        }
                    }
                } else {
                    true
                }
            },
        };
        if !ok {
            proof {
                lemma_fold_opt_prefix_fails(entries@, init, display_step_fn(), i as int + 1);
            }
            return None;
        }
        i += 1;
    }
    proof {
        lemma_fold_opt_full(entries@, init, display_step_fn());
    }
    Some(PropertyConfig { display_name: shown })
}


// ---------- Views ----------

/// A view of the `.base` file.
#[derive(Debug)]
pub struct View {
    pub view_type: String,
    pub name: Option<String>,
    pub limit: Option<usize>,
    pub order: Option<Vec<String>>,
    pub filters: Option<FilterNode>,
    pub group_by: Option<GroupBy>,
    pub sort: Option<Vec<SortKey>>,
}

/// Model of a view.
pub struct ViewV {
    pub view_type: Seq<char>,
    pub name: Option<Seq<char>>,
    pub limit: Option<usize>,
    pub order: Option<Seq<Seq<char>>>,
    pub filters: Option<FilterNodeV>,
    pub group_by: Option<(Seq<char>, SortDirection)>,
    pub sort: Option<Seq<(Seq<char>, SortDirection)>>,
}

pub open spec fn strings_view(v: Vec<String>) -> Seq<Seq<char>> {
    v@.map_values(|s: String| s@)
}

pub open spec fn sort_keys_view(v: Vec<SortKey>) -> Seq<(Seq<char>, SortDirection)> {
    v@.map_values(|k: SortKey| k@)
}

impl vstd::prelude::View for View {
    type V = ViewV;

    open spec fn view(&self) -> ViewV {
        ViewV {
            view_type: self.view_type@,
            name: opt_str_view(self.name),
            limit: self.limit,
            order: match self.order {
                Some(o) => Some(strings_view(o)),
                None => None,
            },
            filters: match self.filters {
                Some(f) => Some(f@),
                None => None,
            },
            group_by: match self.group_by {
                Some(g) => Some(g@),
                None => None,
            },
            sort: match self.sort {
                Some(k) => Some(sort_keys_view(k)),
                None => None,
            },
        }
    }
}

pub open spec fn strs_step_fn() -> spec_fn(Seq<Seq<char>>, YamlValue) -> Option<Seq<Seq<char>>> {
    |acc: Seq<Seq<char>>, x: YamlValue|
        Some(
            match str_of(x) {
                Some(s) => acc.push(s),
                None => acc,
            },
        )
}

/// The string items of a sequence, others skipped.
pub open spec fn string_items(items: Seq<YamlValue>) -> Seq<Seq<char>> {
    match fold_opt(items, Seq::empty(), strs_step_fn()) {
        Some(x) => x,
        None => Seq::empty(),
    }
}

/// An optional field decoded with `f`: `Some(None)` when absent, `None`
/// when present but undecodable.
pub open spec fn optional_field<T>(field: Option<YamlValue>, f: spec_fn(YamlValue) -> Option<T>) -> Option<
    Option<T>,
> {
    match field {
        None => Some(None),
        Some(x) => match f(x) {
            Some(y) => Some(Some(y)),
            None => None,
        },
    }
}

/// Decoding of a view: a mapping whose `type` defaults to `table`, whose
/// `name` and `limit` are read when they have the right shape, whose
/// `order` keeps the string items of a sequence, and whose `filters`,
/// `groupBy` and `sort` must decode when present.
pub open spec fn decode_view(v: YamlValue) -> Option<ViewV> {
    match untag(v) {
        YamlValue::Mapping(entries) => {
            let es = entries@;
            let view_type = match lookup(es, "type"@) {
                Some(t) => match str_of(t) {
                    Some(s) => s,
                    None => "table"@,
                },
                None => "table"@,
            };
            let name = match lookup(es, "name"@) {
                Some(n) => str_of(n),
                None => None,
            };
            let limit = match lookup(es, "limit"@) {
                Some(l) => match untag(l) {
                    YamlValue::Number(YamlNumber::PosInt(n)) => Some(n as usize),
                    _ => None,
                },
                None => None,
            };
            let order = match lookup(es, "order"@) {
                Some(o) => match untag(o) {
                    YamlValue::Sequence(items) => Some(string_items(items@)),
                    _ => None,
                },
                None => None,
            };
            let filters = optional_field(lookup(es, "filters"@), |x: YamlValue| decode_filter(x));
            let group_by = optional_field(lookup(es, "groupBy"@), |x: YamlValue| decode_keyed(x));
            let sort = optional_field(lookup(es, "sort"@), |x: YamlValue| decode_sort(x));
            match (filters, group_by, sort) {
                (Some(f), Some(g), Some(k)) => Some(
                    ViewV {
                        view_type,
                        name,
                        limit,
                        order,
                        filters: f,
                        group_by: g,
                        sort: k,
                    },
                ),
                _ => None,
            }
        },
        _ => None,
    }
}

fn string_items_exec(items: &Vec<YamlValue>) -> (r: Vec<String>)
    ensures
        strings_view(r) == string_items(items@),
{
    let ghost init: Seq<Seq<char>> = Seq::empty();
    let mut out: Vec<String> = Vec::new();
    let mut i: usize = 0;
    while i < items.len()
        invariant
            0 <= i <= items.len(),
            init == Seq::<Seq<char>>::empty(),
            fold_opt(items@.take(i as int), init, strs_step_fn()) == Some(strings_view(out)),
        decreases items.len() - i,
    {
        let ghost acc0 = strings_view(out);
        proof {
            lemma_fold_opt_step(items@, init, strs_step_fn(), i as int);
            assert(strs_step_fn()(acc0, items@[i as int]) == Some(
                match str_of(items@[i as int]) {
                    Some(s) => acc0.push(s),
                    None => acc0,
                },
            ));
        }
        match items[i].as_str() {
            Some(s) => {
                let ghost prev = out@;
                out.push(s.clone());
                assert(strings_view(out) =~= prev.map_values(|s: String| s@).push(s@));
            },
            None => {},
        }
        i += 1;
    }
    proof {
        lemma_fold_opt_full(items@, init, strs_step_fn());
    }
    out
}

impl View {
    /// Decode a view from its YAML value.
    pub fn from_yaml(value: &YamlValue) -> (r: Result<View, CrabaseError>)
        ensures
            decoded(r, decode_view(*value)),
    {
        let entries = match value.as_mapping() {
            Some(e) => e,
            None => {
                return Err(format_error("View must be a YAML mapping"));
            },
        };
        let view_type = match mapping_get(entries, "type") {
            Some(t) => match t.as_str() {
                Some(s) => s.clone(),
                None => String::from_str("table"),
            },
            None => String::from_str("table"),
        };
        let name = match mapping_get(entries, "name") {
            Some(n) => match n.as_str() {
                Some(s) => Some(s.clone()),
                None => None,
            },
            None => None,
        };
        let limit = match mapping_get(entries, "limit") {
            Some(l) => match l.as_u64() {
                Some(n) => Some(n as usize),
                None => None,
            },
            None => None,
        };
        let order = match mapping_get(entries, "order") {
            Some(o) => match o.as_sequence() {
                Some(items) => Some(string_items_exec(items)),
                None => None,
            },
            None => None,
        };
        let filters = match mapping_get(entries, "filters") {
            Some(f) => match FilterNode::from_yaml(f) {
                Ok(x) => Some(x),
                Err(e) => {
                    return Err(e);
                },
            },
            None => None,
        };
        let group_by = match mapping_get(entries, "groupBy") {
            Some(g) => match decode_keyed_exec(g) {
                Some((p, d)) => Some(GroupBy { property: p, direction: d }),
                None => {
                    return Err(format_error("groupBy parse error"));
                },
            },
            None => None,
        };
        let sort = match mapping_get(entries, "sort") {
            Some(k) => match decode_sort_exec(k) {
                Some(keys) => Some(keys),
                None => {
                    return Err(format_error("sort parse error"));
                },
            },
            None => None,
        };
        Ok(View { view_type, name, limit, order, filters, group_by, sort })
    }

    /// Whether this view is called `n`.
    pub open spec fn has_name(&self, n: Seq<char>) -> bool {
        self.name matches Some(s) && s@ == n
    }
}

// ---------- The base file ----------

/// Index of the first view called `n`.
fn find_view(views: &Vec<View>, n: &str) -> (r: Option<usize>)
    ensures
        match r {
            Some(i) => i < views@.len() && views@[i as int].has_name(n@) && forall|j: int|
                0 <= j < i ==> !#[trigger] views@[j].has_name(n@),
            None => forall|j: int| 0 <= j < views@.len() ==> !#[trigger] views@[j].has_name(n@),
        },
{
    let mut i: usize = 0;
    while i < views.len()
        invariant
            0 <= i <= views.len(),
            forall|j: int| 0 <= j < i ==> !#[trigger] views@[j].has_name(n@),
        decreases views.len() - i,
    {
        let found = match &views[i].name {
            Some(s) => str_eq(s.as_str(), n),
            None => false,
        };
        if found {
            return Some(i);
        }
        i += 1;
    }
    None
}

/// How a view is listed: its name, or `(unnamed)`.
pub open spec fn view_label(name: Option<String>) -> Seq<char> {
    match name {
        Some(n) => n@,
        None => "(unnamed)"@,
    }
}

/// The top-level `.base` file. Formula and property entries keep document
/// order; when a name occurs twice, the later entry is the one that counts.
#[derive(Debug)]
pub struct BaseFile {
    pub filters: Option<FilterNode>,
    pub formulas: Vec<(String, String)>,
    pub properties: Vec<(String, PropertyConfig)>,
    pub views: Vec<View>,
}

/// Model of a base file.
pub struct BaseFileV {
    pub filters: Option<FilterNodeV>,
    pub formulas: Seq<(Seq<char>, Seq<char>)>,
    pub properties: Seq<(Seq<char>, Option<Seq<char>>)>,
    pub views: Seq<ViewV>,
}

pub open spec fn formulas_view(v: Vec<(String, String)>) -> Seq<(Seq<char>, Seq<char>)> {
    v@.map_values(|p: (String, String)| (p.0@, p.1@))
}

pub open spec fn properties_view(v: Vec<(String, PropertyConfig)>) -> Seq<
    (Seq<char>, Option<Seq<char>>),
> {
    v@.map_values(|p: (String, PropertyConfig)| (p.0@, p.1@))
}

pub open spec fn views_view(v: Vec<View>) -> Seq<ViewV> {
    v@.map_values(|w: View| w@)
}

impl vstd::prelude::View for BaseFile {
    type V = BaseFileV;

    open spec fn view(&self) -> BaseFileV {
        BaseFileV {
            filters: match self.filters {
                Some(f) => Some(f@),
                None => None,
            },
            formulas: formulas_view(self.formulas),
            properties: properties_view(self.properties),
            views: views_view(self.views),
        }
    }
}

pub open spec fn formula_step_fn() -> spec_fn(
    Seq<(Seq<char>, Seq<char>)>,
    (YamlValue, YamlValue),
) -> Option<Seq<(Seq<char>, Seq<char>)>> {
    |acc: Seq<(Seq<char>, Seq<char>)>, e: (YamlValue, YamlValue)|
        Some(
            match (str_of(e.0), str_of(e.1)) {
                (Some(k), Some(body)) => acc.push((k, body)),
                _ => acc,
            },
        )
}

pub open spec fn property_step_fn() -> spec_fn(
    Seq<(Seq<char>, Option<Seq<char>>)>,
    (YamlValue, YamlValue),
) -> Option<Seq<(Seq<char>, Option<Seq<char>>)>> {
    |acc: Seq<(Seq<char>, Option<Seq<char>>)>, e: (YamlValue, YamlValue)|
        Some(
            match (str_of(e.0), decode_property(e.1)) {
                (Some(k), Some(p)) => acc.push((k, p)),
                _ => acc,
            },
        )
}

pub open spec fn view_step_fn() -> spec_fn(Seq<ViewV>, YamlValue) -> Option<Seq<ViewV>> {
    |acc: Seq<ViewV>, x: YamlValue|
        match decode_view(x) {
            Some(w) => Some(acc.push(w)),
            None => None,
        }
}

/// Entries of a mapping-valued field, folded with an always-succeeding step;
/// empty when the field is absent or not a mapping.
pub open spec fn mapping_field<S>(
    field: Option<YamlValue>,
    step: spec_fn(Seq<S>, (YamlValue, YamlValue)) -> Option<Seq<S>>,
) -> Seq<S> {
    match field {
        Some(f) => match untag(f) {
            YamlValue::Mapping(es) => match fold_opt(es@, Seq::empty(), step) {
                Some(x) => x,
                None => Seq::empty(),
            },
            _ => Seq::empty(),
        },
        None => Seq::empty(),
    }
}

/// Decoding of a base file: a mapping whose `filters` must decode when
/// present, whose `formulas` keep the entries with a string key and a string
/// body, whose `properties` keep the entries with a string key and decodable
/// settings, and whose `views` (when a sequence) must all decode.
pub open spec fn decode_base(v: YamlValue) -> Option<BaseFileV> {
    match untag(v) {
        YamlValue::Mapping(entries) => {
            let es = entries@;
            let filters = optional_field(lookup(es, "filters"@), |x: YamlValue| decode_filter(x));
            let formulas = mapping_field(lookup(es, "formulas"@), formula_step_fn());
            let properties = mapping_field(lookup(es, "properties"@), property_step_fn());
            let views = match lookup(es, "views"@) {
                Some(w) => match untag(w) {
                    YamlValue::Sequence(items) => fold_opt(items@, Seq::empty(), view_step_fn()),
                    _ => Some(Seq::empty()),
                },
                None => Some(Seq::empty()),
            };
            match (filters, views) {
                (Some(f), Some(ws)) => Some(
                    BaseFileV { filters: f, formulas, properties, views: ws },
                ),
                _ => None,
            }
        },
        _ => None,
    }
}

fn formulas_exec(field: Option<&YamlValue>) -> (r: Vec<(String, String)>)
    ensures
        formulas_view(r) == mapping_field(
            match field {
                Some(f) => Some(*f),
                None => None,
            },
            formula_step_fn(),
        ),
{
    let mut out: Vec<(String, String)> = Vec::new();
    let entries = match field {
        Some(f) => match f.as_mapping() {
            Some(es) => es,
            None => {
                return out;
            },
        },
        None => {
            return out;
        },
    };
    let ghost init: Seq<(Seq<char>, Seq<char>)> = Seq::empty();
    let mut i: usize = 0;
    while i < entries.len()
        invariant
            0 <= i <= entries.len(),
            init == Seq::<(Seq<char>, Seq<char>)>::empty(),
            fold_opt(entries@.take(i as int), init, formula_step_fn()) == Some(formulas_view(out)),
        decreases entries.len() - i,
    {
        let ghost acc0 = formulas_view(out);
        let ghost e = entries@[i as int];
        proof {
            lemma_fold_opt_step(entries@, init, formula_step_fn(), i as int);
            assert(formula_step_fn()(acc0, e) == Some(
                match (str_of(e.0), str_of(e.1)) {
                    (Some(k), Some(body)) => acc0.push((k, body)),
                    _ => acc0,
                },
            ));
        }
        match (entries[i].0.as_str(), entries[i].1.as_str()) {
            (Some(k), Some(body)) => {
                let ghost prev = out@;
                out.push((k.clone(), body.clone()));
                assert(formulas_view(out) =~= prev.map_values(
                    |p: (String, String)| (p.0@, p.1@),
                ).push((k@, body@)));
            },
            _ => {},
        }
        i += 1;
    }
    proof {
        lemma_fold_opt_full(entries@, init, formula_step_fn());
    }
    out
}

fn properties_exec(field: Option<&YamlValue>) -> (r: Vec<(String, PropertyConfig)>)
    ensures
        properties_view(r) == mapping_field(
            match field {
                Some(f) => Some(*f),
                None => None,
            },
            property_step_fn(),
        ),
{
    let mut out: Vec<(String, PropertyConfig)> = Vec::new();
    let entries = match field {
        Some(f) => match f.as_mapping() {
            Some(es) => es,
            None => {
                return out;
            },
        },
        None => {
            return out;
        },
    };
    let ghost init: Seq<(Seq<char>, Option<Seq<char>>)> = Seq::empty();
    let mut i: usize = 0;
    while i < entries.len()
        invariant
            0 <= i <= entries.len(),
            init == Seq::<(Seq<char>, Option<Seq<char>>)>::empty(),
            fold_opt(entries@.take(i as int), init, property_step_fn()) == Some(
                properties_view(out),
            ),
        decreases entries.len() - i,
    {
        let ghost acc0 = properties_view(out);
        let ghost e = entries@[i as int];
        proof {
            lemma_fold_opt_step(entries@, init, property_step_fn(), i as int);
            assert(property_step_fn()(acc0, e) == Some(
                match (str_of(e.0), decode_property(e.1)) {
                    (Some(k), Some(p)) => acc0.push((k, p)),
                    _ => acc0,
                },
            ));
        }
        match entries[i].0.as_str() {
            Some(k) => match decode_property_exec(&entries[i].1) {
                Some(p) => {
                    let ghost prev = out@;
                    let ghost pv = p@;
                    out.push((k.clone(), p));
                    assert(properties_view(out) =~= prev.map_values(
                        |p: (String, PropertyConfig)| (p.0@, p.1@),
                    ).push((k@, pv)));
                },
                None => {},
            },
            None => {},
        }
        i += 1;
    }
    proof {
        lemma_fold_opt_full(entries@, init, property_step_fn());
    }
    out
}

fn views_exec(items: &Vec<YamlValue>) -> (r: Result<Vec<View>, CrabaseError>)
    ensures
        match fold_opt(items@, Seq::empty(), view_step_fn()) {
            Some(ws) => r is Ok && views_view(r->Ok_0) == ws,
            None => r is Err && r->Err_0 is BaseFile,
        },
{
    let ghost init: Seq<ViewV> = Seq::empty();
    let mut out: Vec<View> = Vec::new();
    let mut i: usize = 0;
    while i < items.len()
        invariant
            0 <= i <= items.len(),
            init == Seq::<ViewV>::empty(),
            fold_opt(items@.take(i as int), init, view_step_fn()) == Some(views_view(out)),
        decreases items.len() - i,
    {
        let ghost acc0 = views_view(out);
        proof {
            lemma_fold_opt_step(items@, init, view_step_fn(), i as int);
            assert(view_step_fn()(acc0, items@[i as int]) == (match decode_view(items@[i as int]) {
                Some(w) => Some(acc0.push(w)),
                None => None,
            }));
        }
        match View::from_yaml(&items[i]) {
            Ok(w) => {
                let ghost prev = out@;
                let ghost wv = w@;
                out.push(w);
                assert(views_view(out) =~= prev.map_values(|w: View| w@).push(wv));
            },
            Err(e) => {
                proof {
                    lemma_fold_opt_prefix_fails(items@, init, view_step_fn(), i as int + 1);
                }
                return Err(e);
            },
        }
        i += 1;
    }
    proof {
        lemma_fold_opt_full(items@, init, view_step_fn());
    }
    Ok(out)
}

impl BaseFile {
    /// Decode a base file from its YAML document.
    pub fn from_yaml(value: &YamlValue) -> (r: Result<BaseFile, CrabaseError>)
        ensures
            decoded(r, decode_base(*value)),
    {
        let entries = match value.as_mapping() {
            Some(e) => e,
            None => {
                return Err(format_error("Base file must be a YAML mapping at root"));
            },
        };
        let filters = match mapping_get(entries, "filters") {
            Some(f) => match FilterNode::from_yaml(f) {
                Ok(x) => Some(x),
                Err(e) => {
                    return Err(e);
                },
            },
            None => None,
        };
        let formulas = formulas_exec(mapping_get(entries, "formulas"));
        let properties = properties_exec(mapping_get(entries, "properties"));
        let views = match mapping_get(entries, "views") {
            Some(w) => match w.as_sequence() {
                Some(items) => match views_exec(items) {
                    Ok(vs) => vs,
                    Err(e) => {
                        return Err(e);
                    },
                },
                None => Vec::new(),
            },
            None => Vec::new(),
        };
        let r = BaseFile { filters, formulas, properties, views };
        proof {
            assert(views_view(r.views) =~= (match lookup(entries@, "views"@) {
                Some(w) => match untag(w) {
                    YamlValue::Sequence(items) => fold_opt(items@, Seq::empty(), view_step_fn()),
                    _ => Some(Seq::<ViewV>::empty()),
                },
                None => Some(Seq::<ViewV>::empty()),
            })->0);
        }
        Ok(r)
    }

    /// The line that lists each view: its name, or `(unnamed)` for a view
    /// without one, in the order of the views.
    pub fn view_labels(&self) -> (r: Vec<String>)
        ensures
            r@.len() == self.views@.len(),
            forall|i: int|
                0 <= i < r@.len() ==> #[trigger] r@[i]@ == view_label(self.views@[i].name),
    {
        let mut r: Vec<String> = Vec::new();
        let mut i: usize = 0;
        while i < self.views.len()
            invariant
                0 <= i <= self.views@.len(),
                r@.len() == i,
                forall|k: int| 0 <= k < i ==> #[trigger] r@[k]@ == view_label(self.views@[k].name),
            decreases self.views@.len() - i,
        {
            let label = match &self.views[i].name {
                Some(n) => n.clone(),
                None => String::from_str("(unnamed)"),
            };
            r.push(label);
            i += 1;
        }
        r
    }

    /// The view named `name`, or the first view when no name is given.
    pub fn get_view(&self, name: Option<&str>) -> (r: Result<&View, CrabaseError>)
        ensures
            match name {
                Some(n) => {
                    &&& r is Ok <==> exists|i: int|
                        0 <= i < self.views@.len() && #[trigger] self.views@[i].has_name(n@)
                    &&& r is Ok ==> exists|i: int|
                        0 <= i < self.views@.len() && r->Ok_0 == &self.views@[i]
                            && self.views@[i].has_name(n@) && forall|j: int|
                            0 <= j < i ==> !#[trigger] self.views@[j].has_name(n@)
                    &&& r is Err ==> (r->Err_0 matches CrabaseError::ViewNotFound(s) && s@ == n@)
                },
                None => if self.views@.len() > 0 {
                    r == Ok::<&View, CrabaseError>(&self.views@[0])
                } else {
                    r is Err && r->Err_0 is NoViews
                },
            },
    {
        match name {
            Some(n) => match find_view(&self.views, n) {
                Some(i) => {
                    let w = &self.views[i];
                    assert(self.views@[i as int].has_name(n@));
                    Ok(w)
                },
                None => Err(CrabaseError::ViewNotFound(n.to_owned())),
            },
            None => {
                if self.views.len() > 0 {
                    let x = &self.views[0];
                    assert(*x == self.views@[0]);
                    Ok(x)
                } else {
                    Err(CrabaseError::NoViews)
                }
            },
        }
    }
}

} // verus!
