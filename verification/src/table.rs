//! The vault as a table: one row per note, the file-metadata columns first,
//! then one typed column per frontmatter key.
use vstd::prelude::*;

use crate::dates::{naive_date_days, naive_datetime_micros, parse_date_days, parse_datetime_micros};
use crate::vault::{
    CanvasLinks, ColumnKind, LinkedNote, cell_text, extract_frontmatter_link_values,
    extract_frontmatter_tags, extract_inline_frontmatter_wikilinks, extract_inline_tags,
    extract_wikilinks, frontmatter_inline_links, frontmatter_link_values, frontmatter_tags,
    lines_from, strip_wikilink, strip_wikilink_spec, strs, tags_of_lines, value_as_bool,
    value_as_i64, value_as_string_cell, value_i64_spec, wikilinks, yaml_value_to_string_cell,
};
use crate::text::{seq_lt, sorted_distinct, str_eq, strictly_sorted, views_of};
use crate::expr::translate::{InferredType, VaultSchema};
use crate::yaml::YamlValue;

verus! {

// ---------- Notes ----------

/// A note as read from the vault: what link resolution needs (its path,
/// stem, folder and every link it mentions, frontmatter strings included),
/// its file facts, its frontmatter (keys in sorted order), its tags and the
/// links it exposes as `file.links`.
#[derive(Debug)]
pub struct NoteFile {
    pub note: LinkedNote,
    pub ext: String,
    pub size: u64,
    /// Microseconds since the epoch, in local time.
    pub ctime: Option<i64>,
    pub mtime: Option<i64>,
    pub frontmatter: Vec<(String, YamlValue)>,
    pub tags: Vec<String>,
    pub links: Vec<String>,
}

/// `s` without repeats, each kept where it first occurs.
pub open spec fn dedup_spec(s: Seq<Seq<char>>) -> Seq<Seq<char>>
    decreases s.len(),
{
    if s.len() == 0 {
        Seq::empty()
    } else {
        let p = dedup_spec(s.drop_last());
        if p.contains(s.last()) {
            p
        } else {
            p.push(s.last())
        }
    }
}

fn contains_str(v: &Vec<String>, x: &str) -> (r: bool)
    ensures
        r == strs(v@).contains(x@),
{
    let mut i: usize = 0;
    while i < v.len()
        invariant
            0 <= i <= v.len(),
            forall|k: int| 0 <= k < i ==> v@[k]@ != x@,
        decreases v.len() - i,
    {
        if str_eq(v[i].as_str(), x) {
            assert(strs(v@)[i as int] == x@);
            return true;
        }
        i += 1;
    }
    assert forall|k: int| 0 <= k < strs(v@).len() implies strs(v@)[k] != x@ by {
        assert(strs(v@)[k] == v@[k]@);
    }
    false
}

fn dedup_first(v: &Vec<String>) -> (r: Vec<String>)
    ensures
        strs(r@) == dedup_spec(strs(v@)),
{
    let ghost sv = strs(v@);
    let mut out: Vec<String> = Vec::new();
    let mut i: usize = 0;
    assert(sv.take(0) =~= Seq::<Seq<char>>::empty());
    assert(strs(out@) =~= Seq::<Seq<char>>::empty());
    while i < v.len()
        invariant
            0 <= i <= v.len(),
            sv == strs(v@),
            strs(out@) == dedup_spec(sv.take(i as int)),
        decreases v.len() - i,
    {
        assert(sv.take(i + 1).drop_last() =~= sv.take(i as int));
        assert(sv.take(i + 1).last() == v@[i as int]@);
        if !contains_str(&out, v[i].as_str()) {
            let ghost before = out@;
            out.push(v[i].clone());
            assert(strs(out@) =~= strs(before).push(v@[i as int]@));
        }
        i += 1;
    }
    assert(sv.take(v.len() as int) =~= sv);
    out
}

/// The tags of a note: its frontmatter tags, then the inline tags of its
/// body, each once.
pub open spec fn note_tags(fm: Seq<(String, YamlValue)>, body: Seq<char>) -> Seq<Seq<char>> {
    dedup_spec(frontmatter_tags(fm) + tags_of_lines(lines_from(body, 0)))
}

/// The links a note exposes: frontmatter values that are a single link,
/// then the wikilinks of its body.
pub open spec fn note_links(fm: Seq<(String, YamlValue)>, body: Seq<char>) -> Seq<Seq<char>> {
    frontmatter_link_values(fm) + wikilinks(body)
}

/// A note from its file facts, its frontmatter and its body.
pub fn read_note(
    rel_path: String,
    stem: String,
    ext: String,
    folder: String,
    size: u64,
    ctime: Option<i64>,
    mtime: Option<i64>,
    frontmatter: Vec<(String, YamlValue)>,
    body: &str,
) -> (r: NoteFile)
    ensures
        r.note.rel_path == rel_path,
        r.note.stem == stem,
        r.note.folder == folder,
        r.ext == ext,
        r.size == size,
        r.ctime == ctime,
        r.mtime == mtime,
        r.frontmatter == frontmatter,
        strs(r.tags@) == note_tags(frontmatter@, body@),
        strs(r.links@) == note_links(frontmatter@, body@),
        strs(r.note.links@) == note_links(frontmatter@, body@) + frontmatter_inline_links(frontmatter@),
{
    let mut all_tags = extract_frontmatter_tags(&frontmatter);
    let mut inline = extract_inline_tags(body);
    let ghost t0 = all_tags@;
    let ghost t1 = inline@;
    all_tags.append(&mut inline);
    assert(strs(all_tags@) =~= strs(t0) + strs(t1));
    let tags = dedup_first(&all_tags);
    let mut links = extract_frontmatter_link_values(&frontmatter);
    let mut body_links = extract_wikilinks(body);
    let ghost l0 = links@;
    let ghost l1 = body_links@;
    links.append(&mut body_links);
    assert(strs(links@) =~= strs(l0) + strs(l1));
    let mut all_links: Vec<String> = Vec::new();
    let mut i: usize = 0;
    while i < links.len()
        invariant
            0 <= i <= links.len(),
            strs(all_links@) == strs(links@).take(i as int),
        decreases links.len() - i,
    {
        let ghost before = all_links@;
        all_links.push(links[i].clone());
        assert(strs(all_links@) =~= strs(before).push(links@[i as int]@));
        assert(strs(links@).take(i + 1) =~= strs(links@).take(i as int).push(links@[i as int]@));
        i += 1;
    }
    assert(strs(links@).take(links.len() as int) =~= strs(links@));
    let mut inline_fm = extract_inline_frontmatter_wikilinks(&frontmatter);
    let ghost a0 = all_links@;
    let ghost a1 = inline_fm@;
    all_links.append(&mut inline_fm);
    assert(strs(all_links@) =~= strs(a0) + strs(a1));
    NoteFile {
        note: LinkedNote { rel_path, stem, folder, links: all_links },
        ext,
        size,
        ctime,
        mtime,
        frontmatter,
        tags,
        links,
    }
}

// ---------- Cells ----------

/// A float cell, by the text the engine reads as a float: numbers by their
/// decimal rendering, booleans as 1 and 0, strings as they are (a string
/// that does not read as a float gives null); anything else null.
pub open spec fn float_text_spec(v: YamlValue) -> Option<Seq<char>> {
    match v {
        YamlValue::Number(_) => Some(cell_text(v)),
        YamlValue::Bool(b) => Some(
            if b {
                "1"@
            } else {
                "0"@
            },
        ),
        YamlValue::String(s) => Some(s@),
        _ => None,
    }
}

fn float_text(v: &YamlValue) -> (r: Option<String>)
    ensures
        match float_text_spec(*v) {
            Some(t) => r is Some && r->0@ == t,
            None => r is None,
        },
{
    match v {
        YamlValue::Number(_) => Some(yaml_value_to_string_cell(v)),
        YamlValue::Bool(b) => Some(String::from_str(if *b { "1" } else { "0" })),
        YamlValue::String(s) => Some(s.clone()),
        _ => None,
    }
}

pub open spec fn micros_per_day() -> int {
    86400000000
}

/// The calendar day of a timestamp, in days since the epoch.
pub open spec fn day_of(m: i64) -> i32 {
    (m as int / micros_per_day()) as i32
}

/// A date cell: a string (a link wrapper removed) read as a date, else as a
/// date-time with a space or a `T` whose day is taken; anything else null.
pub open spec fn date_cell_spec(v: YamlValue) -> Option<i32> {
    match v {
        YamlValue::String(s) => {
            let st = strip_wikilink_spec(s@);
            match naive_date_days(st, "%Y-%m-%d"@) {
                Some(d) => Some(d),
                None => match naive_datetime_micros(st, "%Y-%m-%d %H:%M:%S"@) {
                    Some(m) => Some(day_of(m)),
                    None => match naive_datetime_micros(st, "%Y-%m-%dT%H:%M:%S"@) {
                        Some(m) => Some(day_of(m)),
                        None => None,
                    },
                },
            }
        },
        _ => None,
    }
}

/// Midnight of a day as a timestamp, when it is one.
pub open spec fn midnight(d: i32) -> Option<i64> {
    let m = d as int * micros_per_day();
    if i64::MIN <= m <= i64::MAX {
        Some(m as i64)
    } else {
        None
    }
}

/// A date-time cell: a string (a link wrapper removed) read as a date-time
/// with a space or a `T`, else as a date at midnight; anything else null.
pub open spec fn datetime_cell_spec(v: YamlValue) -> Option<i64> {
    match v {
        YamlValue::String(s) => {
            let st = strip_wikilink_spec(s@);
            match naive_datetime_micros(st, "%Y-%m-%d %H:%M:%S"@) {
                Some(m) => Some(m),
                None => match naive_datetime_micros(st, "%Y-%m-%dT%H:%M:%S"@) {
                    Some(m) => Some(m),
                    None => match naive_date_days(st, "%Y-%m-%d"@) {
                        Some(d) => midnight(d),
                        None => None,
                    },
                },
            }
        },
        _ => None,
    }
}

fn day_of_exec(m: i64) -> (r: i32)
    ensures
        r == day_of(m),
{
    let d: i64 = 86400000000;
    let q = m / d;
    let q = if m % d < 0 {
        q - 1
    } else {
        q
    };
    assert(q == m as int / micros_per_day()) by (nonlinear_arith)
        requires
            d == 86400000000,
            q == (if m % d < 0 { m / d - 1 } else { m / d }),
    ;
    assert(-106751992 <= q <= 106751991) by (nonlinear_arith)
        requires
            q == m as int / 86400000000,
            i64::MIN <= m <= i64::MAX,
    ;
    q as i32
}

fn date_cell(v: &YamlValue) -> (r: Option<i32>)
    ensures
        r == date_cell_spec(*v),
{
    match v {
        YamlValue::String(s) => {
            let st = strip_wikilink(s.as_str());
            proof {
                crate::dates::lemma_datetime_patterns();
            }
            match parse_date_days(st.as_str(), "%Y-%m-%d") {
                Some(d) => Some(d),
                None => match parse_datetime_micros(st.as_str(), "%Y-%m-%d %H:%M:%S") {
                    Some(m) => Some(day_of_exec(m)),
                    None => match parse_datetime_micros(st.as_str(), "%Y-%m-%dT%H:%M:%S") {
                        Some(m) => Some(day_of_exec(m)),
                        None => None,
                    },
                },
            }
        },
        _ => None,
    }
}

fn datetime_cell(v: &YamlValue) -> (r: Option<i64>)
    ensures
        r == datetime_cell_spec(*v),
{
    match v {
        YamlValue::String(s) => {
            let st = strip_wikilink(s.as_str());
            proof {
                crate::dates::lemma_datetime_patterns();
            }
            match parse_datetime_micros(st.as_str(), "%Y-%m-%d %H:%M:%S") {
                Some(m) => Some(m),
                None => match parse_datetime_micros(st.as_str(), "%Y-%m-%dT%H:%M:%S") {
                    Some(m) => Some(m),
                    None => match parse_date_days(st.as_str(), "%Y-%m-%d") {
                        Some(d) => (d as i64).checked_mul(86400000000),
                        None => None,
                    },
                },
            }
        },
        _ => None,
    }
}

/// A list cell: a sequence as the texts of its items, null as null, any
/// other value as a one-item list of its text.
pub open spec fn list_items_spec(v: YamlValue) -> Option<Seq<Seq<char>>> {
    match v {
        YamlValue::Sequence(items) => Some(items@.map_values(|x: YamlValue| cell_text(x))),
        YamlValue::Null => None,
        _ => Some(seq![cell_text(v)]),
    }
}

fn list_items(v: &YamlValue) -> (r: Option<Vec<String>>)
    ensures
        match list_items_spec(*v) {
            Some(t) => r is Some && strs(r->0@) == t,
            None => r is None,
        },
{
    match v {
        YamlValue::Sequence(items) => {
            let mut out: Vec<String> = Vec::new();
            let mut i: usize = 0;
            while i < items.len()
                invariant
                    0 <= i <= items.len(),
                    strs(out@) == items@.take(i as int).map_values(|x: YamlValue| cell_text(x)),
                decreases items.len() - i,
            {
                let ghost before = out@;
                out.push(yaml_value_to_string_cell(&items[i]));
                assert(strs(out@) =~= strs(before).push(cell_text(items@[i as int])));
                assert(items@.take(i + 1).map_values(|x: YamlValue| cell_text(x)) =~= items@.take(
                    i as int,
                ).map_values(|x: YamlValue| cell_text(x)).push(cell_text(items@[i as int])));
                i += 1;
            }
            assert(items@.take(items.len() as int) =~= items@);
            Some(out)
        },
        YamlValue::Null => None,
        _ => {
            let mut out: Vec<String> = Vec::new();
            out.push(yaml_value_to_string_cell(v));
            assert(strs(out@) =~= seq![cell_text(*v)]);
            Some(out)
        },
    }
}

// ---------- Columns ----------

/// The cells of one frontmatter column, by type.
#[derive(Debug)]
pub enum ColumnData {
    Int64(Vec<Option<i64>>),
    /// Float cells by the text the engine reads as a float.
    Float64(Vec<Option<String>>),
    Boolean(Vec<Option<bool>>),
    /// Days since 1970-01-01.
    Date(Vec<Option<i32>>),
    /// Microseconds since 1970-01-01T00:00:00.
    Datetime(Vec<Option<i64>>),
    StringList(Vec<Option<Vec<String>>>),
    String(Vec<Option<String>>),
}

pub enum ColumnDataV {
    Int64(Seq<Option<i64>>),
    Float64(Seq<Option<Seq<char>>>),
    Boolean(Seq<Option<bool>>),
    Date(Seq<Option<i32>>),
    Datetime(Seq<Option<i64>>),
    StringList(Seq<Option<Seq<Seq<char>>>>),
    String(Seq<Option<Seq<char>>>),
}

pub open spec fn opt_str(o: Option<String>) -> Option<Seq<char>> {
    match o {
        Some(s) => Some(s@),
        None => None,
    }
}

pub open spec fn opt_strs(o: Option<Vec<String>>) -> Option<Seq<Seq<char>>> {
    match o {
        Some(v) => Some(strs(v@)),
        None => None,
    }
}

impl vstd::prelude::View for ColumnData {
    type V = ColumnDataV;

    open spec fn view(&self) -> ColumnDataV {
        match self {
            ColumnData::Int64(v) => ColumnDataV::Int64(v@),
            ColumnData::Float64(v) => ColumnDataV::Float64(v@.map_values(|o: Option<String>| opt_str(o))),
            ColumnData::Boolean(v) => ColumnDataV::Boolean(v@),
            ColumnData::Date(v) => ColumnDataV::Date(v@),
            ColumnData::Datetime(v) => ColumnDataV::Datetime(v@),
            ColumnData::StringList(v) => ColumnDataV::StringList(
                v@.map_values(|o: Option<Vec<String>>| opt_strs(o)),
            ),
            ColumnData::String(v) => ColumnDataV::String(v@.map_values(|o: Option<String>| opt_str(o))),
        }
    }
}

/// A string cell: null for null, the value's text otherwise.
pub open spec fn string_cell_spec(v: YamlValue) -> Option<Seq<char>> {
    match v {
        YamlValue::Null => None,
        _ => Some(cell_text(v)),
    }
}

pub open spec fn bool_cell_spec(v: YamlValue) -> Option<bool> {
    match v {
        YamlValue::Bool(b) => Some(b),
        _ => None,
    }
}

/// The cells of a column of type `kind` holding `values`.
pub open spec fn column_data_spec(kind: ColumnKind, values: Seq<YamlValue>) -> ColumnDataV {
    match kind {
        ColumnKind::Int64 => ColumnDataV::Int64(values.map_values(|v: YamlValue| value_i64_spec(v))),
        ColumnKind::Float64 => ColumnDataV::Float64(values.map_values(|v: YamlValue| float_text_spec(v))),
        ColumnKind::Boolean => ColumnDataV::Boolean(values.map_values(|v: YamlValue| bool_cell_spec(v))),
        ColumnKind::Date => ColumnDataV::Date(values.map_values(|v: YamlValue| date_cell_spec(v))),
        ColumnKind::Datetime => ColumnDataV::Datetime(values.map_values(|v: YamlValue| datetime_cell_spec(v))),
        ColumnKind::StringList => ColumnDataV::StringList(values.map_values(|v: YamlValue| list_items_spec(v))),
        ColumnKind::String => ColumnDataV::String(values.map_values(|v: YamlValue| string_cell_spec(v))),
    }
}

/// The cells of a column of type `kind` holding `values`.
pub fn column_data(kind: ColumnKind, values: &Vec<&YamlValue>) -> (r: ColumnData)
    ensures
        r@ == column_data_spec(kind, crate::vault::deref_all(values@)),
{
    let ghost vs = crate::vault::deref_all(values@);
    let n = values.len();
    match kind {
        ColumnKind::Int64 => {
            let mut out: Vec<Option<i64>> = Vec::new();
            let mut i: usize = 0;
            while i < n
                invariant
                    0 <= i <= n == values.len(),
                    vs == crate::vault::deref_all(values@),
                    out@ == vs.take(i as int).map_values(|v: YamlValue| value_i64_spec(v)),
                decreases n - i,
            {
                out.push(value_as_i64(values[i]));
                assert(vs.take(i + 1).map_values(|v: YamlValue| value_i64_spec(v)) =~= vs.take(i as int).map_values(
                    |v: YamlValue| value_i64_spec(v),
                ).push(value_i64_spec(vs[i as int])));
                i += 1;
            }
            assert(vs.take(n as int) =~= vs);
            ColumnData::Int64(out)
        },
        ColumnKind::Float64 => {
            let mut out: Vec<Option<String>> = Vec::new();
            let mut i: usize = 0;
            while i < n
                invariant
                    0 <= i <= n == values.len(),
                    vs == crate::vault::deref_all(values@),
                    out@.map_values(|o: Option<String>| opt_str(o)) == vs.take(i as int).map_values(
                        |v: YamlValue| float_text_spec(v),
                    ),
                decreases n - i,
            {
                let ghost before = out@;
                let c = float_text(values[i]);
                out.push(c);
                assert(out@.map_values(|o: Option<String>| opt_str(o)) =~= before.map_values(
                    |o: Option<String>| opt_str(o),
                ).push(opt_str(c)));
                assert(vs.take(i + 1).map_values(|v: YamlValue| float_text_spec(v)) =~= vs.take(i as int).map_values(
                    |v: YamlValue| float_text_spec(v),
                ).push(float_text_spec(vs[i as int])));
                i += 1;
            }
            assert(vs.take(n as int) =~= vs);
            ColumnData::Float64(out)
        },
        ColumnKind::Boolean => {
            let mut out: Vec<Option<bool>> = Vec::new();
            let mut i: usize = 0;
            while i < n
                invariant
                    0 <= i <= n == values.len(),
                    vs == crate::vault::deref_all(values@),
                    out@ == vs.take(i as int).map_values(|v: YamlValue| bool_cell_spec(v)),
                decreases n - i,
            {
                out.push(value_as_bool(values[i]));
                assert(vs.take(i + 1).map_values(|v: YamlValue| bool_cell_spec(v)) =~= vs.take(i as int).map_values(
                    |v: YamlValue| bool_cell_spec(v),
                ).push(bool_cell_spec(vs[i as int])));
                i += 1;
            }
            assert(vs.take(n as int) =~= vs);
            ColumnData::Boolean(out)
        },
        ColumnKind::Date => {
            let mut out: Vec<Option<i32>> = Vec::new();
            let mut i: usize = 0;
            while i < n
                invariant
                    0 <= i <= n == values.len(),
                    vs == crate::vault::deref_all(values@),
                    out@ == vs.take(i as int).map_values(|v: YamlValue| date_cell_spec(v)),
                decreases n - i,
            {
                out.push(date_cell(values[i]));
                assert(vs.take(i + 1).map_values(|v: YamlValue| date_cell_spec(v)) =~= vs.take(i as int).map_values(
                    |v: YamlValue| date_cell_spec(v),
                ).push(date_cell_spec(vs[i as int])));
                i += 1;
            }
            assert(vs.take(n as int) =~= vs);
            ColumnData::Date(out)
        },
        ColumnKind::Datetime => {
            let mut out: Vec<Option<i64>> = Vec::new();
            let mut i: usize = 0;
            while i < n
                invariant
                    0 <= i <= n == values.len(),
                    vs == crate::vault::deref_all(values@),
                    out@ == vs.take(i as int).map_values(|v: YamlValue| datetime_cell_spec(v)),
                decreases n - i,
            {
                out.push(datetime_cell(values[i]));
                assert(vs.take(i + 1).map_values(|v: YamlValue| datetime_cell_spec(v)) =~= vs.take(i as int).map_values(
                    |v: YamlValue| datetime_cell_spec(v),
                ).push(datetime_cell_spec(vs[i as int])));
                i += 1;
            }
            assert(vs.take(n as int) =~= vs);
            ColumnData::Datetime(out)
        },
        ColumnKind::StringList => {
            let mut out: Vec<Option<Vec<String>>> = Vec::new();
            let mut i: usize = 0;
            while i < n
                invariant
                    0 <= i <= n == values.len(),
                    vs == crate::vault::deref_all(values@),
                    out@.map_values(|o: Option<Vec<String>>| opt_strs(o)) == vs.take(i as int).map_values(
                        |v: YamlValue| list_items_spec(v),
                    ),
                decreases n - i,
            {
                let ghost before = out@;
                let c = list_items(values[i]);
                let ghost cv = opt_strs(c);
                out.push(c);
                assert(out@.map_values(|o: Option<Vec<String>>| opt_strs(o)) =~= before.map_values(
                    |o: Option<Vec<String>>| opt_strs(o),
                ).push(cv));
                assert(vs.take(i + 1).map_values(|v: YamlValue| list_items_spec(v)) =~= vs.take(i as int).map_values(
                    |v: YamlValue| list_items_spec(v),
                ).push(list_items_spec(vs[i as int])));
                i += 1;
            }
            assert(vs.take(n as int) =~= vs);
            ColumnData::StringList(out)
        },
        ColumnKind::String => {
            let mut out: Vec<Option<String>> = Vec::new();
            let mut i: usize = 0;
            while i < n
                invariant
                    0 <= i <= n == values.len(),
                    vs == crate::vault::deref_all(values@),
                    out@.map_values(|o: Option<String>| opt_str(o)) == vs.take(i as int).map_values(
                        |v: YamlValue| string_cell_spec(v),
                    ),
                decreases n - i,
            {
                let ghost before = out@;
                let c = value_as_string_cell(values[i]);
                out.push(c);
                assert(out@.map_values(|o: Option<String>| opt_str(o)) =~= before.map_values(
                    |o: Option<String>| opt_str(o),
                ).push(opt_str(c)));
                assert(vs.take(i + 1).map_values(|v: YamlValue| string_cell_spec(v)) =~= vs.take(i as int).map_values(
                    |v: YamlValue| string_cell_spec(v),
                ).push(string_cell_spec(vs[i as int])));
                i += 1;
            }
            assert(vs.take(n as int) =~= vs);
            ColumnData::String(out)
        },
    }
}

// ---------- The table ----------

/// One frontmatter column: the key, the column's name and its cells.
#[derive(Debug)]
pub struct FrontmatterColumn {
    pub key: String,
    pub name: String,
    pub data: ColumnData,
}

/// The vault as columns, one row per note in the order the notes were read.
#[derive(Debug)]
pub struct VaultTable {
    pub file_path: Vec<String>,
    pub file_name: Vec<String>,
    pub file_folder: Vec<String>,
    pub file_ext: Vec<String>,
    pub file_size: Vec<u64>,
    pub file_ctime: Vec<Option<i64>>,
    pub file_mtime: Vec<Option<i64>>,
    pub file_tags: Vec<Vec<String>>,
    pub file_links: Vec<Vec<String>>,
    pub file_backlinks: Vec<Vec<String>>,
    pub file_path_natkey: Vec<String>,
    pub file_name_natkey: Vec<String>,
    /// In increasing order of key.
    pub frontmatter: Vec<FrontmatterColumn>,
}

/// The file-metadata columns and their types, in column order.
pub open spec fn meta_schema() -> Seq<(Seq<char>, InferredType)> {
    seq![
        ("file_path"@, InferredType::String),
        ("file_name"@, InferredType::String),
        ("file_folder"@, InferredType::String),
        ("file_ext"@, InferredType::String),
        ("file_size"@, InferredType::Int),
        ("file_ctime"@, InferredType::Datetime),
        ("file_mtime"@, InferredType::Datetime),
        ("file_tags"@, InferredType::List),
        ("file_links"@, InferredType::List),
        ("file_backlinks"@, InferredType::List),
        ("file_path_natkey"@, InferredType::String),
        ("file_name_natkey"@, InferredType::String),
    ]
}

/// The expression type of a column type.
pub open spec fn kind_type(k: ColumnKind) -> InferredType {
    match k {
        ColumnKind::Int64 => InferredType::Int,
        ColumnKind::Float64 => InferredType::Float,
        ColumnKind::Boolean => InferredType::Bool,
        ColumnKind::Date => InferredType::Date,
        ColumnKind::Datetime => InferredType::Datetime,
        ColumnKind::StringList => InferredType::List,
        ColumnKind::String => InferredType::String,
    }
}

fn kind_type_exec(k: ColumnKind) -> (r: InferredType)
    ensures
        r == kind_type(k),
{
    match k {
        ColumnKind::Int64 => InferredType::Int,
        ColumnKind::Float64 => InferredType::Float,
        ColumnKind::Boolean => InferredType::Bool,
        ColumnKind::Date => InferredType::Date,
        ColumnKind::Datetime => InferredType::Datetime,
        ColumnKind::StringList => InferredType::List,
        ColumnKind::String => InferredType::String,
    }
}

/// Every frontmatter key of the notes.
pub open spec fn fm_key_set(fms: Seq<Vec<(String, YamlValue)>>) -> Set<Seq<char>> {
    Set::new(
        |x: Seq<char>|
            exists|i: int, j: int| 0 <= i < fms.len() && 0 <= j < fms[i]@.len() && #[trigger] fms[i]@[j].0@ == x,
    )
}

pub open spec fn frontmatters(notes: Seq<NoteFile>) -> Seq<Vec<(String, YamlValue)>> {
    notes.map_values(|n: NoteFile| n.frontmatter)
}

/// The value of `key` in each note's frontmatter, null where it is absent.
pub open spec fn key_values(fms: Seq<Vec<(String, YamlValue)>>, key: Seq<char>) -> Seq<YamlValue> {
    Seq::new(
        fms.len(),
        |i: int|
            match crate::vault::fm_get(fms[i]@, key) {
                Some(v) => v,
                None => YamlValue::Null,
            },
    )
}

/// Two different frontmatter keys would name the same column.
pub open spec fn key_clash(fms: Seq<Vec<(String, YamlValue)>>) -> bool {
    exists|a: Seq<char>, b: Seq<char>|
        a != b && fm_key_set(fms).contains(a) && fm_key_set(fms).contains(b)
            && #[trigger] crate::vault::column_name(a) == #[trigger] crate::vault::column_name(b)
}

pub open spec fn linked_of(notes: Seq<NoteFile>) -> Seq<LinkedNote> {
    notes.map_values(|n: NoteFile| n.note)
}

/// Row `k` of the metadata columns describes note `k`.
pub open spec fn row_ok(t: VaultTable, n: NoteFile, k: int) -> bool {
    &&& t.file_path@[k]@ == n.note.rel_path@
    &&& t.file_name@[k]@ == n.note.stem@
    &&& t.file_folder@[k]@ == n.note.folder@
    &&& t.file_ext@[k]@ == n.ext@
    &&& t.file_size@[k] == n.size
    &&& t.file_ctime@[k] == n.ctime
    &&& t.file_mtime@[k] == n.mtime
    &&& strs(t.file_tags@[k]@) == strs(n.tags@)
    &&& strs(t.file_links@[k]@) == strs(n.links@)
    &&& t.file_path_natkey@[k]@ == crate::vault::key_from(n.note.rel_path@, 0, false)
    &&& t.file_name_natkey@[k]@ == crate::vault::key_from(n.note.stem@, 0, false)
}

pub open spec fn rows_ok(t: VaultTable, notes: Seq<NoteFile>) -> bool {
    &&& t.file_path@.len() == notes.len()
    &&& t.file_name@.len() == notes.len()
    &&& t.file_folder@.len() == notes.len()
    &&& t.file_ext@.len() == notes.len()
    &&& t.file_size@.len() == notes.len()
    &&& t.file_ctime@.len() == notes.len()
    &&& t.file_mtime@.len() == notes.len()
    &&& t.file_tags@.len() == notes.len()
    &&& t.file_links@.len() == notes.len()
    &&& t.file_path_natkey@.len() == notes.len()
    &&& t.file_name_natkey@.len() == notes.len()
    &&& forall|k: int| 0 <= k < notes.len() ==> row_ok(t, #[trigger] notes[k], k)
}

/// The backlinks of each note, as `compute_backlinks` states them.
pub open spec fn backlinks_ok(b: Seq<Vec<String>>, files: Seq<LinkedNote>, canvases: Seq<CanvasLinks>) -> bool {
    &&& b.len() == files.len()
    &&& forall|k: int|
        0 <= k < files.len() ==> if exists|j: int| 0 <= j < k && #[trigger] files[j].rel_path@ == files[k].rel_path@ {
            b[k]@.len() == 0
        } else {
            strictly_sorted(views_of(#[trigger] b[k]@)) && views_of(b[k]@).to_set()
                == crate::vault::backlink_sources(files, canvases, files[k].rel_path@)
        }
}

pub open spec fn column_keys(cs: Seq<FrontmatterColumn>) -> Seq<Seq<char>> {
    cs.map_values(|c: FrontmatterColumn| c.key@)
}

/// Column `c` holds the values of its key, typed as the values suggest.
pub open spec fn column_ok(c: FrontmatterColumn, fms: Seq<Vec<(String, YamlValue)>>) -> bool {
    let vs = key_values(fms, c.key@);
    &&& c.name@ == crate::vault::column_name(c.key@)
    &&& c.data@ == column_data_spec(crate::vault::infer_spec(vs), vs)
}

/// The schema of the table.
pub open spec fn schema_of(cs: Seq<FrontmatterColumn>, fms: Seq<Vec<(String, YamlValue)>>) -> Seq<(Seq<char>, InferredType)> {
    meta_schema() + cs.map_values(
        |c: FrontmatterColumn| (c.name@, kind_type(crate::vault::infer_spec(key_values(fms, c.key@)))),
    )
}

fn collect_keys(fms: &Vec<Vec<(String, YamlValue)>>) -> (r: Vec<String>)
    ensures
        views_of(r@).to_set() == fm_key_set(fms@),
{
    let mut out: Vec<String> = Vec::new();
    let mut i: usize = 0;
    while i < fms.len()
        invariant
            0 <= i <= fms.len(),
            forall|x: Seq<char>|
                views_of(out@).contains(x) <==> exists|a: int, b: int|
                    0 <= a < i && 0 <= b < fms@[a]@.len() && #[trigger] fms@[a]@[b].0@ == x,
        decreases fms.len() - i,
    {
        let fm = &fms[i];
        let mut j: usize = 0;
        while j < fm.len()
            invariant
                0 <= i < fms.len(),
                0 <= j <= fm.len(),
                *fm == fms@[i as int],
                forall|x: Seq<char>|
                    views_of(out@).contains(x) <==> (exists|a: int, b: int|
                        0 <= a < i && 0 <= b < fms@[a]@.len() && #[trigger] fms@[a]@[b].0@ == x) || (exists|b: int|
                        0 <= b < j && #[trigger] fm@[b].0@ == x),
            decreases fm.len() - j,
        {
            let ghost before = out@;
            out.push(fm[j].0.clone());
            proof {
                assert(views_of(out@) =~= views_of(before).push(fm@[j as int].0@));
                assert forall|x: Seq<char>|
                    views_of(out@).contains(x) <==> (exists|a: int, b: int|
                        0 <= a < i && 0 <= b < fms@[a]@.len() && #[trigger] fms@[a]@[b].0@ == x) || (exists|b: int|
                        0 <= b < j + 1 && #[trigger] fm@[b].0@ == x) by {
                    if views_of(out@).contains(x) {
                        let k = choose|k: int| 0 <= k < views_of(out@).len() && views_of(out@)[k] == x;
                        if k < before.len() {
                            assert(views_of(before)[k] == x);
                            assert(views_of(before).contains(x));
                        } else {
                            assert(fm@[j as int].0@ == x);
                        }
                    }
                    if exists|b: int| 0 <= b < j + 1 && #[trigger] fm@[b].0@ == x {
                        let b = choose|b: int| 0 <= b < j + 1 && #[trigger] fm@[b].0@ == x;
                        if b < j {
                            assert(views_of(before).contains(x));
                            let k = choose|k: int| 0 <= k < views_of(before).len() && views_of(before)[k] == x;
                            assert(views_of(out@)[k] == x);
                        } else {
                            assert(views_of(out@)[before.len() as int] == x);
                        }
                    }
                    if exists|a: int, b: int|
                        0 <= a < i && 0 <= b < fms@[a]@.len() && #[trigger] fms@[a]@[b].0@ == x {
                        assert(views_of(before).contains(x));
                        let k = choose|k: int| 0 <= k < views_of(before).len() && views_of(before)[k] == x;
                        assert(views_of(out@)[k] == x);
                    }
                }
            }
            j += 1;
        }
        proof {
            assert forall|x: Seq<char>|
                views_of(out@).contains(x) <==> exists|a: int, b: int|
                    0 <= a < i + 1 && 0 <= b < fms@[a]@.len() && #[trigger] fms@[a]@[b].0@ == x by {
                if exists|b: int| 0 <= b < fm.len() && #[trigger] fm@[b].0@ == x {
                    let b = choose|b: int| 0 <= b < fm.len() && #[trigger] fm@[b].0@ == x;
                    assert(fms@[i as int]@[b].0@ == x);
                }
                if exists|a: int, b: int|
                    0 <= a < i + 1 && 0 <= b < fms@[a]@.len() && #[trigger] fms@[a]@[b].0@ == x {
                    let (a, b) = choose|a: int, b: int|
                        0 <= a < i + 1 && 0 <= b < fms@[a]@.len() && #[trigger] fms@[a]@[b].0@ == x;
                    if a == i {
                        assert(fm@[b].0@ == x);
                    }
                }
            }
        }
        i += 1;
    }
    assert(views_of(out@).to_set() =~= fm_key_set(fms@));
    out
}

proof fn lemma_sorted_distinct_items(s: Seq<Seq<char>>, i: int, j: int)
    requires
        strictly_sorted(s),
        0 <= i < s.len(),
        0 <= j < s.len(),
        i != j,
    ensures
        s[i] != s[j],
{
    if i < j {
        assert(seq_lt(s[i], s[j]));
        if s[i] == s[j] {
            crate::text::lemma_seq_lt_irrefl(s[i]);
        }
    } else {
        assert(seq_lt(s[j], s[i]));
        if s[i] == s[j] {
            crate::text::lemma_seq_lt_irrefl(s[j]);
        }
    }
}

/// For sorted distinct keys that are exactly the frontmatter keys, their
/// columns are distinct unless two keys clash.
proof fn lemma_clash(keys: Seq<String>, fms: Seq<Vec<(String, YamlValue)>>)
    requires
        strictly_sorted(views_of(keys)),
        views_of(keys).to_set() == fm_key_set(fms),
    ensures
        crate::vault::columns_distinct(keys) <==> !key_clash(fms),
{
    let ks = views_of(keys);
    if !crate::vault::columns_distinct(keys) {
        let (i, j) = choose|i: int, j: int|
            0 <= i < j < keys.len() && crate::vault::column_name(#[trigger] keys[i]@) == crate::vault::column_name(
                #[trigger] keys[j]@,
            );
        lemma_sorted_distinct_items(ks, i, j);
        assert(ks[i] == keys[i]@ && ks[j] == keys[j]@);
        assert(ks.to_set().contains(ks[i]));
        assert(ks.to_set().contains(ks[j]));
        assert(key_clash(fms));
    }
    if key_clash(fms) {
        let (a, b) = choose|a: Seq<char>, b: Seq<char>|
            a != b && fm_key_set(fms).contains(a) && fm_key_set(fms).contains(b)
                && #[trigger] crate::vault::column_name(a) == #[trigger] crate::vault::column_name(b);
        assert(ks.to_set().contains(a));
        assert(ks.to_set().contains(b));
        let i = choose|i: int| 0 <= i < ks.len() && ks[i] == a;
        let j = choose|j: int| 0 <= j < ks.len() && ks[j] == b;
        assert(keys[i]@ == a && keys[j]@ == b);
        if i < j {
            assert(!crate::vault::columns_distinct(keys));
        } else {
            assert(!crate::vault::columns_distinct(keys));
        }
    }
}

/// The frontmatter columns for `keys`, with their schema entries and the
/// key-to-column pairs.
fn frontmatter_columns(fms: &Vec<Vec<(String, YamlValue)>>, keys: &Vec<String>, names: &Vec<String>) -> (r: (
    Vec<FrontmatterColumn>,
    Vec<(String, InferredType)>,
    Vec<(String, String)>,
))
    requires
        names@.len() == keys@.len(),
        forall|q: int| 0 <= q < keys@.len() ==> (#[trigger] names@[q])@ == crate::vault::column_name(keys@[q]@),
    ensures
        column_keys(r.0@) == views_of(keys@),
        forall|q: int| 0 <= q < r.0@.len() ==> column_ok(#[trigger] r.0@[q], fms@),
        crate::expr::translate::cols_view(r.1@) == r.0@.map_values(
            |c: FrontmatterColumn| (c.name@, kind_type(crate::vault::infer_spec(key_values(fms@, c.key@)))),
        ),
        crate::expr::translate::pairs_view(r.2@) == r.0@.map_values(|c: FrontmatterColumn| (c.key@, c.name@)),
{
    let mut cols: Vec<FrontmatterColumn> = Vec::new();
    let mut types: Vec<(String, InferredType)> = Vec::new();
    let mut pairs: Vec<(String, String)> = Vec::new();
    let null = YamlValue::Null;
    let mut q: usize = 0;
    while q < keys.len()
        invariant
            0 <= q <= keys.len(),
            names@.len() == keys@.len(),
            forall|q: int| 0 <= q < keys@.len() ==> (#[trigger] names@[q])@ == crate::vault::column_name(keys@[q]@),
            null == YamlValue::Null,
            cols@.len() == q,
            column_keys(cols@) == views_of(keys@).take(q as int),
            forall|p: int| 0 <= p < cols@.len() ==> column_ok(#[trigger] cols@[p], fms@),
            crate::expr::translate::cols_view(types@) == cols@.map_values(
                |c: FrontmatterColumn| (c.name@, kind_type(crate::vault::infer_spec(key_values(fms@, c.key@)))),
            ),
            crate::expr::translate::pairs_view(pairs@) == cols@.map_values(|c: FrontmatterColumn| (c.key@, c.name@)),
        decreases keys.len() - q,
    {
        let key = keys[q].as_str();
        let mut values: Vec<&YamlValue> = Vec::new();
        let mut k: usize = 0;
        while k < fms.len()
            invariant
                0 <= k <= fms.len(),
                null == YamlValue::Null,
                crate::vault::deref_all(values@) == key_values(fms@, key@).take(k as int),
            decreases fms.len() - k,
        {
            let ghost before = values@;
            match crate::vault::fm_get_exec(&fms[k], key) {
                Some(v) => values.push(v),
                None => values.push(&null),
            }
            assert(crate::vault::deref_all(values@) =~= crate::vault::deref_all(before).push(key_values(fms@, key@)[k as int]));
            assert(key_values(fms@, key@).take(k + 1) =~= key_values(fms@, key@).take(k as int).push(key_values(fms@, key@)[k as int]));
            k += 1;
        }
        assert(key_values(fms@, key@).take(fms.len() as int) =~= key_values(fms@, key@));
        let kind = crate::vault::infer_dtype(&values);
        let data = column_data(kind, &values);
        let col = FrontmatterColumn { key: keys[q].clone(), name: names[q].clone(), data };
        let ghost cb = cols@;
        let ghost tb = types@;
        let ghost pb = pairs@;
        types.push((names[q].clone(), kind_type_exec(kind)));
        pairs.push((keys[q].clone(), names[q].clone()));
        cols.push(col);
        proof {
            assert(column_ok(col, fms@));
            assert(cols@ =~= cb.push(col));
            assert(column_keys(cols@) =~= column_keys(cb).push(keys@[q as int]@));
            assert(views_of(keys@).take(q + 1) =~= views_of(keys@).take(q as int).push(keys@[q as int]@));
            assert(crate::expr::translate::cols_view(types@) =~= crate::expr::translate::cols_view(tb).push(
                (col.name@, kind_type(crate::vault::infer_spec(key_values(fms@, col.key@)))),
            ));
            assert(cols@.map_values(
                |c: FrontmatterColumn| (c.name@, kind_type(crate::vault::infer_spec(key_values(fms@, c.key@)))),
            ) =~= cb.map_values(
                |c: FrontmatterColumn| (c.name@, kind_type(crate::vault::infer_spec(key_values(fms@, c.key@)))),
            ).push((col.name@, kind_type(crate::vault::infer_spec(key_values(fms@, col.key@))))));
            assert(crate::expr::translate::pairs_view(pairs@) =~= crate::expr::translate::pairs_view(pb).push(
                (col.key@, col.name@),
            ));
            assert(cols@.map_values(|c: FrontmatterColumn| (c.key@, c.name@)) =~= cb.map_values(
                |c: FrontmatterColumn| (c.key@, c.name@),
            ).push((col.key@, col.name@)));
        }
        q += 1;
    }
    assert(views_of(keys@).take(keys.len() as int) =~= views_of(keys@));
    (cols, types, pairs)
}

/// The table and its schema describe the notes (in the order given) and
/// the canvases.
pub open spec fn table_ok(t: VaultTable, s: VaultSchema, notes: Seq<NoteFile>, canvases: Seq<CanvasLinks>) -> bool {
    let fms = frontmatters(notes);
    &&& rows_ok(t, notes)
    &&& backlinks_ok(t.file_backlinks@, linked_of(notes), canvases)
    &&& strictly_sorted(column_keys(t.frontmatter@))
    &&& column_keys(t.frontmatter@).to_set() == fm_key_set(fms)
    &&& forall|q: int| 0 <= q < t.frontmatter@.len() ==> column_ok(#[trigger] t.frontmatter@[q], fms)
    &&& s.cols() == schema_of(t.frontmatter@, fms)
    &&& s.keys() == t.frontmatter@.map_values(|c: FrontmatterColumn| (c.key@, c.name@))
    &&& s.has_rows == (notes.len() > 0)
}

fn meta_schema_exec() -> (r: Vec<(String, InferredType)>)
    ensures
        crate::expr::translate::cols_view(r@) == meta_schema(),
{
    let mut v: Vec<(String, InferredType)> = Vec::new();
    v.push((String::from_str("file_path"), InferredType::String));
    v.push((String::from_str("file_name"), InferredType::String));
    v.push((String::from_str("file_folder"), InferredType::String));
    v.push((String::from_str("file_ext"), InferredType::String));
    v.push((String::from_str("file_size"), InferredType::Int));
    v.push((String::from_str("file_ctime"), InferredType::Datetime));
    v.push((String::from_str("file_mtime"), InferredType::Datetime));
    v.push((String::from_str("file_tags"), InferredType::List));
    v.push((String::from_str("file_links"), InferredType::List));
    v.push((String::from_str("file_backlinks"), InferredType::List));
    v.push((String::from_str("file_path_natkey"), InferredType::String));
    v.push((String::from_str("file_name_natkey"), InferredType::String));
    assert(crate::expr::translate::cols_view(v@) =~= meta_schema());
    v
}

/// The vault table of the notes (one row each, in the order given) and its
/// schema; the canvases count toward backlinks only. A query error when two
/// frontmatter keys would name the same column.
pub fn build_table(notes: Vec<NoteFile>, canvases: &Vec<CanvasLinks>) -> (r: Result<(VaultTable, VaultSchema), crate::error::CrabaseError>)
    ensures
        match r {
            Ok((t, s)) => !key_clash(frontmatters(notes@)) && table_ok(t, s, notes@, canvases@),
            Err(e) => key_clash(frontmatters(notes@)) && e is Query,
        },
{
    let ghost ns = notes@;
    let mut rest = notes;
    let mut rev: Vec<NoteFile> = Vec::new();
    assert(rest@ + rev@.reverse() =~= ns);
    while rest.len() > 0
        invariant
            rest@ + rev@.reverse() == ns,
        decreases rest.len(),
    {
        let ghost before = rest@;
        let ghost rb = rev@;
        let n = rest.pop().unwrap();
        rev.push(n);
        proof {
            assert(before =~= rest@.push(n));
            assert(rev@.reverse() =~= seq![n] + rb.reverse());
            assert(rest@ + rev@.reverse() =~= before + rb.reverse());
        }
    }
    assert(rev@.reverse() =~= ns);
    let mut linked: Vec<LinkedNote> = Vec::new();
    let mut fms: Vec<Vec<(String, YamlValue)>> = Vec::new();
    let mut file_ext: Vec<String> = Vec::new();
    let mut file_size: Vec<u64> = Vec::new();
    let mut file_ctime: Vec<Option<i64>> = Vec::new();
    let mut file_mtime: Vec<Option<i64>> = Vec::new();
    let mut file_tags: Vec<Vec<String>> = Vec::new();
    let mut file_links: Vec<Vec<String>> = Vec::new();
    while rev.len() > 0
        invariant
            linked@.len() + rev@.len() == ns.len(),
            rev@.reverse() == ns.skip(linked@.len() as int),
            fms@.len() == linked@.len(),
            file_ext@.len() == linked@.len(),
            file_size@.len() == linked@.len(),
            file_ctime@.len() == linked@.len(),
            file_mtime@.len() == linked@.len(),
            file_tags@.len() == linked@.len(),
            file_links@.len() == linked@.len(),
            forall|j: int|
                0 <= j < linked@.len() ==> {
                    &&& #[trigger] linked@[j] == ns[j].note
                    &&& fms@[j] == ns[j].frontmatter
                    &&& file_ext@[j] == ns[j].ext
                    &&& file_size@[j] == ns[j].size
                    &&& file_ctime@[j] == ns[j].ctime
                    &&& file_mtime@[j] == ns[j].mtime
                    &&& file_tags@[j] == ns[j].tags
                    &&& file_links@[j] == ns[j].links
                },
        decreases rev.len(),
    {
        let ghost k = linked@.len() as int;
        let ghost rb = rev@;
        let n = rev.pop().unwrap();
        proof {
            assert(rb =~= rev@.push(n));
            assert(rb.reverse()[0] == n);
            assert(ns.skip(k)[0] == ns[k]);
            assert(rev@.reverse() =~= rb.reverse().drop_first());
            assert(ns.skip(k).drop_first() =~= ns.skip(k + 1));
        }
        let NoteFile { note, ext, size, ctime, mtime, frontmatter, tags, links } = n;
        linked.push(note);
        fms.push(frontmatter);
        file_ext.push(ext);
        file_size.push(size);
        file_ctime.push(ctime);
        file_mtime.push(mtime);
        file_tags.push(tags);
        file_links.push(links);
    }
    let n = linked.len();
    assert(linked@ =~= linked_of(ns));
    assert forall|j: int| 0 <= j < n implies fms@[j] == frontmatters(ns)[j] by {
        assert(linked@[j] == ns[j].note);
    }
    assert(fms@ =~= frontmatters(ns));
    let mut file_path: Vec<String> = Vec::new();
    let mut file_name: Vec<String> = Vec::new();
    let mut file_folder: Vec<String> = Vec::new();
    let mut file_path_natkey: Vec<String> = Vec::new();
    let mut file_name_natkey: Vec<String> = Vec::new();
    let mut i: usize = 0;
    while i < n
        invariant
            0 <= i <= n == linked@.len() == ns.len(),
            linked@ == linked_of(ns),
            file_path@.len() == i,
            file_name@.len() == i,
            file_folder@.len() == i,
            file_path_natkey@.len() == i,
            file_name_natkey@.len() == i,
            forall|j: int|
                0 <= j < i ==> {
                    &&& (#[trigger] file_path@[j])@ == ns[j].note.rel_path@
                    &&& file_name@[j]@ == ns[j].note.stem@
                    &&& file_folder@[j]@ == ns[j].note.folder@
                    &&& file_path_natkey@[j]@ == crate::vault::key_from(ns[j].note.rel_path@, 0, false)
                    &&& file_name_natkey@[j]@ == crate::vault::key_from(ns[j].note.stem@, 0, false)
                },
        decreases n - i,
    {
        let note = &linked[i];
        assert(*note == ns[i as int].note);
        file_path.push(note.rel_path.clone());
        file_name.push(note.stem.clone());
        file_folder.push(note.folder.clone());
        file_path_natkey.push(crate::vault::natural_sort_key(note.rel_path.as_str()));
        file_name_natkey.push(crate::vault::natural_sort_key(note.stem.as_str()));
        i += 1;
    }
    let file_backlinks = crate::vault::compute_backlinks(&linked, canvases);
    let all_keys = collect_keys(&fms);
    let keys = sorted_distinct(&all_keys);
    proof {
        lemma_clash(keys@, fms@);
    }
    let names = match crate::vault::plan_frontmatter_columns(&keys) {
        Err(x) => return Err(x),
        Ok(names) => names,
    };
    let (frontmatter, types, pairs) = frontmatter_columns(&fms, &keys, &names);
    let mut columns = meta_schema_exec();
    let mut types = types;
    let ghost c0 = columns@;
    let ghost t0 = types@;
    columns.append(&mut types);
    assert(crate::expr::translate::cols_view(columns@) =~= crate::expr::translate::cols_view(c0)
        + crate::expr::translate::cols_view(t0));
    let schema = VaultSchema { columns, frontmatter_keys: pairs, has_rows: n > 0 };
    let table = VaultTable {
        file_path,
        file_name,
        file_folder,
        file_ext,
        file_size,
        file_ctime,
        file_mtime,
        file_tags,
        file_links,
        file_backlinks,
        file_path_natkey,
        file_name_natkey,
        frontmatter,
    };
    proof {
        assert forall|k: int| 0 <= k < ns.len() implies row_ok(table, #[trigger] ns[k], k) by {
            assert(file_path@[k]@ == ns[k].note.rel_path@);
            assert(linked@[k] == ns[k].note);
            assert(table.file_tags@[k] == ns[k].tags);
            assert(table.file_links@[k] == ns[k].links);
        }
        assert(column_keys(table.frontmatter@) == views_of(keys@));
    }
    Ok((table, schema))
}

proof fn lemma_meta_names()
    ensures
        forall|i: int| 0 <= i < meta_schema().len() ==> crate::vault::is_reserved_column(#[trigger] meta_schema()[i].0),
        forall|i: int| 0 <= i < meta_schema().len() ==> (#[trigger] meta_schema()[i].0).len() > 5
            && meta_schema()[i].0[0] == 'f',
        forall|i: int, j: int|
            0 <= i < j < meta_schema().len() ==> (#[trigger] meta_schema()[i].0) != (#[trigger] meta_schema()[j].0),
{
    reveal_strlit("file_path");
    reveal_strlit("file_name");
    reveal_strlit("file_folder");
    reveal_strlit("file_ext");
    reveal_strlit("file_size");
    reveal_strlit("file_ctime");
    reveal_strlit("file_mtime");
    reveal_strlit("file_tags");
    reveal_strlit("file_links");
    reveal_strlit("file_backlinks");
    reveal_strlit("file_path_natkey");
    reveal_strlit("file_name_natkey");
    let m = meta_schema();
    assert forall|i: int, j: int| 0 <= i < j < m.len() implies m[i].0 != m[j].0 by {
        if m[i].0.len() == m[j].0.len() {
            assert(m[i].0[5] != m[j].0[5]);
        }
    }
}

proof fn lemma_note_prefix(k: Seq<char>)
    ensures
        crate::vault::is_reserved_column(k) ==> crate::vault::column_name(k)[0] == 'n'
            && crate::vault::column_name(k).len() > 0,
        !crate::vault::is_reserved_column(k) ==> crate::vault::column_name(k) == k,
{
    reveal_strlit("note_");
}

/// No two columns of the table share a name: keys that would name the same
/// column are refused, and a key named like a file column gets a prefix.
pub proof fn law_column_names_distinct(t: VaultTable, s: VaultSchema, notes: Seq<NoteFile>, canvases: Seq<CanvasLinks>)
    requires
        table_ok(t, s, notes, canvases),
        !key_clash(frontmatters(notes)),
    ensures
        forall|i: int, j: int| 0 <= i < j < s.cols().len() ==> (#[trigger] s.cols()[i]).0 != (#[trigger] s.cols()[j]).0,
{
    let fms = frontmatters(notes);
    let cs = t.frontmatter@;
    let ks = column_keys(cs);
    let cols = s.cols();
    let m = meta_schema();
    lemma_meta_names();
    assert(cols == schema_of(cs, fms));
    assert(cols.len() == m.len() + cs.len());
    assert forall|i: int, j: int| 0 <= i < j < cols.len() implies (#[trigger] cols[i]).0 != (#[trigger] cols[j]).0 by {
        if j < m.len() {
            assert(cols[i] == m[i] && cols[j] == m[j]);
        } else {
            let q = j - m.len();
            assert(cols[j].0 == cs[q].name@);
            assert(column_ok(cs[q], fms));
            let kq = cs[q].key@;
            assert(ks[q] == kq);
            lemma_note_prefix(kq);
            if i < m.len() {
                assert(cols[i] == m[i]);
                if !crate::vault::is_reserved_column(kq) {
                    assert(crate::vault::is_reserved_column(m[i].0));
                }
            } else {
                let p = i - m.len();
                assert(cols[i].0 == cs[p].name@);
                assert(column_ok(cs[p], fms));
                let kp = cs[p].key@;
                assert(ks[p] == kp);
                lemma_sorted_distinct_items(ks, p, q);
                assert(ks.to_set().contains(kp) && ks.to_set().contains(kq));
                if cs[p].name@ == cs[q].name@ {
                    assert(crate::vault::column_name(kp) == crate::vault::column_name(kq));
                    assert(key_clash(fms));
                }
            }
        }
    }
}

// ---------- Looking notes up by stem ----------

/// Row `i` holds the first occurrence of its name.
pub open spec fn is_first(names: Seq<Seq<char>>, i: int) -> bool {
    forall|j: int| 0 <= j < i ==> names[j] != names[i]
}

/// The rows holding the first occurrence of each name, in increasing order:
/// where several notes share a stem, a lookup by stem finds the first.
pub fn first_occurrence_rows(names: &Vec<String>) -> (r: Vec<usize>)
    ensures
        forall|a: int, b: int| 0 <= a < b < r@.len() ==> r@[a] < r@[b],
        forall|a: int| 0 <= a < r@.len() ==> r@[a] < names@.len() && is_first(strs(names@), r@[a] as int),
        forall|i: int| 0 <= i < names@.len() && is_first(strs(names@), i) ==> r@.contains(i as usize),
{
    let ghost sv = strs(names@);
    let mut out: Vec<usize> = Vec::new();
    let mut i: usize = 0;
    while i < names.len()
        invariant
            0 <= i <= names.len(),
            sv == strs(names@),
            forall|a: int, b: int| 0 <= a < b < out@.len() ==> out@[a] < out@[b],
            forall|a: int| 0 <= a < out@.len() ==> out@[a] < i && is_first(sv, out@[a] as int),
            forall|k: int| 0 <= k < i && is_first(sv, k) ==> out@.contains(k as usize),
        decreases names.len() - i,
    {
        let mut j: usize = 0;
        let mut first = true;
        while j < i
            invariant
                0 <= j <= i < names.len(),
                sv == strs(names@),
                first == (forall|m: int| 0 <= m < j ==> sv[m] != sv[i as int]),
            decreases i - j,
        {
            if str_eq(names[j].as_str(), names[i].as_str()) {
                assert(sv[j as int] == sv[i as int]);
                first = false;
            }
            j += 1;
        }
        if first {
            let ghost before = out@;
            out.push(i);
            assert(out@[before.len() as int] == i);
            assert forall|k: int| 0 <= k < i + 1 && is_first(sv, k) implies out@.contains(k as usize) by {
                if k < i {
                    let w = choose|w: int| 0 <= w < before.len() && before[w] == k as usize;
                    assert(out@[w] == k as usize);
                }
            }
        } else {
            assert forall|k: int| 0 <= k < i + 1 && is_first(sv, k) implies out@.contains(k as usize) by {
                if k == i {
                    assert(!is_first(sv, k));
                }
            }
        }
        i += 1;
    }
    out
}

/// The rows a lookup by note name reads (the first note of each name), or
/// none when the vault has no notes, where every lookup gives null.
pub fn cross_lookup_rows(names: &Vec<String>) -> (r: Option<Vec<usize>>)
    ensures
        r is None <==> names@.len() == 0,
        r matches Some(rows) ==> {
            &&& forall|a: int, b: int| 0 <= a < b < rows@.len() ==> rows@[a] < rows@[b]
            &&& forall|a: int| 0 <= a < rows@.len() ==> rows@[a] < names@.len() && is_first(strs(names@), rows@[a] as int)
            &&& forall|i: int| 0 <= i < names@.len() && is_first(strs(names@), i) ==> rows@.contains(i as usize)
        },
{
    let rows = first_occurrence_rows(names);
    if rows.len() == 0 {
        proof {
            if names@.len() > 0 {
                assert(is_first(strs(names@), 0));
                assert(rows@.contains(0usize));
            }
        }
        None
    } else {
        assert(rows@[0] < names@.len());
        Some(rows)
    }
}

} // verus!
