//! Output formatting shared by the CSV and TOON writers: column headers,
//! CSV field quoting, list cells and timestamp splitting.
use vstd::prelude::*;
use vstd::view::View as _;

use crate::base_file::{BaseFile, properties_view};
use crate::text::{chars_of, str_eq, string_from_chars};

verus! {

/// Display setting of the last property entry named `col`: `None` when no
/// entry has that name.
pub open spec fn last_prop(props: Seq<(Seq<char>, Option<Seq<char>>)>, col: Seq<char>) -> Option<
    Option<Seq<char>>,
>
    decreases props.len(),
{
    if props.len() == 0 {
        None
    } else if props.last().0 == col {
        Some(props.last().1)
    } else {
        last_prop(props.drop_last(), col)
    }
}

/// `col` with every `.` replaced by a space.
pub open spec fn dots_to_spaces(col: Seq<char>) -> Seq<char> {
    col.map_values(|c: char| if c == '.' { ' ' } else { c })
}

/// Header of an output column: the property's display name when it has
/// one; a formula's name without its `formula.` prefix; the friendly names
/// of the well-known file columns; otherwise the column with dots turned
/// into spaces.
pub open spec fn header_spec(col: Seq<char>, props: Seq<(Seq<char>, Option<Seq<char>>)>) -> Seq<char> {
    match last_prop(props, col) {
        Some(Some(d)) => d,
        _ => if col.len() >= 8 && col.take(8) == "formula."@ {
            col.skip(8)
        } else if col == "file.mtime"@ {
            "modified time"@
        } else if col == "file.ctime"@ {
            "created time"@
        } else if col == "file.folder"@ {
            "folder"@
        } else if col == "file.ext"@ {
            "file extension"@
        } else if col == "file.size"@ {
            "file size"@
        } else if col == "file.path"@ {
            "file path"@
        } else if col == "file.tags"@ {
            "tags"@
        } else if col == "file.links"@ {
            "links"@
        } else {
            dots_to_spaces(col)
        },
    }
}

/// The display name configured for property `col`, if any (the last entry
/// for that name counts).
pub fn display_name_of<'a>(base_file: &'a BaseFile, col: &str) -> (r: Option<&'a String>)
    ensures
        match last_prop(properties_view(base_file.properties), col@) {
            Some(Some(d)) => r is Some && r->0@ == d,
            _ => r is None,
        },
{
    let props = &base_file.properties;
    let ghost pv = properties_view(*props);
    let mut i = props.len();
    assert(pv.take(pv.len() as int) =~= pv);
    while i > 0
        invariant
            0 <= i <= props.len(),
            pv == properties_view(*props),
            *props == base_file.properties,
            last_prop(pv, col@) == last_prop(pv.take(i as int), col@),
        decreases i,
    {
        assert(pv.take(i as int).drop_last() =~= pv.take(i - 1));
        assert(pv.take(i as int).last() == pv[i - 1]);
        let entry = &props[i - 1];
        if str_eq(entry.0.as_str(), col) {
            assert(pv[i - 1] == (entry.0@, entry.1@));
            assert(entry.1@ == crate::base_file::opt_str_view(entry.1.display_name));
            return match &entry.1.display_name {
                Some(d) => Some(d),
                None => None,
            };
        }
        i -= 1;
    }
    assert(pv.take(0) =~= Seq::<(Seq<char>, Option<Seq<char>>)>::empty());
    None
}

fn literal(s: &str) -> (r: String)
    ensures
        r@ == s@,
{
    String::from_str(s)
}

/// Output header of a column.
pub fn header_for(col: &str, base_file: &BaseFile) -> (r: String)
    ensures
        r@ == header_spec(col@, base_file@.properties),
{
    if let Some(d) = display_name_of(base_file, col) {
        return d.clone();
    }
    let v = chars_of(col);
    proof {
        reveal_strlit("formula.");
    }
    if v.len() >= 8 && v[0] == 'f' && v[1] == 'o' && v[2] == 'r' && v[3] == 'm' && v[4] == 'u'
        && v[5] == 'l' && v[6] == 'a' && v[7] == '.' {
        proof {
            assert(v@.take(8) =~= "formula."@);
            assert(v@.subrange(8, v@.len() as int) =~= v@.skip(8));
        }
        return string_from_chars(&v, 8, v.len());
    }
    proof {
        if v@.len() >= 8 && v@.take(8) == "formula."@ {
            assert(v@.take(8)[0] == 'f' && v@.take(8)[7] == '.');
            assert(v@[1] == v@.take(8)[1] && v@[2] == v@.take(8)[2] && v@[3] == v@.take(8)[3]);
            assert(v@[4] == v@.take(8)[4] && v@[5] == v@.take(8)[5] && v@[6] == v@.take(8)[6]);
        }
    }
    if str_eq(col, "file.mtime") {
        literal("modified time")
    } else if str_eq(col, "file.ctime") {
        literal("created time")
    } else if str_eq(col, "file.folder") {
        literal("folder")
    } else if str_eq(col, "file.ext") {
        literal("file extension")
    } else if str_eq(col, "file.size") {
        literal("file size")
    } else if str_eq(col, "file.path") {
        literal("file path")
    } else if str_eq(col, "file.tags") {
        literal("tags")
    } else if str_eq(col, "file.links") {
        literal("links")
    } else {
        let mut out: Vec<char> = Vec::new();
        let mut k: usize = 0;
        while k < v.len()
            invariant
                0 <= k <= v.len(),
                out@ == dots_to_spaces(v@.take(k as int)),
            decreases v.len() - k,
        {
            out.push(
                if v[k] == '.' {
                    ' '
                } else {
                    v[k]
                },
            );
            k += 1;
            assert(out@ =~= dots_to_spaces(v@.take(k as int)));
        }
        assert(v@.take(v.len() as int) =~= v@);
        string_from_chars(&out, 0, out.len())
    }
}

// ---------- CSV fields ----------

pub open spec fn is_csv_special(c: char) -> bool {
    c == ',' || c == '"' || c == '\n' || c == '\r'
}

/// A field needs quoting when it holds a comma, a quote or a line break.
pub open spec fn needs_quoting_spec(s: Seq<char>) -> bool {
    exists|k: int| 0 <= k < s.len() && is_csv_special(#[trigger] s[k])
}

/// Every `"` doubled.
pub open spec fn double_quotes(s: Seq<char>) -> Seq<char>
    decreases s.len(),
{
    if s.len() == 0 {
        Seq::empty()
    } else if s.last() == '"' {
        double_quotes(s.drop_last()) + seq!['"', '"']
    } else {
        double_quotes(s.drop_last()).push(s.last())
    }
}

/// A CSV field: quoted, with quotes doubled, when it needs quoting; as it
/// is otherwise.
pub open spec fn csv_field_spec(s: Seq<char>) -> Seq<char> {
    if needs_quoting_spec(s) {
        seq!['"'] + double_quotes(s) + seq!['"']
    } else {
        s
    }
}

pub fn needs_csv_quoting(field: &str) -> (r: bool)
    ensures
        r == needs_quoting_spec(field@),
{
    let v = chars_of(field);
    let mut k: usize = 0;
    while k < v.len()
        invariant
            0 <= k <= v.len(),
            v@ == field@,
            forall|m: int| 0 <= m < k ==> !is_csv_special(#[trigger] v@[m]),
        decreases v.len() - k,
    {
        let c = v[k];
        if c == ',' || c == '"' || c == '\n' || c == '\r' {
            assert(is_csv_special(v@[k as int]));
            return true;
        }
        k += 1;
    }
    false
}

/// The text of a CSV field.
pub fn csv_field(field: &str) -> (r: String)
    ensures
        r@ == csv_field_spec(field@),
{
    if !needs_csv_quoting(field) {
        return field.to_owned();
    }
    let v = chars_of(field);
    let mut out: Vec<char> = Vec::new();
    out.push('"');
    let mut k: usize = 0;
    while k < v.len()
        invariant
            0 <= k <= v.len(),
            out@ == seq!['"'] + double_quotes(v@.take(k as int)),
        decreases v.len() - k,
    {
        assert(v@.take(k + 1).drop_last() =~= v@.take(k as int));
        if v[k] == '"' {
            out.push('"');
            out.push('"');
        } else {
            out.push(v[k]);
        }
        assert(out@ =~= seq!['"'] + double_quotes(v@.take(k + 1)));
        k += 1;
    }
    out.push('"');
    assert(v@.take(v.len() as int) =~= v@);
    string_from_chars(&out, 0, out.len())
}

/// Reading a quoted field back: the text between the outer quotes with each
/// doubled quote made single.
pub open spec fn undouble(s: Seq<char>) -> Seq<char>
    decreases s.len(),
{
    if s.len() == 0 {
        Seq::empty()
    } else if s.len() >= 2 && s[0] == '"' && s[1] == '"' {
        seq!['"'] + undouble(s.skip(2))
    } else {
        seq![s[0]] + undouble(s.skip(1))
    }
}

/// The field a CSV reader recovers from the written text.
pub open spec fn csv_read_field(t: Seq<char>) -> Seq<char> {
    if t.len() >= 2 && t[0] == '"' && t[t.len() - 1] == '"' {
        undouble(t.subrange(1, t.len() - 1))
    } else {
        t
    }
}

proof fn lemma_undouble_concat(a: Seq<char>, b: Seq<char>)
    ensures
        undouble(double_quotes(a) + b) == a + undouble(b),
    decreases a.len(),
{
    if a.len() == 0 {
        assert(double_quotes(a) + b =~= b);
        assert(a + undouble(b) =~= undouble(b));
    } else {
        let c = a.last();
        let rest = a.drop_last();
        if c == '"' {
            lemma_undouble_concat(rest, seq!['"', '"'] + b);
            assert(double_quotes(a) + b =~= double_quotes(rest) + (seq!['"', '"'] + b));
            assert((seq!['"', '"'] + b).skip(2) =~= b);
            assert(rest + (seq!['"'] + undouble(b)) =~= a + undouble(b));
        } else {
            lemma_undouble_concat(rest, seq![c] + b);
            assert(double_quotes(a) + b =~= double_quotes(rest) + (seq![c] + b));
            assert((seq![c] + b).skip(1) =~= b);
            assert(rest + (seq![c] + undouble(b)) =~= a + undouble(b));
        }
    }
}

/// Law: a CSV reader recovers every field exactly from what `csv_field`
/// writes.
pub proof fn law_csv_field_roundtrip(s: Seq<char>)
    ensures
        csv_read_field(csv_field_spec(s)) == s,
{
    if needs_quoting_spec(s) {
        let t = seq!['"'] + double_quotes(s) + seq!['"'];
        assert(t.subrange(1, t.len() - 1) =~= double_quotes(s) + Seq::<char>::empty());
        lemma_undouble_concat(s, Seq::empty());
        assert(s + undouble(Seq::<char>::empty()) =~= s);
    } else {
        if s.len() >= 2 && s[0] == '"' {
            assert(is_csv_special(s[0]));
        }
    }
}

// ---------- List cells ----------

/// A column that holds tags.
pub open spec fn is_tag_column_spec(col: Seq<char>) -> bool {
    col == "file.tags"@ || col == "tags"@
}

pub fn is_tag_column(col: &str) -> (r: bool)
    ensures
        r == is_tag_column_spec(col@),
{
    str_eq(col, "file.tags") || str_eq(col, "tags")
}

/// A list element as shown: in a tag column, a non-empty element gets a
/// leading `#` unless it has one.
pub open spec fn list_elem_spec(e: Seq<char>, tag_list: bool) -> Seq<char> {
    if tag_list && e.len() > 0 && e[0] != '#' {
        seq!['#'] + e
    } else {
        e
    }
}

/// A list cell: elements in order, `, ` before every element once some
/// earlier element has shown text.
pub open spec fn list_cell_spec(elems: Seq<Seq<char>>, tag_list: bool) -> Seq<char>
    decreases elems.len(),
{
    if elems.len() == 0 {
        Seq::empty()
    } else {
        let acc = list_cell_spec(elems.drop_last(), tag_list);
        let sep = if acc.len() > 0 {
            acc + ", "@
        } else {
            acc
        };
        sep + list_elem_spec(elems.last(), tag_list)
    }
}

/// Text of a list cell from the text of its elements.
pub fn list_cell(elems: &Vec<String>, tag_list: bool) -> (r: String)
    ensures
        r@ == list_cell_spec(elems@.map_values(|e: String| e@), tag_list),
{
    let ghost ev = elems@.map_values(|e: String| e@);
    let mut out: Vec<char> = Vec::new();
    let mut i: usize = 0;
    proof {
        reveal_strlit(", ");
    }
    while i < elems.len()
        invariant
            0 <= i <= elems.len(),
            ev == elems@.map_values(|e: String| e@),
            ", "@ == seq![',', ' '],
            out@ == list_cell_spec(ev.take(i as int), tag_list),
        decreases elems.len() - i,
    {
        assert(ev.take(i + 1).drop_last() =~= ev.take(i as int));
        let ghost acc = out@;
        if out.len() > 0 {
            out.push(',');
            out.push(' ');
        }
        let ghost sep = out@;
        assert(sep == (if acc.len() > 0 {
            acc + ", "@
        } else {
            acc
        }));
        let e = chars_of(elems[i].as_str());
        if tag_list && e.len() > 0 && e[0] != '#' {
            out.push('#');
        }
        let mut k: usize = 0;
        let ghost pre = out@;
        while k < e.len()
            invariant
                0 <= k <= e.len(),
                out@ == pre + e@.take(k as int),
            decreases e.len() - k,
        {
            out.push(e[k]);
            k += 1;
            assert(out@ =~= pre + e@.take(k as int));
        }
        assert(e@.take(e.len() as int) =~= e@);
        assert(out@ =~= sep + list_elem_spec(ev.take(i + 1).last(), tag_list));
        i += 1;
    }
    assert(ev.take(elems.len() as int) =~= ev);
    string_from_chars(&out, 0, out.len())
}

// ---------- Timestamps ----------

/// Resolution of a stored timestamp.
#[derive(Debug, Clone, Copy, PartialEq, Eq, Structural)]
pub enum TimeUnitKind {
    Nanoseconds,
    Microseconds,
    Milliseconds,
}

/// Seconds and nanoseconds of a timestamp, with Rust's truncating division
/// and remainder, the nanoseconds cast to `u32`.
pub open spec fn micros_split_spec(value: i64, tu: TimeUnitKind) -> (i64, u32) {
    let per: int = match tu {
        TimeUnitKind::Nanoseconds => 1_000_000_000,
        TimeUnitKind::Microseconds => 1_000_000,
        TimeUnitKind::Milliseconds => 1_000,
    };
    let scale: int = match tu {
        TimeUnitKind::Nanoseconds => 1,
        TimeUnitKind::Microseconds => 1_000,
        TimeUnitKind::Milliseconds => 1_000_000,
    };
    let v: int = value as int;
    let q: int = if v >= 0 {
        v / per
    } else {
        -((-v) / per)
    };
    let r: int = v - q * per;
    (q as i64, (r * scale) as u32)
}

pub fn micros_split(value: i64, tu: TimeUnitKind) -> (r: (i64, u32))
    ensures
        r == micros_split_spec(value, tu),
{
    match tu {
        TimeUnitKind::Nanoseconds => (value / 1_000_000_000, (value % 1_000_000_000) as u32),
        TimeUnitKind::Microseconds => (value / 1_000_000, ((value % 1_000_000) * 1_000) as u32),
        TimeUnitKind::Milliseconds => (value / 1_000, ((value % 1_000) * 1_000_000) as u32),
    }
}

// ---------- Cells ----------

/// A value of a result cell as the writers see it. Floats arrive already
/// rendered (an integral value below 10^15 without a fraction, NaN as empty
/// text); any value of another kind arrives as its display text.
#[derive(Debug)]
pub enum Cell {
    Null,
    Bool(bool),
    Int(i64),
    UInt(u64),
    Float(String),
    Str(String),
    /// Days since 1970-01-01.
    Date(i32),
    /// A timestamp in the given unit since the epoch.
    Datetime(i64, TimeUnitKind),
    /// A duration in its stored unit.
    Duration(i64),
    List(Vec<Cell>),
    Other(String),
}

pub enum CellV {
    Null,
    Bool(bool),
    Int(i64),
    UInt(u64),
    Float(Seq<char>),
    Str(Seq<char>),
    Date(i32),
    Datetime(i64, TimeUnitKind),
    Duration(i64),
    List(Seq<CellV>),
    Other(Seq<char>),
}

pub open spec fn cell_view(c: Cell) -> CellV
    decreases c,
{
    match c {
        Cell::Null => CellV::Null,
        Cell::Bool(b) => CellV::Bool(b),
        Cell::Int(n) => CellV::Int(n),
        Cell::UInt(n) => CellV::UInt(n),
        Cell::Float(t) => CellV::Float(t@),
        Cell::Str(s) => CellV::Str(s@),
        Cell::Date(d) => CellV::Date(d),
        Cell::Datetime(v, tu) => CellV::Datetime(v, tu),
        Cell::Duration(n) => CellV::Duration(n),
        Cell::List(items) => CellV::List(cells_view(items@)),
        Cell::Other(s) => CellV::Other(s@),
    }
}

pub open spec fn cells_view(s: Seq<Cell>) -> Seq<CellV>
    decreases s,
{
    if s.len() == 0 {
        Seq::empty()
    } else {
        cells_view(s.drop_last()).push(cell_view(s.last()))
    }
}

impl vstd::view::View for Cell {
    type V = CellV;

    open spec fn view(&self) -> CellV {
        cell_view(*self)
    }
}

pub proof fn lemma_cells_view(s: Seq<Cell>)
    ensures
        cells_view(s).len() == s.len(),
        forall|i: int| 0 <= i < s.len() ==> #[trigger] cells_view(s)[i] == cell_view(s[i]),
    decreases s.len(),
{
    if s.len() > 0 {
        lemma_cells_view(s.drop_last());
    }
}

pub open spec fn bool_text(b: bool) -> Seq<char> {
    if b {
        "true"@
    } else {
        "false"@
    }
}

/// The text of a cell: nothing for null, `true`/`false`, integers in
/// decimal, dates as `%Y-%m-%d`, timestamps as `%Y-%m-%dT%H:%M:%S` (nothing
/// when out of range), lists as their elements' texts joined by `, ` (tag
/// columns give elements a leading `#`). None when a date leaves the
/// calendar's range, where the command line stops.
pub open spec fn format_spec(c: CellV, tag_list: bool) -> Option<Seq<char>>
    decreases c, 1nat,
{
    match c {
        CellV::Null => Some(Seq::empty()),
        CellV::Bool(b) => Some(bool_text(b)),
        CellV::Int(n) => Some(crate::vault::int_text(n as int)),
        CellV::UInt(n) => Some(crate::vault::dec(n as nat)),
        CellV::Float(t) => Some(t),
        CellV::Str(s) => Some(s),
        CellV::Date(d) => crate::dates::date_text(d, "%Y-%m-%d"@),
        CellV::Datetime(v, tu) => {
            let (secs, nsec) = micros_split_spec(v, tu);
            match crate::dates::datetime_text(secs, nsec, "%Y-%m-%dT%H:%M:%S"@) {
                Some(t) => Some(t),
                None => Some(Seq::empty()),
            }
        },
        CellV::Duration(n) => Some(crate::vault::int_text(n as int)),
        CellV::List(items) => match item_texts(items) {
            Some(ts) => Some(list_cell_spec(ts, tag_list)),
            None => None,
        },
        CellV::Other(s) => Some(s),
    }
}

/// The texts of list elements (never as tags).
pub open spec fn item_texts(items: Seq<CellV>) -> Option<Seq<Seq<char>>>
    decreases items, 0nat,
{
    if items.len() == 0 {
        Some(Seq::empty())
    } else {
        match item_texts(items.subrange(0, items.len() - 1)) {
            None => None,
            Some(prev) => match format_spec(items[items.len() - 1], false) {
                None => None,
                Some(t) => Some(prev.push(t)),
            },
        }
    }
}

/// A cell as written to CSV: scalars as their text, strings and composite
/// values as quoted fields where needed.
pub open spec fn cell_csv_spec(c: CellV, tag_list: bool) -> Option<Seq<char>> {
    match c {
        CellV::Null => Some(Seq::empty()),
        CellV::Bool(b) => Some(bool_text(b)),
        CellV::Int(n) => Some(crate::vault::int_text(n as int)),
        CellV::UInt(n) => Some(crate::vault::dec(n as nat)),
        CellV::Float(t) => Some(t),
        CellV::Duration(n) => Some(crate::vault::int_text(n as int)),
        CellV::Str(s) => Some(csv_field_spec(s)),
        _ => match format_spec(c, tag_list) {
            Some(t) => Some(csv_field_spec(t)),
            None => None,
        },
    }
}

fn text_of(v: Vec<char>) -> (r: String)
    ensures
        r@ == v@,
{
    let r = string_from_chars(&v, 0, v.len());
    assert(v@.subrange(0, v.len() as int) =~= v@);
    r
}

fn bool_str(b: bool) -> (r: String)
    ensures
        r@ == bool_text(b),
{
    if b {
        String::from_str("true")
    } else {
        String::from_str("false")
    }
}

/// The text of a cell; none when a date leaves the calendar's range.
pub fn format_cell(c: &Cell, tag_list: bool) -> (r: Option<String>)
    ensures
        match format_spec(c@, tag_list) {
            Some(t) => r is Some && r->0@ == t,
            None => r is None,
        },
    decreases c,
{
    match c {
        Cell::Null => Some(String::new()),
        Cell::Bool(b) => Some(bool_str(*b)),
        Cell::Int(n) => Some(text_of(crate::vault::i64_text(*n))),
        Cell::UInt(n) => Some(text_of(crate::vault::u64_text(*n))),
        Cell::Float(t) => Some(t.clone()),
        Cell::Str(s) => Some(s.clone()),
        Cell::Date(d) => {
            proof {
                crate::dates::lemma_date_pattern();
            }
            crate::dates::format_date(*d, "%Y-%m-%d")
        },
        Cell::Datetime(v, tu) => {
            let (secs, nsec) = micros_split(*v, *tu);
            proof {
                crate::dates::lemma_datetime_patterns();
            }
            match crate::dates::format_datetime(secs, nsec, "%Y-%m-%dT%H:%M:%S") {
                Some(t) => Some(t),
                None => Some(String::new()),
            }
        },
        Cell::Duration(n) => Some(text_of(crate::vault::i64_text(*n))),
        Cell::List(items) => {
            let ghost iv = cells_view(items@);
            proof {
                lemma_cells_view(items@);
            }
            assert(c@ == CellV::List(iv));
            let mut texts: Vec<String> = Vec::new();
            let mut i: usize = 0;
            assert(iv.subrange(0, 0) =~= Seq::<CellV>::empty());
            assert(crate::vault::strs(texts@) =~= Seq::<Seq<char>>::empty());
            while i < items.len()
                invariant
                    0 <= i <= items.len(),
                    iv == cells_view(items@),
                    *c == Cell::List(*items),
                    c@ == CellV::List(iv),
                    iv.len() == items.len(),
                    forall|k: int| 0 <= k < items.len() ==> #[trigger] iv[k] == cell_view(items@[k]),
                    item_texts(iv.subrange(0, i as int)) == Some(crate::vault::strs(texts@)),
                decreases items.len() - i,
            {
                let ghost pre = iv.subrange(0, i + 1);
                assert(pre.subrange(0, i as int) =~= iv.subrange(0, i as int));
                assert(pre[i as int] == iv[i as int]);
                assert(decreases_to!(c => items));
                assert(decreases_to!(items => items@));
                assert(decreases_to!(items@ => items@[i as int]));
                match format_cell(&items[i], false) {
                    None => {
                        proof {
                            lemma_item_texts_prefix(iv, i + 1);
                        }
                        return None;
                    },
                    Some(t) => {
                        let ghost before = texts@;
                        texts.push(t);
                        assert(crate::vault::strs(texts@) =~= crate::vault::strs(before).push(t@));
                    },
                }
                i += 1;
            }
            assert(iv.subrange(0, items.len() as int) =~= iv);
            Some(list_cell(&texts, tag_list))
        },
        Cell::Other(s) => Some(s.clone()),
    }
}

proof fn lemma_item_texts_prefix(items: Seq<CellV>, i: int)
    requires
        0 <= i <= items.len(),
        item_texts(items.subrange(0, i)) is None,
    ensures
        item_texts(items) is None,
    decreases items.len(),
{
    if i == items.len() {
        assert(items.subrange(0, i) =~= items);
    } else {
        let init = items.subrange(0, items.len() - 1);
        assert(init.subrange(0, i) =~= items.subrange(0, i));
        lemma_item_texts_prefix(init, i);
    }
}

/// A cell as written to CSV; none when a date leaves the calendar's range.
pub fn cell_csv(c: &Cell, tag_list: bool) -> (r: Option<String>)
    ensures
        match cell_csv_spec(c@, tag_list) {
            Some(t) => r is Some && r->0@ == t,
            None => r is None,
        },
{
    match c {
        Cell::Null => Some(String::new()),
        Cell::Bool(b) => Some(bool_str(*b)),
        Cell::Int(n) => Some(text_of(crate::vault::i64_text(*n))),
        Cell::UInt(n) => Some(text_of(crate::vault::u64_text(*n))),
        Cell::Float(t) => Some(t.clone()),
        Cell::Duration(n) => Some(text_of(crate::vault::i64_text(*n))),
        Cell::Str(s) => Some(csv_field(s.as_str())),
        _ => match format_cell(c, tag_list) {
            Some(t) => Some(csv_field(t.as_str())),
            None => None,
        },
    }
}

// ---------- CSV ----------

/// Fields separated by commas.
pub open spec fn join_fields(fs: Seq<Seq<char>>) -> Seq<char>
    decreases fs.len(),
{
    if fs.len() == 0 {
        Seq::empty()
    } else if fs.len() == 1 {
        fs[0]
    } else {
        join_fields(fs.drop_last()) + ","@ + fs.last()
    }
}

/// The header line: each column's header as a CSV field.
pub open spec fn header_line(columns: Seq<Seq<char>>, props: Seq<(Seq<char>, Option<Seq<char>>)>) -> Seq<char> {
    join_fields(columns.map_values(|c: Seq<char>| csv_field_spec(header_spec(c, props)))) + "\n"@
}

/// The CSV fields of a row, one per column (empty where the row has no
/// cell); none when a cell cannot be shown.
pub open spec fn row_fields(row: Seq<CellV>, columns: Seq<Seq<char>>) -> Option<Seq<Seq<char>>>
    decreases columns.len(),
{
    if columns.len() == 0 {
        Some(Seq::empty())
    } else {
        let i = columns.len() - 1;
        match row_fields(row, columns.drop_last()) {
            None => None,
            Some(prev) => {
                let t = if i < row.len() {
                    cell_csv_spec(row[i], is_tag_column_spec(columns[i]))
                } else {
                    Some(Seq::empty())
                };
                match t {
                    None => None,
                    Some(f) => Some(prev.push(f)),
                }
            },
        }
    }
}

/// The lines of the rows, in order.
pub open spec fn body_lines(rows: Seq<Seq<CellV>>, columns: Seq<Seq<char>>) -> Option<Seq<char>>
    decreases rows.len(),
{
    if rows.len() == 0 {
        Some(Seq::empty())
    } else {
        match body_lines(rows.drop_last(), columns) {
            None => None,
            Some(prev) => match row_fields(rows.last(), columns) {
                None => None,
                Some(fs) => Some(prev + join_fields(fs) + "\n"@),
            },
        }
    }
}

/// The CSV text of a result: the header line, then one line per row (no
/// rows at all without columns); none when a cell cannot be shown.
pub open spec fn csv_spec(
    columns: Seq<Seq<char>>,
    props: Seq<(Seq<char>, Option<Seq<char>>)>,
    rows: Seq<Seq<CellV>>,
) -> Option<Seq<char>> {
    let header = header_line(columns, props);
    if columns.len() == 0 {
        Some(header)
    } else {
        match body_lines(rows, columns) {
            Some(b) => Some(header + b),
            None => None,
        }
    }
}

pub open spec fn rows_view(rows: Seq<Vec<Cell>>) -> Seq<Seq<CellV>> {
    rows.map_values(|r: Vec<Cell>| cells_view(r@))
}

fn join_exec(fs: &Vec<String>) -> (r: String)
    ensures
        r@ == join_fields(crate::vault::strs(fs@)),
{
    let ghost fv = crate::vault::strs(fs@);
    let mut out = String::new();
    let mut i: usize = 0;
    assert(fv.take(0) =~= Seq::<Seq<char>>::empty());
    while i < fs.len()
        invariant
            0 <= i <= fs.len(),
            fv == crate::vault::strs(fs@),
            out@ == join_fields(fv.take(i as int)),
        decreases fs.len() - i,
    {
        assert(fv.take(i + 1).drop_last() =~= fv.take(i as int));
        assert(fv.take(i + 1).last() == fs@[i as int]@);
        if i > 0 {
            out.append(",");
        }
        out.append(fs[i].as_str());
        proof {
            if i == 0 {
                assert(fv.take(1) =~= seq![fs@[0]@]);
                assert(out@ =~= fs@[0]@);
            }
        }
        i += 1;
    }
    assert(fv.take(fs.len() as int) =~= fv);
    out
}

proof fn lemma_row_fields_prefix(row: Seq<CellV>, columns: Seq<Seq<char>>, i: int)
    requires
        0 <= i <= columns.len(),
        row_fields(row, columns.take(i)) is None,
    ensures
        row_fields(row, columns) is None,
    decreases columns.len(),
{
    if i == columns.len() {
        assert(columns.take(i) =~= columns);
    } else {
        assert(columns.drop_last().take(i) =~= columns.take(i));
        lemma_row_fields_prefix(row, columns.drop_last(), i);
    }
}

fn row_line(row: &Vec<Cell>, columns: &Vec<String>) -> (r: Option<String>)
    ensures
        match row_fields(cells_view(row@), crate::vault::strs(columns@)) {
            Some(fs) => r is Some && r->0@ == join_fields(fs) + "\n"@,
            None => r is None,
        },
{
    let ghost cv = crate::vault::strs(columns@);
    let ghost rv = cells_view(row@);
    proof {
        lemma_cells_view(row@);
    }
    let mut fields: Vec<String> = Vec::new();
    let mut i: usize = 0;
    assert(cv.take(0) =~= Seq::<Seq<char>>::empty());
    assert(crate::vault::strs(fields@) =~= Seq::<Seq<char>>::empty());
    while i < columns.len()
        invariant
            0 <= i <= columns.len(),
            cv == crate::vault::strs(columns@),
            rv == cells_view(row@),
            rv.len() == row.len(),
            forall|k: int| 0 <= k < row.len() ==> #[trigger] rv[k] == cell_view(row@[k]),
            row_fields(rv, cv.take(i as int)) == Some(crate::vault::strs(fields@)),
        decreases columns.len() - i,
    {
        assert(cv.take(i + 1).drop_last() =~= cv.take(i as int));
        assert(cv.take(i + 1)[i as int] == columns@[i as int]@);
        let tag = is_tag_column(columns[i].as_str());
        let t = if i < row.len() {
            cell_csv(&row[i], tag)
        } else {
            Some(String::new())
        };
        match t {
            None => {
                proof {
                    lemma_row_fields_prefix(rv, cv, i + 1);
                }
                return None;
            },
            Some(f) => {
                let ghost before = fields@;
                fields.push(f);
                assert(crate::vault::strs(fields@) =~= crate::vault::strs(before).push(f@));
            },
        }
        i += 1;
    }
    assert(cv.take(columns.len() as int) =~= cv);
    let mut line = join_exec(&fields);
    line.append("\n");
    Some(line)
}

proof fn lemma_body_prefix(rows: Seq<Seq<CellV>>, columns: Seq<Seq<char>>, i: int)
    requires
        0 <= i <= rows.len(),
        body_lines(rows.take(i), columns) is None,
    ensures
        body_lines(rows, columns) is None,
    decreases rows.len(),
{
    if i == rows.len() {
        assert(rows.take(i) =~= rows);
    } else {
        assert(rows.drop_last().take(i) =~= rows.take(i));
        lemma_body_prefix(rows.drop_last(), columns, i);
    }
}

/// The CSV text of a result: a header line naming the columns (display
/// names, `formula.` dropped, friendly names of file properties, dots as
/// spaces), then one line per row. An abort error when a date cell leaves
/// the calendar's range.
pub fn write_csv(columns: &Vec<String>, rows: &Vec<Vec<Cell>>, base_file: &BaseFile) -> (r: Result<
    String,
    crate::error::CrabaseError,
>)
    ensures
        match csv_spec(crate::vault::strs(columns@), base_file@.properties, rows_view(rows@)) {
            Some(t) => r is Ok && r->Ok_0@ == t,
            None => r matches Err(crate::error::CrabaseError::Abort(_)),
        },
{
    let ghost cv = crate::vault::strs(columns@);
    let ghost props = base_file@.properties;
    let mut headers: Vec<String> = Vec::new();
    let mut i: usize = 0;
    while i < columns.len()
        invariant
            0 <= i <= columns.len(),
            cv == crate::vault::strs(columns@),
            props == base_file@.properties,
            crate::vault::strs(headers@) == cv.take(i as int).map_values(
                |c: Seq<char>| csv_field_spec(header_spec(c, props)),
            ),
        decreases columns.len() - i,
    {
        let ghost before = headers@;
        let h = csv_field(header_for(columns[i].as_str(), base_file).as_str());
        headers.push(h);
        assert(crate::vault::strs(headers@) =~= crate::vault::strs(before).push(h@));
        assert(cv.take(i + 1).map_values(|c: Seq<char>| csv_field_spec(header_spec(c, props))) =~= cv.take(
            i as int,
        ).map_values(|c: Seq<char>| csv_field_spec(header_spec(c, props))).push(
            csv_field_spec(header_spec(columns@[i as int]@, props)),
        ));
        i += 1;
    }
    assert(cv.take(columns.len() as int) =~= cv);
    let mut out = join_exec(&headers);
    out.append("\n");
    if columns.len() == 0 {
        return Ok(out);
    }
    let ghost header = out@;
    let ghost rv = rows_view(rows@);
    let mut body = String::new();
    let mut k: usize = 0;
    assert(rv.take(0) =~= Seq::<Seq<CellV>>::empty());
    while k < rows.len()
        invariant
            0 <= k <= rows.len(),
            cv == crate::vault::strs(columns@),
            rv == rows_view(rows@),
            body_lines(rv.take(k as int), cv) == Some(body@),
        decreases rows.len() - k,
    {
        assert(rv.take(k + 1).drop_last() =~= rv.take(k as int));
        assert(rv.take(k + 1).last() == cells_view(rows@[k as int]@));
        match row_line(&rows[k], columns) {
            None => {
                proof {
                    lemma_body_prefix(rv, cv, k + 1);
                }
                return Err(crate::error::CrabaseError::Abort(String::from_str("a date cell is out of range")));
            },
            Some(line) => {
                body.append(line.as_str());
            },
        }
        k += 1;
    }
    assert(rv.take(rows.len() as int) =~= rv);
    out.append(body.as_str());
    Ok(out)
}

// ---------- TOON ----------

/// A JSON value as the TOON writer receives it. A float is kept by its
/// decimal text.
#[derive(Debug)]
pub enum JsonValue {
    Null,
    Bool(bool),
    Int(i64),
    UInt(u64),
    Float(String),
    Str(String),
    Array(Vec<JsonValue>),
    Object(Vec<(String, JsonValue)>),
}

pub enum JsonV {
    Null,
    Bool(bool),
    Int(i64),
    UInt(u64),
    Float(Seq<char>),
    Str(Seq<char>),
    Array(Seq<JsonV>),
    Object(Seq<(Seq<char>, JsonV)>),
}

pub open spec fn json_view(j: JsonValue) -> JsonV
    decreases j,
{
    match j {
        JsonValue::Null => JsonV::Null,
        JsonValue::Bool(b) => JsonV::Bool(b),
        JsonValue::Int(n) => JsonV::Int(n),
        JsonValue::UInt(n) => JsonV::UInt(n),
        JsonValue::Float(t) => JsonV::Float(t@),
        JsonValue::Str(s) => JsonV::Str(s@),
        JsonValue::Array(items) => JsonV::Array(jsons_view(items@)),
        JsonValue::Object(entries) => JsonV::Object(entries_view(entries@)),
    }
}

pub open spec fn jsons_view(s: Seq<JsonValue>) -> Seq<JsonV>
    decreases s,
{
    if s.len() == 0 {
        Seq::empty()
    } else {
        jsons_view(s.drop_last()).push(json_view(s.last()))
    }
}

pub open spec fn entries_view(s: Seq<(String, JsonValue)>) -> Seq<(Seq<char>, JsonV)>
    decreases s,
{
    if s.len() == 0 {
        Seq::empty()
    } else {
        entries_view(s.drop_last()).push((s.last().0@, json_view(s.last().1)))
    }
}

impl vstd::view::View for JsonValue {
    type V = JsonV;

    open spec fn view(&self) -> JsonV {
        json_view(*self)
    }
}

/// A cell as a JSON value: null, booleans and integers as they are, a float
/// as an integer when it was shown as a whole number below 10^15 and as null
/// when it was not a number, durations by their count, and dates, lists and
/// other values as their text. None when a date leaves the calendar's range.
pub open spec fn json_cell_spec(c: CellV, tag_list: bool) -> Option<JsonV> {
    match c {
        CellV::Null => Some(JsonV::Null),
        CellV::Bool(b) => Some(JsonV::Bool(b)),
        CellV::Int(n) => Some(JsonV::Int(n)),
        CellV::UInt(n) => Some(JsonV::UInt(n)),
        CellV::Float(t) => if t.len() == 0 {
            Some(JsonV::Null)
        } else {
            match crate::vault::parse_i64_spec(t) {
                Some(i) => if -1_000_000_000_000_000 < i < 1_000_000_000_000_000 {
                    Some(JsonV::Int(i))
                } else {
                    Some(JsonV::Float(t))
                },
                None => Some(JsonV::Float(t)),
            }
        },
        CellV::Str(s) => Some(JsonV::Str(s)),
        CellV::Duration(n) => Some(JsonV::Int(n)),
        _ => match format_spec(c, if c is List { tag_list } else { false }) {
            Some(t) => Some(JsonV::Str(t)),
            None => None,
        },
    }
}

fn json_cell(c: &Cell, tag_list: bool) -> (r: Option<JsonValue>)
    ensures
        match json_cell_spec(c@, tag_list) {
            Some(j) => r is Some && r->0@ == j,
            None => r is None,
        },
{
    match c {
        Cell::Null => Some(JsonValue::Null),
        Cell::Bool(b) => Some(JsonValue::Bool(*b)),
        Cell::Int(n) => Some(JsonValue::Int(*n)),
        Cell::UInt(n) => Some(JsonValue::UInt(*n)),
        Cell::Float(t) => {
            if chars_of(t.as_str()).len() == 0 {
                return Some(JsonValue::Null);
            }
            match crate::vault::parse_i64(t.as_str()) {
                Some(i) => if -1_000_000_000_000_000 < i && i < 1_000_000_000_000_000 {
                    Some(JsonValue::Int(i))
                } else {
                    Some(JsonValue::Float(t.clone()))
                },
                None => Some(JsonValue::Float(t.clone())),
            }
        },
        Cell::Str(s) => Some(JsonValue::Str(s.clone())),
        Cell::Duration(n) => Some(JsonValue::Int(*n)),
        Cell::List(_) => match format_cell(c, tag_list) {
            Some(t) => Some(JsonValue::Str(t)),
            None => None,
        },
        _ => match format_cell(c, false) {
            Some(t) => Some(JsonValue::Str(t)),
            None => None,
        },
    }
}

/// The JSON object of a row: each column's header with the row's value
/// there (null where the row has no cell).
pub open spec fn row_object(
    row: Seq<CellV>,
    columns: Seq<Seq<char>>,
    props: Seq<(Seq<char>, Option<Seq<char>>)>,
) -> Option<Seq<(Seq<char>, JsonV)>>
    decreases columns.len(),
{
    if columns.len() == 0 {
        Some(Seq::empty())
    } else {
        let i = columns.len() - 1;
        match row_object(row, columns.drop_last(), props) {
            None => None,
            Some(prev) => {
                let v = if i < row.len() {
                    json_cell_spec(row[i], is_tag_column_spec(columns[i]))
                } else {
                    Some(JsonV::Null)
                };
                match v {
                    None => None,
                    Some(j) => Some(prev.push((header_spec(columns[i], props), j))),
                }
            },
        }
    }
}

pub open spec fn toon_rows(
    rows: Seq<Seq<CellV>>,
    columns: Seq<Seq<char>>,
    props: Seq<(Seq<char>, Option<Seq<char>>)>,
) -> Option<Seq<JsonV>>
    decreases rows.len(),
{
    if rows.len() == 0 {
        Some(Seq::empty())
    } else {
        match toon_rows(rows.drop_last(), columns, props) {
            None => None,
            Some(prev) => match row_object(rows.last(), columns, props) {
                None => None,
                Some(o) => Some(prev.push(JsonV::Object(o))),
            },
        }
    }
}

proof fn lemma_row_object_prefix(
    row: Seq<CellV>,
    columns: Seq<Seq<char>>,
    props: Seq<(Seq<char>, Option<Seq<char>>)>,
    i: int,
)
    requires
        0 <= i <= columns.len(),
        row_object(row, columns.take(i), props) is None,
    ensures
        row_object(row, columns, props) is None,
    decreases columns.len(),
{
    if i == columns.len() {
        assert(columns.take(i) =~= columns);
    } else {
        assert(columns.drop_last().take(i) =~= columns.take(i));
        lemma_row_object_prefix(row, columns.drop_last(), props, i);
    }
}

proof fn lemma_toon_rows_prefix(
    rows: Seq<Seq<CellV>>,
    columns: Seq<Seq<char>>,
    props: Seq<(Seq<char>, Option<Seq<char>>)>,
    i: int,
)
    requires
        0 <= i <= rows.len(),
        toon_rows(rows.take(i), columns, props) is None,
    ensures
        toon_rows(rows, columns, props) is None,
    decreases rows.len(),
{
    if i == rows.len() {
        assert(rows.take(i) =~= rows);
    } else {
        assert(rows.drop_last().take(i) =~= rows.take(i));
        lemma_toon_rows_prefix(rows.drop_last(), columns, props, i);
    }
}

fn row_json(row: &Vec<Cell>, columns: &Vec<String>, base_file: &BaseFile) -> (r: Option<JsonValue>)
    ensures
        match row_object(cells_view(row@), crate::vault::strs(columns@), base_file@.properties) {
            Some(o) => r is Some && r->0@ == JsonV::Object(o),
            None => r is None,
        },
{
    let ghost cv = crate::vault::strs(columns@);
    let ghost rv = cells_view(row@);
    let ghost props = base_file@.properties;
    proof {
        lemma_cells_view(row@);
    }
    let mut entries: Vec<(String, JsonValue)> = Vec::new();
    let mut i: usize = 0;
    assert(cv.take(0) =~= Seq::<Seq<char>>::empty());
    while i < columns.len()
        invariant
            0 <= i <= columns.len(),
            cv == crate::vault::strs(columns@),
            rv == cells_view(row@),
            props == base_file@.properties,
            rv.len() == row.len(),
            forall|k: int| 0 <= k < row.len() ==> #[trigger] rv[k] == cell_view(row@[k]),
            row_object(rv, cv.take(i as int), props) == Some(entries_view(entries@)),
        decreases columns.len() - i,
    {
        assert(cv.take(i + 1).drop_last() =~= cv.take(i as int));
        assert(cv.take(i + 1)[i as int] == columns@[i as int]@);
        let tag = is_tag_column(columns[i].as_str());
        let v = if i < row.len() {
            json_cell(&row[i], tag)
        } else {
            Some(JsonValue::Null)
        };
        match v {
            None => {
                proof {
                    lemma_row_object_prefix(rv, cv, props, i + 1);
                }
                return None;
            },
            Some(j) => {
                let ghost before = entries@;
                let h = header_for(columns[i].as_str(), base_file);
                let ghost e = (h, j);
                entries.push((h, j));
                assert(entries@ =~= before.push(e));
                assert(entries@.drop_last() =~= before);
            },
        }
        i += 1;
    }
    assert(cv.take(columns.len() as int) =~= cv);
    Some(JsonValue::Object(entries))
}

/// The rows of a result as the array of objects that the TOON writer
/// encodes: one object per row, keyed by the column headers. An abort error
/// when a date cell leaves the calendar's range.
pub fn toon_value(columns: &Vec<String>, rows: &Vec<Vec<Cell>>, base_file: &BaseFile) -> (r: Result<
    JsonValue,
    crate::error::CrabaseError,
>)
    ensures
        match toon_rows(rows_view(rows@), crate::vault::strs(columns@), base_file@.properties) {
            Some(items) => r is Ok && r->Ok_0@ == JsonV::Array(items),
            None => r matches Err(crate::error::CrabaseError::Abort(_)),
        },
{
    let ghost rv = rows_view(rows@);
    let ghost cv = crate::vault::strs(columns@);
    let ghost props = base_file@.properties;
    let mut items: Vec<JsonValue> = Vec::new();
    let mut k: usize = 0;
    assert(rv.take(0) =~= Seq::<Seq<CellV>>::empty());
    while k < rows.len()
        invariant
            0 <= k <= rows.len(),
            rv == rows_view(rows@),
            cv == crate::vault::strs(columns@),
            props == base_file@.properties,
            toon_rows(rv.take(k as int), cv, props) == Some(jsons_view(items@)),
        decreases rows.len() - k,
    {
        assert(rv.take(k + 1).drop_last() =~= rv.take(k as int));
        assert(rv.take(k + 1).last() == cells_view(rows@[k as int]@));
        match row_json(&rows[k], columns, base_file) {
            None => {
                proof {
                    lemma_toon_rows_prefix(rv, cv, props, k + 1);
                }
                return Err(crate::error::CrabaseError::Abort(String::from_str("a date cell is out of range")));
            },
            Some(o) => {
                let ghost before = items@;
                items.push(o);
                assert(items@ =~= before.push(o));
                assert(items@.drop_last() =~= before);
            },
        }
        k += 1;
    }
    assert(rv.take(rows.len() as int) =~= rv);
    Ok(JsonValue::Array(items))
}

} // verus!
