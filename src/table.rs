//! Extraction of text tables from an HTML page: the rows of a table element,
//! each cell's text trimmed, with HTML entities decoded and whitespace
//! collapsed.
use vstd::prelude::*;

use crate::text::{
    chars_of, collapse, collapse_whitespace, string_of, string_views, trim, trim_chars,
};

verus! {

/// A table as rows of cell texts.
#[derive(Debug, PartialEq, Eq)]
pub struct Table {
    pub rows: Vec<Vec<String>>,
}

pub open spec fn str_views(v: Seq<&str>) -> Seq<Seq<char>> {
    v.map_values(|s: &str| s@)
}

/// What tl finds in `html`: for every element that `table_selector` matches,
/// in document order, and for every element inside it that `row_selector`
/// matches, in document order, the inner text of each of its direct
/// children; `None` where tl does not accept the document or the selector.
pub uninterp spec fn selected_table_cells(
    html: Seq<char>,
    table_selector: Seq<char>,
    row_selector: Seq<char>,
) -> Option<Seq<Seq<Seq<Seq<char>>>>>;

/// What aho-corasick makes of `text` with an automaton built from
/// `patterns` (standard match semantics): every match that `replace_all`
/// finds replaced by the text at the pattern's index; `text` itself where
/// the patterns cannot be compiled.
pub uninterp spec fn replaced_all(
    text: Seq<char>,
    patterns: Seq<Seq<char>>,
    replacements: Seq<Seq<char>>,
) -> Seq<char>;

pub open spec fn cells_views(t: Seq<Vec<Vec<String>>>) -> Seq<Seq<Seq<Seq<char>>>> {
    t.map_values(|rows: Vec<Vec<String>>| row_views(rows@))
}

/// Relies on tl's `parse`, `VDom::query_selector`, `HTMLTag::query_selector`,
/// `Node::children`, `Children::top` and `Node::inner_text`; no markup is
/// serialized, so the texts depend on the document alone.
#[verifier::external_body]
fn select_table_cells(html: &str, table_selector: &str, row_selector: &str) -> (r: Option<
    Vec<Vec<Vec<String>>>,
>)
    ensures
        match r {
            Some(t) => selected_table_cells(html@, table_selector@, row_selector@) == Some(
                cells_views(t@),
            ),
            None => selected_table_cells(html@, table_selector@, row_selector@) is None,
        },
{
    let dom = tl::parse(html, tl::ParserOptions::default()).ok()?;
    let parser = dom.parser();
    let tables = dom.query_selector(table_selector)?;
    Some(tables.filter_map(|h| h.get(parser)?.as_tag()).map(|t| {
        t.query_selector(parser, row_selector).into_iter().flatten().filter_map(|r| r.get(parser)).map(
            |r| match r.children() {
                Some(cs) => cs.top().iter().filter_map(|c| c.get(parser)).map(
                    |c| c.inner_text(parser).into_owned(),
                ).collect(),
                None => Vec::new(),
            },
        ).collect()
    }).collect())
}

/// Relies on aho-corasick's `AhoCorasick::new` and `AhoCorasick::replace_all`
/// (standard match semantics); the text comes back unchanged where the
/// patterns cannot be compiled.
#[verifier::external_body]
fn replace_all(text: &str, patterns: &[&str], replacements: &[&str]) -> (r: String)
    requires
        patterns@.len() == replacements@.len(),
    ensures
        r@ == replaced_all(text@, str_views(patterns@), str_views(replacements@)),
{
    match aho_corasick::AhoCorasick::new(patterns) {
        Ok(ac) => ac.replace_all(text, replacements),
        Err(_) => text.to_owned(),
    }
}

/// The HTML entities that cells are decoded from.
pub open spec fn entity_names() -> Seq<Seq<char>> {
    seq![
        "&lt;"@,
        "&gt;"@,
        "&amp;"@,
        "&nbsp;"@,
        "&ensp;"@,
        "&emsp;"@,
        "&copy;"@,
        "&mdash;"@,
        "&ndash;"@,
        "&shy;"@,
        "&laquo;"@,
        "&raquo;"@,
        "&hellip;"@,
        "&sect;"@,
    ]
}

/// The text that each entity of `entity_names` decodes to.
pub open spec fn entity_texts() -> Seq<Seq<char>> {
    seq![
        "<"@,
        ">"@,
        "&"@,
        " "@,
        " "@,
        " "@,
        "©"@,
        "—"@,
        "–"@,
        " "@,
        "«"@,
        "»"@,
        "..."@,
        "§"@,
    ]
}

/// `text` with its HTML entities decoded.
pub open spec fn entities_decoded(text: Seq<char>) -> Seq<char> {
    replaced_all(text, entity_names(), entity_texts())
}

/// Decodes the HTML entities of `text`.
pub fn decode_entities(text: &str) -> (r: String)
    ensures
        r@ == entities_decoded(text@),
{
    let names: Vec<&str> = vec![
        "&lt;",
        "&gt;",
        "&amp;",
        "&nbsp;",
        "&ensp;",
        "&emsp;",
        "&copy;",
        "&mdash;",
        "&ndash;",
        "&shy;",
        "&laquo;",
        "&raquo;",
        "&hellip;",
        "&sect;",
    ];
    let texts: Vec<&str> = vec!["<", ">", "&", " ", " ", " ", "©", "—", "–", " ", "«", "»", "...", "§"];
    assert(str_views(names@) =~= entity_names());
    assert(str_views(texts@) =~= entity_texts());
    replace_all(text, names.as_slice(), texts.as_slice())
}

/// The text of a cell: entities decoded, whitespace collapsed.
pub open spec fn normalized(text: Seq<char>) -> Seq<char> {
    collapse(entities_decoded(text))
}

/// Decodes the HTML entities of `text`, collapses each run of whitespace to a
/// single space and strips whitespace from both ends.
pub fn normalize(text: &str) -> (r: String)
    ensures
        r@ == normalized(text@),
{
    let decoded = decode_entities(text);
    collapse_whitespace(decoded.as_str())
}

/// The cells of a row: the texts that are not blank once trimmed, normalized.
pub open spec fn row_cells(raw: Seq<Seq<char>>) -> Seq<Seq<char>>
    decreases raw.len(),
{
    if raw.len() == 0 {
        raw
    } else if trim(raw.last()).len() > 0 {
        row_cells(raw.drop_last()).push(normalized(trim(raw.last())))
    } else {
        row_cells(raw.drop_last())
    }
}

/// Whether every cell of a row is empty.
pub open spec fn is_blank_row(cells: Seq<Seq<char>>) -> bool {
    forall|i: int| 0 <= i < cells.len() ==> (#[trigger] cells[i]).len() == 0
}

/// The rows of a table: each row's cells, leaving out the blank rows.
pub open spec fn table_rows(raw: Seq<Seq<Seq<char>>>) -> Seq<Seq<Seq<char>>>
    decreases raw.len(),
{
    if raw.len() == 0 {
        Seq::empty()
    } else if is_blank_row(row_cells(raw.last())) {
        table_rows(raw.drop_last())
    } else {
        table_rows(raw.drop_last()).push(row_cells(raw.last()))
    }
}

/// A row none of whose cells is blank keeps every cell, trimmed and
/// normalized, in order.
pub proof fn lemma_row_cells(raw: Seq<Seq<char>>)
    requires
        forall|i: int| 0 <= i < raw.len() ==> trim(#[trigger] raw[i]).len() > 0,
    ensures
        row_cells(raw) == raw.map_values(|c: Seq<char>| normalized(trim(c))),
    decreases raw.len(),
{
    if raw.len() > 0 {
        let d = raw.drop_last();
        assert forall|i: int| 0 <= i < d.len() implies trim(#[trigger] d[i]).len() > 0 by {
            assert(d[i] == raw[i]);
        }
        lemma_row_cells(d);
        assert(trim(raw[raw.len() - 1]).len() > 0);
        assert(raw.map_values(|c: Seq<char>| normalized(trim(c))) =~= d.map_values(
            |c: Seq<char>| normalized(trim(c)),
        ).push(normalized(trim(raw.last()))));
    }
}

/// A table keeps one row per raw row that is not blank once cleaned: with N
/// such rows and no blank one it has exactly those N rows, and with only
/// blank rows it has none.
pub proof fn lemma_table_rows(raw: Seq<Seq<Seq<char>>>)
    ensures
        (forall|i: int| 0 <= i < raw.len() ==> is_blank_row(row_cells(#[trigger] raw[i])))
            ==> table_rows(raw).len() == 0,
        (forall|i: int| 0 <= i < raw.len() ==> !is_blank_row(row_cells(#[trigger] raw[i])))
            ==> table_rows(raw) == raw.map_values(|r: Seq<Seq<char>>| row_cells(r)),
    decreases raw.len(),
{
    if raw.len() > 0 {
        let d = raw.drop_last();
        assert forall|i: int| 0 <= i < d.len() implies #[trigger] d[i] == raw[i] by {}
        lemma_table_rows(d);
        if forall|i: int| 0 <= i < raw.len() ==> is_blank_row(row_cells(#[trigger] raw[i])) {
            assert(is_blank_row(row_cells(raw[raw.len() - 1])));
            assert forall|i: int| 0 <= i < d.len() implies is_blank_row(row_cells(#[trigger] d[i])) by {
                assert(is_blank_row(row_cells(raw[i])));
            }
        }
        if forall|i: int| 0 <= i < raw.len() ==> !is_blank_row(row_cells(#[trigger] raw[i])) {
            assert(!is_blank_row(row_cells(raw[raw.len() - 1])));
            assert forall|i: int| 0 <= i < d.len() implies !is_blank_row(row_cells(#[trigger] d[i])) by {
                assert(!is_blank_row(row_cells(raw[i])));
            }
            assert(raw.map_values(|r: Seq<Seq<char>>| row_cells(r)) =~= d.map_values(
                |r: Seq<Seq<char>>| row_cells(r),
            ).push(row_cells(raw.last())));
        }
    }
}

pub open spec fn row_views(rows: Seq<Vec<String>>) -> Seq<Seq<Seq<char>>> {
    rows.map_values(|r: Vec<String>| string_views(r@))
}

fn clean_row(raw: &Vec<String>) -> (r: Vec<String>)
    ensures
        string_views(r@) == row_cells(string_views(raw@)),
{
    let ghost rv = string_views(raw@);
    let mut out: Vec<String> = Vec::new();
    let mut i: usize = 0;
    assert(rv.take(0) =~= Seq::<Seq<char>>::empty());
    while i < raw.len()
        invariant
            i <= raw.len(),
            rv == string_views(raw@),
            string_views(out@) == row_cells(rv.take(i as int)),
        decreases raw.len() - i,
    {
        assert(rv.take(i + 1).drop_last() =~= rv.take(i as int));
        assert(rv.take(i + 1).last() == raw@[i as int]@);
        let t = trim_chars(chars_of(raw[i].as_str()).as_slice());
        if t.len() > 0 {
            let cell = normalize(string_of(t.as_slice()).as_str());
            let ghost before = string_views(out@);
            out.push(cell);
            assert(string_views(out@) =~= before.push(cell@));
        }
        i = i + 1;
    }
    assert(rv.take(i as int) =~= rv);
    out
}

fn all_cells_empty(cells: &Vec<String>) -> (r: bool)
    ensures
        r == is_blank_row(string_views(cells@)),
{
    let mut i: usize = 0;
    while i < cells.len()
        invariant
            i <= cells.len(),
            forall|k: int| 0 <= k < i ==> (#[trigger] cells@[k])@.len() == 0,
        decreases cells.len() - i,
    {
        if cells[i].as_str().unicode_len() > 0 {
            assert(string_views(cells@)[i as int].len() > 0);
            return false;
        }
        i = i + 1;
    }
    assert forall|k: int| 0 <= k < cells@.len() implies (#[trigger] string_views(cells@)[k]).len()
        == 0 by {
        assert(cells@[k]@.len() == 0);
    }
    true
}

/// Cleans the rows of cell texts that tl read from a table: trims every cell,
/// drops the blank ones, normalizes the rest and drops the rows left blank.
pub fn table_from_cells(raw: &Vec<Vec<String>>) -> (r: Vec<Vec<String>>)
    ensures
        row_views(r@) == table_rows(row_views(raw@)),
{
    let ghost rv = row_views(raw@);
    let mut out: Vec<Vec<String>> = Vec::new();
    let mut i: usize = 0;
    assert(rv.take(0) =~= Seq::<Seq<Seq<char>>>::empty());
    while i < raw.len()
        invariant
            i <= raw.len(),
            rv == row_views(raw@),
            row_views(out@) == table_rows(rv.take(i as int)),
        decreases raw.len() - i,
    {
        assert(rv.take(i + 1).drop_last() =~= rv.take(i as int));
        assert(rv.take(i + 1).last() == string_views(raw@[i as int]@));
        let row = clean_row(&raw[i]);
        if !all_cells_empty(&row) {
            let ghost before = row_views(out@);
            out.push(row);
            assert(row_views(out@) =~= before.push(string_views(row@)));
        }
        i = i + 1;
    }
    assert(rv.take(i as int) =~= rv);
    out
}

/// The table at position `pick` (the first or the last table) of `html`:
/// `None` where there is no table, tl does not accept the document, or the
/// table has no row left once blank rows are dropped.
pub open spec fn picked_table(html: Seq<char>, last: bool) -> Option<Seq<Seq<Seq<char>>>> {
    match selected_table_cells(html, "table"@, "tr"@) {
        None => None,
        Some(ts) => if ts.len() == 0 {
            None
        } else {
            let rows = table_rows(
                if last {
                    ts.last()
                } else {
                    ts[0]
                },
            );
            if rows.len() > 0 {
                Some(rows)
            } else {
                None
            }
        },
    }
}

pub open spec fn table_opt_view(t: Option<Table>) -> Option<Seq<Seq<Seq<char>>>> {
    match t {
        Some(t) => Some(row_views(t.rows@)),
        None => None,
    }
}

fn parse_picked(html: &str, last: bool) -> (r: Option<Table>)
    ensures
        table_opt_view(r) == picked_table(html@, last),
{
    let tables = match select_table_cells(html, "table", "tr") {
        Some(t) => t,
        None => return None,
    };
    if tables.len() == 0 {
        return None;
    }
    let k: usize = if last {
        tables.len() - 1
    } else {
        0
    };
    assert(cells_views(tables@)[k as int] == row_views(tables@[k as int]@));
    let rows = table_from_cells(&tables[k]);
    if rows.len() > 0 {
        Some(Table { rows })
    } else {
        None
    }
}

/// The first table of `html`.
pub fn parse_first(html: &str) -> (r: Option<Table>)
    ensures
        table_opt_view(r) == picked_table(html@, false),
{
    parse_picked(html, false)
}

/// The last table of `html`.
pub fn parse_last(html: &str) -> (r: Option<Table>)
    ensures
        table_opt_view(r) == picked_table(html@, true),
{
    parse_picked(html, true)
}

/// The tables read from the raw cells, in order, leaving out those with no
/// row once blank rows are dropped.
pub open spec fn kept_tables(ts: Seq<Seq<Seq<Seq<char>>>>) -> Seq<Seq<Seq<Seq<char>>>>
    decreases ts.len(),
{
    if ts.len() == 0 {
        Seq::empty()
    } else if table_rows(ts.last()).len() > 0 {
        kept_tables(ts.drop_last()).push(table_rows(ts.last()))
    } else {
        kept_tables(ts.drop_last())
    }
}

/// Every table of `html` that has a row: `None` where there is none.
pub open spec fn all_tables(html: Seq<char>) -> Option<Seq<Seq<Seq<Seq<char>>>>> {
    match selected_table_cells(html, "table"@, "tr"@) {
        None => None,
        Some(ts) => if kept_tables(ts).len() == 0 {
            None
        } else {
            Some(kept_tables(ts))
        },
    }
}

pub open spec fn tables_views(ts: Seq<Table>) -> Seq<Seq<Seq<Seq<char>>>> {
    ts.map_values(|t: Table| row_views(t.rows@))
}

/// Every kept table has at least one row, and every row at least one
/// non-empty cell.
pub proof fn lemma_kept_tables(ts: Seq<Seq<Seq<Seq<char>>>>)
    ensures
        forall|i: int|
            0 <= i < kept_tables(ts).len() ==> (#[trigger] kept_tables(ts)[i]).len() > 0 && forall|
                j: int,
            |
                0 <= j < kept_tables(ts)[i].len() ==> !is_blank_row(#[trigger] kept_tables(ts)[i][j]),
    decreases ts.len(),
{
    if ts.len() > 0 {
        let d = ts.drop_last();
        lemma_kept_tables(d);
        lemma_table_rows_not_blank(ts.last());
        let k = kept_tables(ts);
        let kd = kept_tables(d);
        assert forall|i: int| 0 <= i < k.len() implies (#[trigger] k[i]).len() > 0 && forall|j: int|
            0 <= j < k[i].len() ==> !is_blank_row(#[trigger] k[i][j]) by {
            if i < kd.len() {
                assert(k[i] == kd[i]);
            }
        }
    }
}

/// No row of a table is blank.
pub proof fn lemma_table_rows_not_blank(raw: Seq<Seq<Seq<char>>>)
    ensures
        forall|j: int| 0 <= j < table_rows(raw).len() ==> !is_blank_row(#[trigger] table_rows(raw)[j]),
    decreases raw.len(),
{
    if raw.len() > 0 {
        let d = raw.drop_last();
        lemma_table_rows_not_blank(d);
        let t = table_rows(raw);
        let td = table_rows(d);
        assert forall|j: int| 0 <= j < t.len() implies !is_blank_row(#[trigger] t[j]) by {
            if j < td.len() {
                assert(t[j] == td[j]);
            }
        }
    }
}

proof fn lemma_kept_tables_empty(ts: Seq<Seq<Seq<Seq<char>>>>)
    requires
        forall|i: int| 0 <= i < ts.len() ==> (#[trigger] table_rows(ts[i])).len() == 0,
    ensures
        kept_tables(ts).len() == 0,
    decreases ts.len(),
{
    if ts.len() > 0 {
        let d = ts.drop_last();
        assert forall|i: int| 0 <= i < d.len() implies (#[trigger] table_rows(d[i])).len() == 0 by {
            assert(d[i] == ts[i]);
        }
        lemma_kept_tables_empty(d);
        assert(table_rows(ts[ts.len() - 1]).len() == 0);
    }
}

/// Every table in the result of `parse_all` has a row, and every row a
/// non-empty cell; where every table of the document has only rows whose
/// cells are all blank, there is no result.
pub proof fn lemma_all_tables(html: Seq<char>)
    ensures
        all_tables(html) matches Some(ts) ==> ts.len() > 0 && forall|i: int|
            0 <= i < ts.len() ==> (#[trigger] ts[i]).len() > 0 && forall|j: int|
                0 <= j < ts[i].len() ==> !is_blank_row(#[trigger] ts[i][j]),
        (selected_table_cells(html, "table"@, "tr"@) matches Some(raw) && forall|i: int, j: int|
            0 <= i < raw.len() && 0 <= j < raw[i].len() ==> is_blank_row(row_cells(#[trigger] raw[i][j])))
            ==> all_tables(html) is None,
{
    if let Some(raw) = selected_table_cells(html, "table"@, "tr"@) {
        lemma_kept_tables(raw);
        if forall|i: int, j: int|
            0 <= i < raw.len() && 0 <= j < raw[i].len() ==> is_blank_row(row_cells(#[trigger] raw[i][j])) {
            assert forall|i: int| 0 <= i < raw.len() implies (#[trigger] table_rows(raw[i])).len() == 0 by {
                assert forall|j: int| 0 <= j < raw[i].len() implies is_blank_row(row_cells(#[trigger] raw[i][j])) by {}
                lemma_table_rows(raw[i]);
            }
            lemma_kept_tables_empty(raw);
        }
    }
}

/// Every table of `html` that has a row.
pub fn parse_all(html: &str) -> (r: Option<Vec<Table>>)
    ensures
        match r {
            Some(ts) => all_tables(html@) == Some(tables_views(ts@)),
            None => all_tables(html@) is None,
        },
{
    let tables = match select_table_cells(html, "table", "tr") {
        Some(t) => t,
        None => return None,
    };
    let ghost tv = cells_views(tables@);
    let mut out: Vec<Table> = Vec::new();
    let mut i: usize = 0;
    assert(tv.take(0) =~= Seq::<Seq<Seq<Seq<char>>>>::empty());
    while i < tables.len()
        invariant
            i <= tables.len(),
            tv == cells_views(tables@),
            tables_views(out@) == kept_tables(tv.take(i as int)),
        decreases tables.len() - i,
    {
        assert(tv.take(i + 1).drop_last() =~= tv.take(i as int));
        assert(tv.take(i + 1).last() == row_views(tables@[i as int]@));
        let rows = table_from_cells(&tables[i]);
        if rows.len() > 0 {
            let ghost before = tables_views(out@);
            let ghost rv = row_views(rows@);
            out.push(Table { rows });
            assert(tables_views(out@) =~= before.push(rv));
        }
        i = i + 1;
    }
    assert(tv.take(i as int) =~= tv);
    if out.len() > 0 {
        Some(out)
    } else {
        None
    }
}

} // verus!
