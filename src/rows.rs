//! Reconstruction of lecture records from table rows: the group anchor carried
//! over rows that omit it, order labels, lecture/teacher splitting and the
//! repair of rows that continue the previous row's order.
use vstd::prelude::*;

use crate::text::{
    chars_eq_str, chars_of, find_last, is_numeric, last_index_of, non_empty,
    numeric_char, opt_string_view, slice_chars, split_chars, split_on, string_of, string_views, trim, trim_chars,
    char_vec_views,
};

verus! {

/// The order cell of a raw record.
#[derive(Debug)]
pub enum RawOrder {
    /// The row gave no order at all.
    Missing,
    /// The row's own order label, possibly listing several slots ("1,2,3").
    Label(String),
    /// The row had no order cell: it takes the previous row's order.
    SameAsPrevious,
}

pub enum RawOrderView {
    Missing,
    Label(Seq<char>),
    SameAsPrevious,
}

impl View for RawOrder {
    type V = RawOrderView;

    open spec fn view(&self) -> RawOrderView {
        match self {
            RawOrder::Missing => RawOrderView::Missing,
            RawOrder::Label(s) => RawOrderView::Label(s@),
            RawOrder::SameAsPrevious => RawOrderView::SameAsPrevious,
        }
    }
}

/// One table row read as a lecture, before it is assigned to a group.
#[derive(Debug)]
pub struct RawLecture {
    pub order: RawOrder,
    pub group_name: Option<String>,
    pub subgroup: Option<String>,
    pub name: Option<String>,
    pub teacher: Option<String>,
    pub classroom: Option<String>,
}

pub struct RawLectureView {
    pub order: RawOrderView,
    pub group_name: Option<Seq<char>>,
    pub subgroup: Option<Seq<char>>,
    pub name: Option<Seq<char>>,
    pub teacher: Option<Seq<char>>,
    pub classroom: Option<Seq<char>>,
}

impl View for RawLecture {
    type V = RawLectureView;

    open spec fn view(&self) -> RawLectureView {
        RawLectureView {
            order: self.order@,
            group_name: opt_string_view(self.group_name),
            subgroup: opt_string_view(self.subgroup),
            name: opt_string_view(self.name),
            teacher: opt_string_view(self.teacher),
            classroom: opt_string_view(self.classroom),
        }
    }
}

pub open spec fn empty_raw() -> RawLectureView {
    RawLectureView {
        order: RawOrderView::Missing,
        group_name: None,
        subgroup: None,
        name: None,
        teacher: None,
        classroom: None,
    }
}

/// Whether a record is kept: it names a group, and its lecture cell is
/// present and does not say "none".
pub open spec fn keeps_record(x: RawLectureView) -> bool {
    &&& x.group_name is Some
    &&& x.name is Some
    &&& x.name->0 != "Нет"@
    &&& x.name->0 != "нет"@
}

pub open spec fn raw_views(s: Seq<RawLecture>) -> Seq<RawLectureView> {
    s.map_values(|r: RawLecture| r@)
}

/// A character that may stand in an order label: a digit (in the sense of
/// `char::is_numeric`), a bracket, a comma, a period, a space or the
/// abbreviation for "hour".
pub open spec fn is_order_char(c: char) -> bool {
    c == '(' || c == ')' || c == ',' || c == '.' || c == 'ч' || c == ' ' || numeric_char(c)
}

/// Whether a cell reads as an order label.
pub open spec fn is_order_label(s: Seq<char>) -> bool {
    forall|i: int| 0 <= i < s.len() ==> is_order_char(#[trigger] s[i])
}

/// Whether `cell` reads as an order label ("1", "1,2,3", "2(1ч)", or empty).
pub fn is_correct_order(cell: &str) -> (r: bool)
    ensures
        r == is_order_label(cell@),
{
    let cs = chars_of(cell);
    let mut i: usize = 0;
    while i < cs.len()
        invariant
            cs@ == cell@,
            i <= cs.len(),
            forall|k: int| 0 <= k < i ==> is_order_char(#[trigger] cs@[k]),
        decreases cs.len() - i,
    {
        let c = cs[i];
        if !(c == '(' || c == ')' || c == ',' || c == '.' || c == 'ч' || c == ' ' || is_numeric(c)) {
            assert(!is_order_char(cell@[i as int]));
            return false;
        }
        i = i + 1;
    }
    true
}

/// Whether the first space-separated word of `cell` is a group of the roster.
pub open spec fn names_group(roster: Seq<Seq<char>>, cell: Seq<char>) -> bool {
    roster.contains(split_on(cell, ' ')[0])
}

/// The group and subgroup named by a cell such as "Ир3-21 2 п/г": its first
/// two space-separated words, trimmed, where not empty.
pub open spec fn group_subgroup(cell: Seq<char>) -> (Option<Seq<char>>, Option<Seq<char>>) {
    let p = split_on(cell, ' ');
    (non_empty(trim(p[0])), if p.len() > 1 {
        non_empty(trim(p[1]))
    } else {
        None
    })
}

/// A lecture cell split at its last comma into lecture name and teacher; the
/// teacher is trimmed and left out where empty, and a cell without a comma
/// names no teacher.
pub open spec fn lecture_teacher(cell: Option<Seq<char>>) -> (Option<Seq<char>>, Option<Seq<char>>) {
    match cell {
        None => (None, None),
        Some(s) => match last_index_of(s, ',') {
            Some(k) => (Some(s.take(k)), non_empty(trim(s.skip(k + 1)))),
            None => (non_empty(s), None),
        },
    }
}

pub open spec fn cell_at(row: Seq<Seq<char>>, i: int) -> Option<Seq<char>> {
    if 0 <= i < row.len() {
        Some(row[i])
    } else {
        None
    }
}

/// Where the order cell of a row stands: right after the group cell when the
/// row names its group, else first.
pub open spec fn order_index(roster: Seq<Seq<char>>, row: Seq<Seq<char>>) -> int {
    if names_group(roster, row[0]) {
        1
    } else {
        0
    }
}

/// The record that `row` reads as, given the group of the rows above it.
pub open spec fn parse_row(
    roster: Seq<Seq<char>>,
    row: Seq<Seq<char>>,
    anchor: Seq<char>,
) -> RawLectureView {
    if row.len() == 0 {
        empty_raw()
    } else {
        let (group_name, subgroup) = if names_group(roster, row[0]) {
            group_subgroup(row[0])
        } else {
            group_subgroup(anchor)
        };
        let o = order_index(roster, row);
        let own_order = o < row.len() && is_order_label(row[o]);
        let order = if own_order {
            RawOrderView::Label(row[o])
        } else {
            RawOrderView::SameAsPrevious
        };
        let lecture_cell = if own_order {
            cell_at(row, o + 1)
        } else {
            cell_at(row, o)
        };
        let classroom_cell = if own_order {
            cell_at(row, o + 2)
        } else {
            cell_at(row, o + 1)
        };
        let (name, teacher) = lecture_teacher(lecture_cell);
        let classroom = match classroom_cell {
            Some(c) => non_empty(trim(c)),
            None => None,
        };
        RawLectureView { order, group_name, subgroup, name, teacher, classroom }
    }
}

/// The group cell that the next row inherits after `row`.
pub open spec fn next_anchor(roster: Seq<Seq<char>>, row: Seq<Seq<char>>, anchor: Seq<char>) -> Seq<
    char,
> {
    if row.len() > 0 && names_group(roster, row[0]) {
        row[0]
    } else {
        anchor
    }
}

/// The anchor before the first row: a name that is no group.
pub open spec fn initial_anchor() -> Seq<char> {
    seq!['U', 'n', 'k', 'n', 'o', 'w', 'n']
}

/// The group cell in force before row `k`.
pub open spec fn anchor_at(roster: Seq<Seq<char>>, rows: Seq<Seq<Seq<char>>>, k: int) -> Seq<char>
    decreases k,
{
    if k <= 0 {
        initial_anchor()
    } else {
        next_anchor(roster, rows[k - 1], anchor_at(roster, rows, k - 1))
    }
}

/// The records that the rows read as, one per row.
pub open spec fn parse_rows(roster: Seq<Seq<char>>, rows: Seq<Seq<Seq<char>>>) -> Seq<
    RawLectureView,
> {
    Seq::new(rows.len(), |k: int| parse_row(roster, rows[k], anchor_at(roster, rows, k)))
}

fn opt_string(o: Option<Vec<char>>) -> (r: Option<String>)
    ensures
        opt_string_view(r) == match o {
            Some(v) => Some(v@),
            None => None,
        },
{
    match o {
        Some(v) => Some(string_of(v.as_slice())),
        None => None,
    }
}

fn non_empty_chars(v: Vec<char>) -> (r: Option<Vec<char>>)
    ensures
        match r {
            Some(x) => non_empty(v@) == Some(x@),
            None => non_empty(v@) is None,
        },
{
    if v.len() == 0 {
        None
    } else {
        Some(v)
    }
}

fn roster_contains(roster: &[String], word: &[char]) -> (r: bool)
    ensures
        r == string_views(roster@).contains(word@),
{
    let mut i: usize = 0;
    while i < roster.len()
        invariant
            i <= roster.len(),
            forall|k: int| 0 <= k < i ==> roster@[k]@ != word@,
        decreases roster.len() - i,
    {
        if chars_eq_str(word, roster[i].as_str()) {
            assert(string_views(roster@)[i as int] == word@);
            return true;
        }
        i = i + 1;
    }
    assert forall|k: int| 0 <= k < roster@.len() implies string_views(roster@)[k] != word@ by {
        assert(roster@[k]@ != word@);
    }
    false
}

fn names_group_exec(roster: &[String], cell: &str) -> (r: bool)
    ensures
        r == names_group(string_views(roster@), cell@),
{
    let cs = chars_of(cell);
    let pieces = split_chars(cs.as_slice(), ' ');
    assert(pieces@[0]@ == split_on(cell@, ' ')[0]) by {
        assert(char_vec_views(pieces@)[0] == pieces@[0]@);
    }
    roster_contains(roster, pieces[0].as_slice())
}

/// The group and subgroup that a group cell such as "Ир3-21 2 п/г" names.
pub fn parse_group_subgroup_pair(cell: &str) -> (r: (Option<String>, Option<String>))
    ensures
        (opt_string_view(r.0), opt_string_view(r.1)) == group_subgroup(cell@),
{
    let cs = chars_of(cell);
    let pieces = split_chars(cs.as_slice(), ' ');
    assert(char_vec_views(pieces@)[0] == pieces@[0]@);
    let group = opt_string(non_empty_chars(trim_chars(pieces[0].as_slice())));
    let subgroup = if pieces.len() > 1 {
        assert(char_vec_views(pieces@)[1] == pieces@[1]@);
        opt_string(non_empty_chars(trim_chars(pieces[1].as_slice())))
    } else {
        None
    };
    (group, subgroup)
}

/// Splits a lecture cell at its last comma into lecture name and teacher.
pub fn split_teacher(cell: Option<&String>) -> (r: (Option<String>, Option<String>))
    ensures
        (opt_string_view(r.0), opt_string_view(r.1)) == lecture_teacher(
            match cell {
                Some(s) => Some(s@),
                None => None,
            },
        ),
{
    match cell {
        None => (None, None),
        Some(s) => {
            let cs = chars_of(s.as_str());
            match find_last(cs.as_slice(), ',') {
                Some(k) => {
                    let name = slice_chars(cs.as_slice(), 0, k);
                    let rest = slice_chars(cs.as_slice(), k + 1, cs.len());
                    assert(name@ =~= cs@.take(k as int));
                    assert(rest@ =~= cs@.skip(k + 1));
                    let teacher = opt_string(non_empty_chars(trim_chars(rest.as_slice())));
                    (Some(string_of(name.as_slice())), teacher)
                },
                None => (opt_string(non_empty_chars(cs)), None),
            }
        },
    }
}

fn classroom_exec(cell: Option<&String>) -> (r: Option<String>)
    ensures
        opt_string_view(r) == match cell {
            Some(c) => non_empty(trim(c@)),
            None => None,
        },
{
    match cell {
        Some(c) => {
            let cs = chars_of(c.as_str());
            opt_string(non_empty_chars(trim_chars(cs.as_slice())))
        },
        None => None,
    }
}

fn get_cell(row: &Vec<String>, i: usize) -> (r: Option<&String>)
    ensures
        match r {
            Some(s) => cell_at(string_views(row@), i as int) == Some(s@),
            None => cell_at(string_views(row@), i as int) is None,
        },
{
    if i < row.len() {
        Some(&row[i])
    } else {
        None
    }
}

/// Reads one row as a lecture record; `anchor` is the group cell of the rows
/// above and is replaced when this row names a group of the roster.
pub fn parse_raw_lecture(roster: &[String], row: &Vec<String>, anchor: &mut String) -> (r:
    RawLecture)
    ensures
        r@ == parse_row(string_views(roster@), string_views(row@), old(anchor)@),
        final(anchor)@ == next_anchor(string_views(roster@), string_views(row@), old(anchor)@),
{
    let ghost rv = string_views(row@);
    if row.len() == 0 {
        return RawLecture {
            order: RawOrder::Missing,
            group_name: None,
            subgroup: None,
            name: None,
            teacher: None,
            classroom: None,
        };
    }
    assert(rv[0] == row@[0]@);
    let names = names_group_exec(roster, row[0].as_str());
    let (group_name, subgroup) = if names {
        let pair = parse_group_subgroup_pair(row[0].as_str());
        *anchor = row[0].clone();
        pair
    } else {
        parse_group_subgroup_pair(anchor.as_str())
    };
    let o: usize = if names {
        1
    } else {
        0
    };
    let own_order = o < row.len() && is_correct_order(row[o].as_str());
    if o < row.len() {
        assert(rv[o as int] == row@[o as int]@);
    }
    let order = if own_order {
        RawOrder::Label(row[o].clone())
    } else {
        RawOrder::SameAsPrevious
    };
    let (lecture_at, classroom_at) = if own_order {
        (o + 1, o + 2)
    } else {
        (o, o + 1)
    };
    let (name, teacher) = split_teacher(get_cell(row, lecture_at));
    let classroom = classroom_exec(get_cell(row, classroom_at));
    RawLecture { order, group_name, subgroup, name, teacher, classroom }
}

pub open spec fn table_views(rows: Seq<Vec<String>>) -> Seq<Seq<Seq<char>>> {
    rows.map_values(|r: Vec<String>| string_views(r@))
}

/// Reads every row as a lecture record, carrying the group anchor down.
pub fn parse_raw_lectures(roster: &[String], rows: &[Vec<String>]) -> (r: Vec<RawLecture>)
    ensures
        raw_views(r@) == parse_rows(string_views(roster@), table_views(rows@)),
{
    let ghost ro = string_views(roster@);
    let ghost tv = table_views(rows@);
    let mut anchor = string_of(&['U', 'n', 'k', 'n', 'o', 'w', 'n']);
    let mut out: Vec<RawLecture> = Vec::new();
    let mut i: usize = 0;
    assert(anchor@ =~= initial_anchor());
    while i < rows.len()
        invariant
            i <= rows.len(),
            ro == string_views(roster@),
            tv == table_views(rows@),
            anchor@ == anchor_at(ro, tv, i as int),
            raw_views(out@) == parse_rows(ro, tv.take(i as int)),
        decreases rows.len() - i,
    {
        assert(tv[i as int] == string_views(rows@[i as int]@));
        let ghost old_anchor = anchor@;
        let x = parse_raw_lecture(roster, &rows[i], &mut anchor);
        let ghost before = raw_views(out@);
        out.push(x);
        i = i + 1;
        proof {
            let p = parse_rows(ro, tv.take(i as int));
            let q = parse_rows(ro, tv.take(i - 1));
            lemma_anchor_prefix(ro, tv, i as int, i - 1);
            assert(p[i - 1] == x@);
            assert forall|k: int| 0 <= k < i - 1 implies p[k] == q[k] by {
                lemma_anchor_prefix(ro, tv, i as int, k);
                lemma_anchor_prefix(ro, tv, i - 1, k);
                assert(tv.take(i as int)[k] == tv.take(i - 1)[k]);
            }
            assert(raw_views(out@) =~= before.push(x@));
            assert(raw_views(out@) =~= p);
        }
    }
    assert(tv.take(i as int) =~= tv);
    out
}

proof fn lemma_anchor_prefix(ro: Seq<Seq<char>>, tv: Seq<Seq<Seq<char>>>, m: int, k: int)
    requires
        0 <= k <= m <= tv.len(),
    ensures
        anchor_at(ro, tv.take(m), k) == anchor_at(ro, tv, k),
    decreases k,
{
    if k > 0 {
        lemma_anchor_prefix(ro, tv, m, k - 1);
    }
}

/// The records with every continuation order replaced by the order of the
/// record before it, as already repaired; a continuation with nothing before
/// it has no order.
pub open spec fn repair(s: Seq<RawLectureView>) -> Seq<RawLectureView>
    decreases s.len(),
{
    if s.len() == 0 {
        s
    } else {
        let p = repair(s.drop_last());
        let x = s.last();
        let prev = if p.len() > 0 {
            p.last().order
        } else {
            RawOrderView::Missing
        };
        let y = match x.order {
            RawOrderView::SameAsPrevious => RawLectureView { order: prev, ..x },
            _ => x,
        };
        p.push(y)
    }
}

pub proof fn lemma_repair_len(s: Seq<RawLectureView>)
    ensures
        repair(s).len() == s.len(),
    decreases s.len(),
{
    if s.len() > 0 {
        lemma_repair_len(s.drop_last());
    }
}

pub proof fn lemma_repair_prefix(s: Seq<RawLectureView>, m: int)
    requires
        0 <= m <= s.len(),
    ensures
        repair(s.take(m)) == repair(s).take(m),
    decreases s.len(),
{
    lemma_repair_len(s);
    if m == s.len() {
        assert(s.take(m) =~= s);
        assert(repair(s).take(m) =~= repair(s));
    } else {
        lemma_repair_prefix(s.drop_last(), m);
        assert(s.drop_last().take(m) =~= s.take(m));
        lemma_repair_len(s.drop_last());
        assert(repair(s).take(m) =~= repair(s.drop_last()).take(m));
    }
}

/// A row that continues the previous one takes exactly the previous record's
/// repaired order; any other row keeps its own.
pub proof fn lemma_repair_at(s: Seq<RawLectureView>, i: int)
    requires
        0 <= i < s.len(),
    ensures
        repair(s).len() == s.len(),
        s[i].order is SameAsPrevious && i > 0 ==> repair(s)[i].order == repair(s)[i - 1].order,
        s[i].order is SameAsPrevious && i == 0 ==> repair(s)[i].order is Missing,
        !(s[i].order is SameAsPrevious) ==> repair(s)[i].order == s[i].order,
        repair(s)[i].group_name == s[i].group_name,
        repair(s)[i].subgroup == s[i].subgroup,
        repair(s)[i].name == s[i].name,
        repair(s)[i].teacher == s[i].teacher,
        repair(s)[i].classroom == s[i].classroom,
{
    lemma_repair_len(s);
    lemma_repair_prefix(s, i + 1);
    let t = s.take(i + 1);
    assert(t.drop_last() =~= s.take(i));
    lemma_repair_prefix(s, i);
    lemma_repair_len(s.take(i));
    assert(repair(t).last() == repair(s)[i]);
    if i > 0 {
        assert(repair(s.take(i)).last() == repair(s)[i - 1]);
    }
}

/// Continuation repair carries through a run: after a record `j`, every record
/// up to `i` that continues its predecessor ends with record `j`'s order.
pub proof fn lemma_repair_run(s: Seq<RawLectureView>, j: int, i: int)
    requires
        0 <= j <= i < s.len(),
        forall|k: int| j < k <= i ==> (#[trigger] s[k]).order is SameAsPrevious,
    ensures
        repair(s)[i].order == repair(s)[j].order,
    decreases i - j,
{
    if i > j {
        lemma_repair_at(s, i);
        lemma_repair_run(s, j, i - 1);
    }
}

fn copy_opt(o: &Option<String>) -> (r: Option<String>)
    ensures
        opt_string_view(r) == opt_string_view(*o),
{
    match o {
        Some(s) => Some(s.clone()),
        None => None,
    }
}

fn copy_order(o: &RawOrder) -> (r: RawOrder)
    ensures
        r@ == o@,
{
    match o {
        RawOrder::Missing => RawOrder::Missing,
        RawOrder::Label(s) => RawOrder::Label(s.clone()),
        RawOrder::SameAsPrevious => RawOrder::SameAsPrevious,
    }
}

/// Replaces every continuation order with the order of the record before it.
pub fn repair_orders(raws: Vec<RawLecture>) -> (r: Vec<RawLecture>)
    ensures
        raw_views(r@) == repair(raw_views(raws@)),
{
    let ghost all = raw_views(raws@);
    let n: usize = raws.len();
    let mut rest = raws;
    let mut out: Vec<RawLecture> = Vec::new();
    assert(all.take(0) =~= Seq::<RawLectureView>::empty());
    assert(raw_views(rest@) =~= all.skip(0));
    while rest.len() > 0
        invariant
            all.len() == n,
            out.len() + rest.len() == n,
            raw_views(rest@) == all.skip(out.len() as int),
            raw_views(out@) == repair(all.take(out.len() as int)),
        decreases rest.len(),
    {
        let ghost rest_before = rest@;
        let ghost k = out.len() as int;
        let x = rest.remove(0);
        assert(x@ == all[k]) by {
            assert(raw_views(rest_before)[0] == all.skip(k)[0]);
        }
        assert(raw_views(rest@) =~= all.skip(k + 1)) by {
            assert(rest@ =~= rest_before.drop_first());
            assert(raw_views(rest@) =~= raw_views(rest_before).drop_first());
            assert(all.skip(k).drop_first() =~= all.skip(k + 1));
        }
        let y = match x.order {
            RawOrder::SameAsPrevious => {
                let order = if out.len() > 0 {
                    copy_order(&out[out.len() - 1].order)
                } else {
                    RawOrder::Missing
                };
                RawLecture { order, ..x }
            },
            _ => x,
        };
        proof {
            lemma_repair_len(all.take(k));
            assert(all.take(k + 1).drop_last() =~= all.take(k));
            if k > 0 {
                assert(raw_views(out@).last() == out@[k - 1]@);
            }
        }
        let ghost out_before = out@;
        out.push(y);
        assert(raw_views(out@) =~= raw_views(out_before).push(y@));
    }
    assert(all.take(n as int) =~= all);
    out
}

} // verus!
