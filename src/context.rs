//! Parsing a timetable: the date from the heading row, the lecture records
//! from the rows below it, and the snapshot built from them.
use vstd::prelude::*;

use crate::date::{is_even_week, parse_date, row_date, Date};
use crate::defaults::{DefaultGroupView, DefaultLectures};
use crate::grouping::{assign, assign_to_groups, roster_groups, with_lectures};
use crate::rows::{parse_raw_lectures, parse_rows, repair, repair_orders, table_views};
use crate::snapshot::{
    group_views, is_sorted, lemma_sort_lectures, sort_lectures, Group, GroupView,
    Id, Snapshot, SnapshotView,
};
use crate::table::Table;
use crate::text::string_views;

verus! {

/// The date of a timetable: the one its heading row names in the fallback's
/// year, else the fallback.
pub open spec fn table_date(rows: Seq<Seq<Seq<char>>>, fallback: Date) -> Date {
    if rows.len() == 0 {
        fallback
    } else {
        match row_date(rows[0], fallback.year) {
            Some(d) => d,
            None => fallback,
        }
    }
}

/// The rows below the heading row.
pub open spec fn body_rows(rows: Seq<Seq<Seq<char>>>) -> Seq<Seq<Seq<char>>> {
    if rows.len() == 0 {
        rows
    } else {
        rows.drop_first()
    }
}

pub open spec fn sorted_groups(gs: Seq<GroupView>) -> Seq<GroupView> {
    gs.map_values(|g: GroupView| GroupView { name: g.name, lectures: sort_lectures(g.lectures) })
}

/// The snapshot that a timetable stands for.
pub open spec fn table_snapshot(
    rows: Seq<Seq<Seq<char>>>,
    roster: Seq<Seq<char>>,
    defaults: Seq<DefaultGroupView>,
    fallback: Date,
) -> SnapshotView {
    let date = table_date(rows, fallback);
    let records = repair(parse_rows(roster, body_rows(rows)));
    SnapshotView {
        date,
        groups: sorted_groups(
            with_lectures(roster_groups(roster, assign(roster, defaults, is_even_week(date), records))),
        ),
    }
}

fn keep_with_lectures(groups: Vec<Group>) -> (r: Vec<Group>)
    requires
        forall|i: int| 0 <= i < groups.len() ==> (#[trigger] groups@[i]).wf(),
    ensures
        group_views(r@) == with_lectures(group_views(groups@)),
        forall|i: int| 0 <= i < r.len() ==> (#[trigger] r@[i]).wf(),
{
    let ghost all = group_views(groups@);
    let n: usize = groups.len();
    let mut rest = groups;
    let mut out: Vec<Group> = Vec::new();
    let mut k: usize = 0;
    assert(all.take(0) =~= Seq::<GroupView>::empty());
    assert(group_views(rest@) =~= all.skip(0));
    while rest.len() > 0
        invariant
            all.len() == n,
            k + rest.len() == n,
            group_views(rest@) == all.skip(k as int),
            group_views(out@) == with_lectures(all.take(k as int)),
            forall|i: int| 0 <= i < rest.len() ==> (#[trigger] rest@[i]).wf(),
            forall|i: int| 0 <= i < out.len() ==> (#[trigger] out@[i]).wf(),
        decreases rest.len(),
    {
        let ghost rest_before = rest@;
        let g = rest.remove(0);
        assert(g@ == all[k as int]) by {
            assert(group_views(rest_before)[0] == all.skip(k as int)[0]);
        }
        assert(group_views(rest@) =~= all.skip(k + 1)) by {
            assert(rest@ =~= rest_before.drop_first());
            assert(group_views(rest@) =~= group_views(rest_before).drop_first());
            assert(all.skip(k as int).drop_first() =~= all.skip(k + 1));
        }
        assert(all.take(k + 1).drop_last() =~= all.take(k as int));
        if g.has_lectures() {
            let ghost before = group_views(out@);
            out.push(g);
            assert(group_views(out@) =~= before.push(g@));
        }
        k = k + 1;
    }
    assert(all.take(k as int) =~= all);
    out
}

/// Parses a timetable into a snapshot. The heading row gives the date (in
/// the fallback date's year, or the fallback date itself where it names
/// none); the rows below it give the lectures of the roster's groups.
pub fn build_snapshot(table: Table, roster: &[String], defaults: &DefaultLectures, fallback_date: Date) -> (r:
    Snapshot)
    requires
        fallback_date.wf(),
    ensures
        r.wf(),
        r@ == table_snapshot(table_views(table.rows@), string_views(roster@), defaults.view(), fallback_date),
{
    let ghost tv = table_views(table.rows@);
    let mut rows = table.rows;
    let date = if rows.len() > 0 {
        let header = rows.remove(0);
        assert(tv[0] == string_views(header@));
        match parse_date(&header, fallback_date.year) {
            Some(d) => d,
            None => fallback_date,
        }
    } else {
        fallback_date
    };
    assert(table_views(rows@) =~= body_rows(tv));
    let is_week_even = date.is_week_even();
    let raws = parse_raw_lectures(roster, rows.as_slice());
    let repaired = repair_orders(raws);
    let groups = assign_to_groups(roster, defaults, &repaired, is_week_even);
    let kept = keep_with_lectures(groups);
    let r = Snapshot::new(date, kept);
    assert(r@.groups =~= sorted_groups(group_views(kept@)));
    r
}

/// Building a snapshot depends on the table, the roster, the default
/// schedule and the fallback date alone: two snapshots built from the same
/// inputs have the same identity.
pub proof fn lemma_build_is_deterministic(
    rows: Seq<Seq<Seq<char>>>,
    roster: Seq<Seq<char>>,
    defaults: Seq<DefaultGroupView>,
    fallback: Date,
    a: Snapshot,
    b: Snapshot,
)
    requires
        a.wf(),
        b.wf(),
        a@ == table_snapshot(rows, roster, defaults, fallback),
        b@ == table_snapshot(rows, roster, defaults, fallback),
    ensures
        a.spec_id() == b.spec_id(),
        a@ == b@,
{
}

proof fn lemma_with_lectures(gs: Seq<GroupView>)
    ensures
        forall|i: int|
            0 <= i < with_lectures(gs).len() ==> exists|j: int|
                0 <= j < gs.len() && #[trigger] with_lectures(gs)[i] == gs[j] && gs[j].lectures.len()
                    > 0,
    decreases gs.len(),
{
    if gs.len() > 0 {
        let d = gs.drop_last();
        lemma_with_lectures(d);
        let w = with_lectures(gs);
        let wd = with_lectures(d);
        assert forall|i: int| 0 <= i < w.len() implies exists|j: int|
            0 <= j < gs.len() && #[trigger] w[i] == gs[j] && gs[j].lectures.len() > 0 by {
            if i < wd.len() {
                assert(w[i] == wd[i]);
                let j = choose|j: int| 0 <= j < d.len() && wd[i] == d[j] && d[j].lectures.len() > 0;
                assert(gs[j] == d[j]);
            } else {
                assert(w[i] == gs[gs.len() - 1]);
            }
        }
    }
}

/// Every group of a parsed snapshot is a roster group with at least one
/// lecture, and its lectures are in order.
pub proof fn lemma_snapshot_groups(
    rows: Seq<Seq<Seq<char>>>,
    roster: Seq<Seq<char>>,
    defaults: Seq<DefaultGroupView>,
    fallback: Date,
)
    ensures
        ({
            let gs = table_snapshot(rows, roster, defaults, fallback).groups;
            forall|i: int|
                0 <= i < gs.len() ==> roster.contains((#[trigger] gs[i]).name) && gs[i].lectures.len()
                    > 0 && is_sorted(gs[i].lectures)
        }),
{
    let date = table_date(rows, fallback);
    let records = repair(parse_rows(roster, body_rows(rows)));
    let rg = roster_groups(roster, assign(roster, defaults, is_even_week(date), records));
    let w = with_lectures(rg);
    lemma_with_lectures(rg);
    let gs = table_snapshot(rows, roster, defaults, fallback).groups;
    assert forall|i: int| 0 <= i < gs.len() implies roster.contains((#[trigger] gs[i]).name)
        && gs[i].lectures.len() > 0 && is_sorted(gs[i].lectures) by {
        let j = choose|j: int| 0 <= j < rg.len() && w[i] == rg[j] && rg[j].lectures.len() > 0;
        assert(rg[j].name == roster[j]);
        lemma_sort_lectures(w[i].lectures);
    }
}

/// The settings a timetable is parsed with.
pub struct ParserContext {
    fallback_date: Date,
    group_names: Vec<String>,
    default_lectures: DefaultLectures,
}

impl ParserContext {
    pub closed spec fn spec_fallback_date(&self) -> Date {
        self.fallback_date
    }

    pub closed spec fn spec_group_names(&self) -> Seq<Seq<char>> {
        string_views(self.group_names@)
    }

    pub closed spec fn spec_defaults(&self) -> Seq<DefaultGroupView> {
        self.default_lectures.view()
    }

    /// A context with no groups and no default lectures.
    pub fn new(fallback_date: Date) -> (r: ParserContext)
        ensures
            r.spec_fallback_date() == fallback_date,
            r.spec_group_names() == Seq::<Seq<char>>::empty(),
            r.spec_defaults() == Seq::<DefaultGroupView>::empty(),
    {
        let r = ParserContext {
            fallback_date,
            group_names: Vec::new(),
            default_lectures: DefaultLectures::empty(),
        };
        assert(r.spec_group_names() =~= Seq::<Seq<char>>::empty());
        r
    }

    /// The same context with `names` as its roster.
    pub fn with_groups(self, names: Vec<String>) -> (r: ParserContext)
        ensures
            r.spec_fallback_date() == self.spec_fallback_date(),
            r.spec_group_names() == string_views(names@),
            r.spec_defaults() == self.spec_defaults(),
    {
        ParserContext { group_names: names, ..self }
    }

    /// The same context with `lectures` as its default schedule.
    pub fn with_default_lectures(self, lectures: DefaultLectures) -> (r: ParserContext)
        ensures
            r.spec_fallback_date() == self.spec_fallback_date(),
            r.spec_group_names() == self.spec_group_names(),
            r.spec_defaults() == lectures.view(),
    {
        ParserContext { default_lectures: lectures, ..self }
    }

    /// Parses `table` with this context's roster, default schedule and fallback date.
    pub fn parse(&self, table: Table) -> (r: Snapshot)
        requires
            self.spec_fallback_date().wf(),
        ensures
            r.wf(),
            r@ == table_snapshot(
                table_views(table.rows@),
                self.spec_group_names(),
                self.spec_defaults(),
                self.spec_fallback_date(),
            ),
    {
        build_snapshot(table, self.group_names.as_slice(), &self.default_lectures, self.fallback_date)
    }
}

} // verus!
