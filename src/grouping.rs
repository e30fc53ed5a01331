//! Building a snapshot from lecture records: the default-schedule overlay,
//! the expansion of multi-slot order labels and the assignment to the groups
//! of the roster.
use vstd::prelude::*;

use crate::defaults::{default_for, DefaultGroupView, DefaultLectures};
use crate::rows::{keeps_record, raw_views, RawLecture, RawLectureView, RawOrder, RawOrderView};
use crate::snapshot::{group_views, lecture_views, Group, GroupView, Lecture, LectureView};
use crate::text::{
    char_vec_views, chars_of, opt_str_view, opt_string_view, split_chars, split_on, string_of, string_views, text_eq,
    trim, trim_chars,
};

verus! {

/// Whether a lecture cell only says "as scheduled".
pub open spec fn as_scheduled(name: Seq<char>) -> bool {
    name == "По расписанию"@ || name == "по расписанию"@
}

pub open spec fn text_or_empty(o: Option<Seq<char>>) -> Seq<char> {
    match o {
        Some(s) => s,
        None => Seq::empty(),
    }
}

pub open spec fn or_else(a: Option<Seq<char>>, b: Option<Seq<char>>) -> Option<Seq<char>> {
    match a {
        Some(_) => a,
        None => b,
    }
}

pub open spec fn own_order(x: RawLectureView) -> Option<Seq<char>> {
    match x.order {
        RawOrderView::Label(o) => Some(o),
        _ => None,
    }
}

/// One lecture per comma-separated slot of `orders`, each slot trimmed, all
/// sharing the other fields.
pub open spec fn slot_lectures(
    orders: Seq<char>,
    name: Seq<char>,
    classroom: Option<Seq<char>>,
    subgroup: Option<Seq<char>>,
    teacher: Option<Seq<char>>,
) -> Seq<LectureView> {
    split_on(orders, ',').map_values(
        |p: Seq<char>|
            LectureView { order: Some(trim(p)), name, classroom, subgroup, teacher },
    )
}

/// The default lecture that stands in for `x`, where its lecture cell is
/// missing or says "as scheduled" and the default schedule has one.
pub open spec fn fallback_for(x: RawLectureView, defaults: Seq<DefaultGroupView>, is_week_even: bool) -> Option<LectureView> {
    if x.name is None || as_scheduled(x.name->0) {
        default_for(defaults, text_or_empty(x.group_name), is_week_even)
    } else {
        None
    }
}

/// The lectures that record `x` stands for.
pub open spec fn expand(
    x: RawLectureView,
    defaults: Seq<DefaultGroupView>,
    is_week_even: bool,
) -> Seq<LectureView> {
    match fallback_for(x, defaults, is_week_even) {
        Some(d) => slot_lectures(
            match own_order(x) {
                Some(o) => o,
                None => text_or_empty(d.order),
            },
            d.name,
            or_else(x.classroom, d.classroom),
            or_else(x.subgroup, d.subgroup),
            or_else(x.teacher, d.teacher),
        ),
        None => slot_lectures(
            text_or_empty(own_order(x)),
            text_or_empty(x.name),
            x.classroom,
            x.subgroup,
            x.teacher,
        ),
    }
}

/// The index of the first roster entry equal to `name`.
pub open spec fn roster_index(roster: Seq<Seq<char>>, name: Seq<char>) -> Option<int>
    decreases roster.len(),
{
    if roster.len() == 0 {
        None
    } else {
        match roster_index(roster.drop_last(), name) {
            Some(i) => Some(i),
            None => if roster.last() == name {
                Some(roster.len() - 1)
            } else {
                None
            },
        }
    }
}

/// The lectures of each roster group after the records `xs`, in the order of
/// the records.
pub open spec fn assign(
    roster: Seq<Seq<char>>,
    defaults: Seq<DefaultGroupView>,
    is_week_even: bool,
    xs: Seq<RawLectureView>,
) -> Seq<Seq<LectureView>>
    decreases xs.len(),
{
    if xs.len() == 0 {
        Seq::new(roster.len(), |i: int| Seq::<LectureView>::empty())
    } else {
        let acc = assign(roster, defaults, is_week_even, xs.drop_last());
        let x = xs.last();
        if keeps_record(x) {
            match roster_index(roster, x.group_name->0) {
                Some(i) => acc.update(i, acc[i] + expand(x, defaults, is_week_even)),
                None => acc,
            }
        } else {
            acc
        }
    }
}

pub open spec fn roster_groups(roster: Seq<Seq<char>>, per: Seq<Seq<LectureView>>) -> Seq<GroupView> {
    Seq::new(roster.len(), |i: int| GroupView { name: roster[i], lectures: per[i] })
}

/// The groups that have at least one lecture, in order.
pub open spec fn with_lectures(gs: Seq<GroupView>) -> Seq<GroupView>
    decreases gs.len(),
{
    if gs.len() == 0 {
        gs
    } else if gs.last().lectures.len() > 0 {
        with_lectures(gs.drop_last()).push(gs.last())
    } else {
        with_lectures(gs.drop_last())
    }
}

/// A record with its own order label, and no default lecture standing in for
/// it, expands into one lecture per comma-separated slot of the label ("1,2,3"
/// gives three), each slot trimmed, every other field shared.
pub proof fn lemma_multi_slot_expansion(
    x: RawLectureView,
    defaults: Seq<DefaultGroupView>,
    is_week_even: bool,
)
    requires
        x.order is Label,
        fallback_for(x, defaults, is_week_even) is None,
    ensures
        ({
            let ls = expand(x, defaults, is_week_even);
            let slots = split_on(x.order->Label_0, ',');
            &&& ls.len() == slots.len()
            &&& forall|k: int|
                0 <= k < ls.len() ==> (#[trigger] ls[k]).order == Some(trim(slots[k]))
                    && ls[k].name == text_or_empty(x.name) && ls[k].classroom == x.classroom
                    && ls[k].subgroup == x.subgroup && ls[k].teacher == x.teacher
        }),
{
}

proof fn lemma_roster_index_range(roster: Seq<Seq<char>>, name: Seq<char>)
    ensures
        roster_index(roster, name) matches Some(i) ==> 0 <= i < roster.len(),
    decreases roster.len(),
{
    if roster.len() > 0 {
        lemma_roster_index_range(roster.drop_last(), name);
    }
}

proof fn lemma_assign_len(
    roster: Seq<Seq<char>>,
    defaults: Seq<DefaultGroupView>,
    is_week_even: bool,
    xs: Seq<RawLectureView>,
)
    ensures
        assign(roster, defaults, is_week_even, xs).len() == roster.len(),
    decreases xs.len(),
{
    if xs.len() > 0 {
        lemma_assign_len(roster, defaults, is_week_even, xs.drop_last());
        if keeps_record(xs.last()) {
            lemma_roster_index_range(roster, xs.last().group_name->0);
        }
    }
}

proof fn lemma_roster_index(roster: Seq<Seq<char>>, name: Seq<char>, i: int)
    requires
        0 <= i <= roster.len(),
        forall|k: int| 0 <= k < i ==> roster[k] != name,
    ensures
        i < roster.len() && roster[i] == name ==> roster_index(roster, name) == Some(i),
        i == roster.len() ==> roster_index(roster, name) is None,
    decreases roster.len(),
{
    if roster.len() > 0 {
        let d = roster.drop_last();
        let j = if i < d.len() { i } else { d.len() as int };
        assert forall|k: int| 0 <= k < j implies d[k] != name by {
            assert(d[k] == roster[k]);
        }
        lemma_roster_index(d, name, j);
        if i < d.len() {
            assert(d[i] == roster[i]);
        }
    }
}

fn find_in_roster(roster: &[String], name: &str) -> (r: Option<usize>)
    ensures
        match r {
            Some(i) => roster_index(string_views(roster@), name@) == Some(i as int) && i
                < roster.len(),
            None => roster_index(string_views(roster@), name@) is None,
        },
{
    let ghost ro = string_views(roster@);
    let mut i: usize = 0;
    while i < roster.len()
        invariant
            i <= roster.len(),
            ro == string_views(roster@),
            forall|k: int| 0 <= k < i ==> ro[k] != name@,
        decreases roster.len() - i,
    {
        assert(ro[i as int] == roster@[i as int]@);
        if text_eq(roster[i].as_str(), name) {
            proof {
                lemma_roster_index(ro, name@, i as int);
            }
            return Some(i);
        }
        i = i + 1;
    }
    proof {
        lemma_roster_index(ro, name@, i as int);
    }
    None
}

fn copy_opt(o: &Option<String>) -> (r: Option<String>)
    ensures
        opt_string_view(r) == opt_string_view(*o),
{
    match o {
        Some(s) => Some(s.clone()),
        None => None,
    }
}

fn copy_opt_str(o: Option<&str>) -> (r: Option<String>)
    ensures
        opt_string_view(r) == opt_str_view(o),
{
    match o {
        Some(s) => Some(s.to_owned()),
        None => None,
    }
}

/// One lecture per comma-separated slot of `orders`.
pub fn slot_lectures_exec(
    orders: &str,
    name: &str,
    classroom: &Option<String>,
    subgroup: &Option<String>,
    teacher: &Option<String>,
) -> (r: Vec<Lecture>)
    ensures
        lecture_views(r@) == slot_lectures(orders@, name@, opt_string_view(*classroom), opt_string_view(*subgroup), opt_string_view(*teacher)),
        forall|i: int| 0 <= i < r.len() ==> (#[trigger] r@[i]).wf(),
{
    let ghost want = slot_lectures(orders@, name@, opt_string_view(*classroom), opt_string_view(*subgroup), opt_string_view(*teacher));
    let cs = chars_of(orders);
    let pieces = split_chars(cs.as_slice(), ',');
    let mut out: Vec<Lecture> = Vec::new();
    let mut i: usize = 0;
    while i < pieces.len()
        invariant
            i <= pieces.len(),
            char_vec_views(pieces@) == split_on(orders@, ','),
            want == slot_lectures(orders@, name@, opt_string_view(*classroom), opt_string_view(*subgroup), opt_string_view(*teacher)),
            lecture_views(out@) == want.take(i as int),
            forall|k: int| 0 <= k < out.len() ==> (#[trigger] out@[k]).wf(),
        decreases pieces.len() - i,
    {
        let slot = trim_chars(pieces[i].as_slice());
        assert(char_vec_views(pieces@)[i as int] == pieces@[i as int]@);
        let l = Lecture::new(
            Some(string_of(slot.as_slice())),
            name.to_owned(),
            copy_opt(classroom),
            copy_opt(subgroup),
            copy_opt(teacher),
        );
        let ghost before = lecture_views(out@);
        out.push(l);
        i = i + 1;
        assert(lecture_views(out@) =~= before.push(l@));
        assert(want.take(i as int) =~= want.take(i - 1).push(want[i - 1]));
    }
    assert(want.take(i as int) =~= want);
    out
}

fn or_default_field(own: &Option<String>, fallback: Option<&str>) -> (r: Option<String>)
    ensures
        opt_string_view(r) == or_else(opt_string_view(*own), opt_str_view(fallback)),
{
    match own {
        Some(c) => Some(c.clone()),
        None => copy_opt_str(fallback),
    }
}

fn expand_with_default(x: &RawLecture, d: &Lecture) -> (r: Vec<Lecture>)
    ensures
        lecture_views(r@) == slot_lectures(
            match own_order(x@) {
                Some(o) => o,
                None => text_or_empty(d@.order),
            },
            d@.name,
            or_else(x@.classroom, d@.classroom),
            or_else(x@.subgroup, d@.subgroup),
            or_else(x@.teacher, d@.teacher),
        ),
        forall|i: int| 0 <= i < r.len() ==> (#[trigger] r@[i]).wf(),
{
    proof {
        reveal_strlit("");
    }
    let orders: &str = match &x.order {
        RawOrder::Label(o) => o.as_str(),
        _ => match d.order() {
            Some(o) => o,
            None => "",
        },
    };
    let classroom = or_default_field(&x.classroom, d.classroom());
    let subgroup = or_default_field(&x.subgroup, d.subgroup());
    let teacher = or_default_field(&x.teacher, d.teacher());
    slot_lectures_exec(orders, d.name(), &classroom, &subgroup, &teacher)
}

fn expand_plain(x: &RawLecture) -> (r: Vec<Lecture>)
    ensures
        lecture_views(r@) == slot_lectures(
            text_or_empty(own_order(x@)),
            text_or_empty(x@.name),
            x@.classroom,
            x@.subgroup,
            x@.teacher,
        ),
        forall|i: int| 0 <= i < r.len() ==> (#[trigger] r@[i]).wf(),
{
    proof {
        reveal_strlit("");
    }
    let orders: &str = match &x.order {
        RawOrder::Label(o) => o.as_str(),
        _ => "",
    };
    let name: &str = match &x.name {
        Some(n) => n.as_str(),
        None => "",
    };
    assert(""@ =~= Seq::<char>::empty());
    assert(orders@ == text_or_empty(own_order(x@)));
    assert(name@ == text_or_empty(x@.name));
    slot_lectures_exec(orders, name, &x.classroom, &x.subgroup, &x.teacher)
}

/// The lectures that record `x` stands for: its own, one per slot of its order
/// label, or, where its lecture cell is missing or says "as scheduled", the
/// group's default lecture for the week, with the record's own order,
/// classroom, subgroup and teacher taking precedence.
pub fn expand_raw_lecture(x: &RawLecture, defaults: &DefaultLectures, is_week_even: bool) -> (r:
    Vec<Lecture>)
    ensures
        lecture_views(r@) == expand(x@, defaults.view(), is_week_even),
        forall|i: int| 0 <= i < r.len() ==> (#[trigger] r@[i]).wf(),
{
    proof {
        reveal_strlit("");
    }
    let group: &str = match &x.group_name {
        Some(g) => g.as_str(),
        None => "",
    };
    let wants_default = match &x.name {
        None => true,
        Some(n) => text_eq(n.as_str(), "По расписанию") || text_eq(n.as_str(), "по расписанию"),
    };
    let fallback = if wants_default {
        defaults.lecture_for(group, is_week_even)
    } else {
        None
    };
    assert(group@ == text_or_empty(x@.group_name));
    assert(fallback_for(x@, defaults.view(), is_week_even) == match fallback {
        Some(l) => Some(l@),
        None => None::<LectureView>,
    });
    match fallback {
        Some(d) => expand_with_default(x, d),
        None => expand_plain(x),
    }
}

/// Assigns the lectures of every kept record to the first roster group of its
/// name; records of groups outside the roster are dropped.
pub fn assign_to_groups(
    roster: &[String],
    defaults: &DefaultLectures,
    raws: &Vec<RawLecture>,
    is_week_even: bool,
) -> (r: Vec<Group>)
    ensures
        group_views(r@) == roster_groups(
            string_views(roster@),
            assign(string_views(roster@), defaults.view(), is_week_even, raw_views(raws@)),
        ),
        forall|i: int| 0 <= i < r.len() ==> (#[trigger] r@[i]).wf(),
{
    let ghost ro = string_views(roster@);
    let ghost xs = raw_views(raws@);
    let mut groups: Vec<Group> = Vec::new();
    let mut j: usize = 0;
    while j < roster.len()
        invariant
            j <= roster.len(),
            ro == string_views(roster@),
            groups.len() == j,
            forall|i: int| 0 <= i < j ==> (#[trigger] groups@[i])@ == (GroupView {
                name: ro[i],
                lectures: Seq::empty(),
            }),
            forall|i: int| 0 <= i < groups.len() ==> (#[trigger] groups@[i]).wf(),
        decreases roster.len() - j,
    {
        let g = Group::new(roster[j].as_str(), Vec::new());
        assert(g@.lectures =~= Seq::<LectureView>::empty());
        groups.push(g);
        j = j + 1;
    }
    assert(group_views(groups@) =~= roster_groups(ro, assign(ro, defaults.view(), is_week_even, xs.take(0))));
    let mut k: usize = 0;
    while k < raws.len()
        invariant
            k <= raws.len(),
            ro == string_views(roster@),
            xs == raw_views(raws@),
            groups.len() == roster.len(),
            group_views(groups@) == roster_groups(ro, assign(ro, defaults.view(), is_week_even, xs.take(k as int))),
            forall|i: int| 0 <= i < groups.len() ==> (#[trigger] groups@[i]).wf(),
        decreases raws.len() - k,
    {
        let x = &raws[k];
        assert(xs[k as int] == x@);
        assert(xs.take(k + 1).drop_last() =~= xs.take(k as int));
        proof {
            lemma_assign_len(ro, defaults.view(), is_week_even, xs.take(k as int));
        }
        let keep = match (&x.group_name, &x.name) {
            (Some(_), Some(n)) => !(text_eq(n.as_str(), "Нет") || text_eq(n.as_str(), "нет")),
            _ => false,
        };
        if keep {
            let name: &str = match &x.group_name {
                Some(g) => g.as_str(),
                None => "",
            };
            match find_in_roster(roster, name) {
                Some(i) => {
                    let lectures = expand_raw_lecture(x, defaults, is_week_even);
                    let ghost before = group_views(groups@);
                    let ghost gs_before = groups@;
                    let mut g = groups.remove(i);
                    let ghost g_before = g@;
                    assert(g_before == before[i as int]);
                    g.push_lectures(lectures);
                    groups.insert(i, g);
                    proof {
                        let acc = assign(ro, defaults.view(), is_week_even, xs.take(k as int));
                        assert(group_views(groups@) =~= before.update(i as int, g@));
                        let acc2 = acc.update(i as int, acc[i as int] + expand(x@, defaults.view(), is_week_even));
                        assert(before == roster_groups(ro, acc));
                        assert(acc.len() == ro.len());
                        assert(g@ == GroupView { name: ro[i as int], lectures: acc2[i as int] });
                        assert(roster_groups(ro, acc2) =~= before.update(i as int, g@));
                        assert forall|m: int| 0 <= m < groups.len() implies (#[trigger] groups@[m]).wf() by {
                            if m != i {
                                assert(groups@[m] == gs_before[m]);
                            }
                        }
                    }
                },
                None => {},
            }
        }
        k = k + 1;
    }
    assert(xs.take(k as int) =~= xs);
    groups
}

} // verus!
