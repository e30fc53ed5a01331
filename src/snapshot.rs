//! The schedule model: lectures, groups and snapshots, each carrying a digest
//! of its content as its identity.
use vstd::prelude::*;

use crate::date::Date;
use crate::digest::{digest_of, list_words, opt_text_words, text_words, Digest};
use crate::text::{
    compare_opt_text, lemma_opt_text_cmp_antisymmetric, opt_str_view, opt_string_view, opt_text_cmp,
    text_eq,
};

verus! {

/// What a lecture holds.
pub struct LectureView {
    pub order: Option<Seq<char>>,
    pub name: Seq<char>,
    pub classroom: Option<Seq<char>>,
    pub subgroup: Option<Seq<char>>,
    pub teacher: Option<Seq<char>>,
}

/// The identity of a lecture: a digest of all five fields, in a fixed order.
pub open spec fn lecture_digest(l: LectureView) -> u64 {
    digest_of(
        opt_text_words(l.order) + text_words(l.name) + opt_text_words(l.subgroup)
            + opt_text_words(l.classroom) + opt_text_words(l.teacher),
    )
}

pub open spec fn lecture_views(s: Seq<Lecture>) -> Seq<LectureView> {
    s.map_values(|l: Lecture| l@)
}

/// The identity of a group: a digest of its lectures' identities, in order.
pub open spec fn group_digest(ls: Seq<LectureView>) -> u64 {
    digest_of(list_words(ls.map_values(|l: LectureView| lecture_digest(l))))
}

/// What a group holds.
pub struct GroupView {
    pub name: Seq<char>,
    pub lectures: Seq<LectureView>,
}

pub open spec fn group_views(s: Seq<Group>) -> Seq<GroupView> {
    s.map_values(|g: Group| g@)
}

/// The identity of a snapshot: a digest of its groups' identities, in order.
pub open spec fn snapshot_digest(gs: Seq<GroupView>) -> u64 {
    digest_of(list_words(gs.map_values(|g: GroupView| group_digest(g.lectures))))
}

/// What a snapshot holds.
pub struct SnapshotView {
    pub date: Date,
    pub groups: Seq<GroupView>,
}

/// A content identity.
pub trait Id {
    spec fn spec_id(&self) -> u64;

    fn id(&self) -> (r: u64)
        ensures
            r == self.spec_id(),
    ;
}

/// One lecture slot of a group.
#[derive(Clone, Debug)]
pub struct Lecture {
    id: u64,
    order: Option<String>,
    name: String,
    classroom: Option<String>,
    subgroup: Option<String>,
    teacher: Option<String>,
}

impl View for Lecture {
    type V = LectureView;

    closed spec fn view(&self) -> LectureView {
        LectureView {
            order: opt_string_view(self.order),
            name: self.name@,
            classroom: opt_string_view(self.classroom),
            subgroup: opt_string_view(self.subgroup),
            teacher: opt_string_view(self.teacher),
        }
    }
}

impl Id for Lecture {
    closed spec fn spec_id(&self) -> u64 {
        self.id
    }

    fn id(&self) -> (r: u64) {
        self.id
    }
}

fn opt_as_str(o: &Option<String>) -> (r: Option<&str>)
    ensures
        opt_str_view(r) == opt_string_view(*o),
{
    match o {
        Some(s) => Some(s.as_str()),
        None => None,
    }
}

impl Lecture {
    /// The identity matches the content.
    pub open spec fn wf(&self) -> bool {
        self.spec_id() == lecture_digest(self@)
    }

    pub fn new(
        order: Option<String>,
        name: String,
        classroom: Option<String>,
        subgroup: Option<String>,
        teacher: Option<String>,
    ) -> (r: Lecture)
        ensures
            r.wf(),
            r@ == (LectureView {
                order: opt_string_view(order),
                name: name@,
                classroom: opt_string_view(classroom),
                subgroup: opt_string_view(subgroup),
                teacher: opt_string_view(teacher),
            }),
    {
        let mut d = Digest::new();
        d.opt_text(&order);
        d.text(name.as_str());
        d.opt_text(&subgroup);
        d.opt_text(&classroom);
        d.opt_text(&teacher);
        let r = Lecture { id: d.state, order, name, classroom, subgroup, teacher };
        assert(d.words@ =~= opt_text_words(r@.order) + text_words(r@.name) + opt_text_words(
            r@.subgroup,
        ) + opt_text_words(r@.classroom) + opt_text_words(r@.teacher));
        r
    }

    pub fn name(&self) -> (r: &str)
        ensures
            r@ == self@.name,
    {
        self.name.as_str()
    }

    pub fn order(&self) -> (r: Option<&str>)
        ensures
            opt_str_view(r) == self@.order,
    {
        opt_as_str(&self.order)
    }

    pub fn subgroup(&self) -> (r: Option<&str>)
        ensures
            opt_str_view(r) == self@.subgroup,
    {
        opt_as_str(&self.subgroup)
    }

    pub fn teacher(&self) -> (r: Option<&str>)
        ensures
            opt_str_view(r) == self@.teacher,
    {
        opt_as_str(&self.teacher)
    }

    pub fn classroom(&self) -> (r: Option<&str>)
        ensures
            opt_str_view(r) == self@.classroom,
    {
        opt_as_str(&self.classroom)
    }
}

/// Whether `a` may stand before `b` in a group: by subgroup, then by order
/// label, each compared as text with absence first (so "10" comes before "2").
pub open spec fn lecture_le(a: LectureView, b: LectureView) -> bool {
    let c = opt_text_cmp(a.subgroup, b.subgroup);
    c < 0 || (c == 0 && opt_text_cmp(a.order, b.order) <= 0)
}

/// `x` inserted into `sorted` after every lecture that may stand before it.
pub open spec fn insert_sorted(sorted: Seq<LectureView>, x: LectureView) -> Seq<LectureView>
    decreases sorted.len(),
{
    if sorted.len() == 0 {
        seq![x]
    } else if lecture_le(sorted.last(), x) {
        sorted.push(x)
    } else {
        insert_sorted(sorted.drop_last(), x).push(sorted.last())
    }
}

/// The stable sort of `s` by subgroup, then order label.
pub open spec fn sort_lectures(s: Seq<LectureView>) -> Seq<LectureView>
    decreases s.len(),
{
    if s.len() == 0 {
        s
    } else {
        insert_sorted(sort_lectures(s.drop_last()), s.last())
    }
}

/// Whether every lecture may stand before the next one.
pub open spec fn is_sorted(s: Seq<LectureView>) -> bool {
    forall|i: int| 0 <= i < s.len() - 1 ==> lecture_le(#[trigger] s[i], s[i + 1])
}

/// Of any two lectures, one may stand before the other.
pub proof fn lemma_lecture_le_total(a: LectureView, b: LectureView)
    ensures
        lecture_le(a, b) || lecture_le(b, a),
{
    lemma_opt_text_cmp_antisymmetric(a.order, b.order);
    lemma_opt_text_cmp_antisymmetric(a.subgroup, b.subgroup);
}

proof fn lemma_insert_sorted(sorted: Seq<LectureView>, x: LectureView)
    requires
        is_sorted(sorted),
    ensures
        is_sorted(insert_sorted(sorted, x)),
        insert_sorted(sorted, x).to_multiset() == sorted.to_multiset().insert(x),
        insert_sorted(sorted, x).len() == sorted.len() + 1,
        insert_sorted(sorted, x).last() == x || (sorted.len() > 0 && insert_sorted(sorted, x).last()
            == sorted.last()),
    decreases sorted.len(),
{
    broadcast use vstd::seq_lib::group_to_multiset_ensures, vstd::multiset::group_multiset_axioms;

    if sorted.len() == 0 {
        assert(seq![x] =~= sorted.push(x));
    } else if lecture_le(sorted.last(), x) {
        let r = sorted.push(x);
        assert forall|i: int| 0 <= i < r.len() - 1 implies lecture_le(#[trigger] r[i], r[i + 1]) by {
            if i < sorted.len() - 1 {
                assert(r[i] == sorted[i] && r[i + 1] == sorted[i + 1]);
            }
        }
    } else {
        let d = sorted.drop_last();
        assert(is_sorted(d)) by {
            assert forall|i: int| 0 <= i < d.len() - 1 implies lecture_le(#[trigger] d[i], d[i + 1]) by {
                assert(d[i] == sorted[i] && d[i + 1] == sorted[i + 1]);
            }
        }
        lemma_insert_sorted(d, x);
        lemma_lecture_le_total(sorted.last(), x);
        let inner = insert_sorted(d, x);
        let r = inner.push(sorted.last());
        if d.len() > 0 {
            assert(lecture_le(sorted[d.len() - 1], sorted[d.len() as int]));
        }
        assert(d.push(sorted.last()) =~= sorted);
        assert(r.to_multiset() =~= sorted.to_multiset().insert(x));
        assert forall|i: int| 0 <= i < r.len() - 1 implies lecture_le(#[trigger] r[i], r[i + 1]) by {
            if i < inner.len() - 1 {
                assert(r[i] == inner[i] && r[i + 1] == inner[i + 1]);
            } else {
                assert(r[i] == inner.last());
            }
        }
    }
}

/// The sorted lectures are the given ones in order: each may stand before
/// the next, by subgroup first and order label second, and none is lost or
/// added.
pub proof fn lemma_sort_lectures(s: Seq<LectureView>)
    ensures
        is_sorted(sort_lectures(s)),
        sort_lectures(s).len() == s.len(),
        sort_lectures(s).to_multiset() == s.to_multiset(),
    decreases s.len(),
{
    broadcast use vstd::seq_lib::group_to_multiset_ensures;

    if s.len() > 0 {
        assert(s.drop_last().push(s.last()) =~= s);
        lemma_sort_lectures(s.drop_last());
        lemma_insert_sorted(sort_lectures(s.drop_last()), s.last());
    }
}

proof fn lemma_insert_at(sorted: Seq<LectureView>, x: LectureView, j: int)
    requires
        0 <= j <= sorted.len(),
        forall|m: int| j <= m < sorted.len() ==> !lecture_le(#[trigger] sorted[m], x),
        j == 0 || lecture_le(sorted[j - 1], x),
    ensures
        insert_sorted(sorted, x) == sorted.take(j).push(x) + sorted.skip(j),
    decreases sorted.len(),
{
    if sorted.len() == j {
        assert(sorted.take(j) =~= sorted);
        assert(sorted.skip(j) =~= Seq::<LectureView>::empty());
        if j == 0 {
            assert(sorted.take(j).push(x) + sorted.skip(j) =~= seq![x]);
        } else {
            assert(sorted.take(j).push(x) + sorted.skip(j) =~= sorted.push(x));
        }
    } else {
        let d = sorted.drop_last();
        assert(!lecture_le(sorted[sorted.len() - 1], x));
        lemma_insert_at(d, x, j);
        assert(d.take(j) =~= sorted.take(j));
        assert(d.skip(j).push(sorted.last()) =~= sorted.skip(j));
        assert((d.take(j).push(x) + d.skip(j)).push(sorted.last()) =~= sorted.take(j).push(x)
            + sorted.skip(j));
    }
}

fn lecture_le_exec(a: &Lecture, b: &Lecture) -> (r: bool)
    ensures
        r == lecture_le(a@, b@),
{
    let c = compare_opt_text(a.subgroup(), b.subgroup());
    c < 0 || (c == 0 && compare_opt_text(a.order(), b.order()) <= 0)
}

fn sorted_lectures(lectures: Vec<Lecture>) -> (r: Vec<Lecture>)
    requires
        forall|i: int| 0 <= i < lectures.len() ==> (#[trigger] lectures@[i]).wf(),
    ensures
        lecture_views(r@) == sort_lectures(lecture_views(lectures@)),
        forall|i: int| 0 <= i < r.len() ==> (#[trigger] r@[i]).wf(),
{
    let ghost all = lecture_views(lectures@);
    let n: usize = lectures.len();
    let mut rest = lectures;
    let mut out: Vec<Lecture> = Vec::new();
    let mut k: usize = 0;
    assert(all.take(0) =~= Seq::<LectureView>::empty());
    assert(lecture_views(out@) =~= Seq::<LectureView>::empty());
    assert(lecture_views(rest@) =~= all.skip(0));
    while rest.len() > 0
        invariant
            all.len() == n,
            all.len() == k + rest.len(),
            lecture_views(rest@) == all.skip(k as int),
            lecture_views(out@) == sort_lectures(all.take(k as int)),
            forall|i: int| 0 <= i < rest.len() ==> (#[trigger] rest@[i]).wf(),
            forall|i: int| 0 <= i < out.len() ==> (#[trigger] out@[i]).wf(),
        decreases rest.len(),
    {
        let ghost rest_before = rest@;
        let x = rest.remove(0);
        assert(x@ == all[k as int]) by {
            assert(lecture_views(rest_before)[0] == all.skip(k as int)[0]);
        }
        assert(lecture_views(rest@) =~= all.skip(k + 1)) by {
            assert(rest@ =~= rest_before.drop_first());
            assert(lecture_views(rest@) =~= lecture_views(rest_before).drop_first());
            assert(all.skip(k as int).drop_first() =~= all.skip(k + 1));
        }
        let ghost sorted = lecture_views(out@);
        let mut j: usize = out.len();
        while j > 0 && !lecture_le_exec(&out[j - 1], &x)
            invariant
                j <= out.len(),
                sorted == lecture_views(out@),
                forall|m: int| j <= m < out.len() ==> !lecture_le(#[trigger] sorted[m], x@),
            decreases j,
        {
            j = j - 1;
        }
        proof {
            lemma_insert_at(sorted, x@, j as int);
        }
        let ghost out_before = out@;
        out.insert(j, x);
        assert(lecture_views(out@) =~= sorted.take(j as int).push(x@) + sorted.skip(j as int)) by {
            assert(out@ =~= out_before.take(j as int).push(x) + out_before.skip(j as int));
        }
        assert(all.take(k + 1).drop_last() =~= all.take(k as int));
        k = k + 1;
    }
    assert(all.take(k as int) =~= all);
    out
}

/// A study group and its lectures.
#[derive(Clone, Debug)]
pub struct Group {
    id: u64,
    name: String,
    lectures: Vec<Lecture>,
}

impl View for Group {
    type V = GroupView;

    closed spec fn view(&self) -> GroupView {
        GroupView { name: self.name@, lectures: lecture_views(self.lectures@) }
    }
}

impl Id for Group {
    closed spec fn spec_id(&self) -> u64 {
        self.id
    }

    fn id(&self) -> (r: u64) {
        self.id
    }
}

fn lectures_digest(lectures: &Vec<Lecture>) -> (r: u64)
    requires
        forall|i: int| 0 <= i < lectures.len() ==> (#[trigger] lectures@[i]).wf(),
    ensures
        r == group_digest(lecture_views(lectures@)),
{
    let ghost ids = lecture_views(lectures@).map_values(|l: LectureView| lecture_digest(l));
    let mut d = Digest::new();
    d.word(lectures.len() as u64);
    let mut i: usize = 0;
    while i < lectures.len()
        invariant
            i <= lectures.len(),
            d.wf(),
            ids == lecture_views(lectures@).map_values(|l: LectureView| lecture_digest(l)),
            forall|k: int| 0 <= k < lectures.len() ==> (#[trigger] lectures@[k]).wf(),
            d.words@ == seq![lectures.len() as u64] + ids.take(i as int),
        decreases lectures.len() - i,
    {
        let w = lectures[i].id();
        assert(w == ids[i as int]);
        d.word(w);
        i = i + 1;
        assert(d.words@ =~= seq![lectures.len() as u64] + ids.take(i as int));
    }
    assert(ids.take(i as int) =~= ids);
    assert(d.words@ =~= list_words(ids));
    d.state
}

impl Group {
    /// The identity matches the content and every lecture is well formed.
    pub open spec fn wf(&self) -> bool {
        &&& self.spec_id() == group_digest(self@.lectures)
        &&& self.lectures_wf()
    }

    pub closed spec fn lectures_wf(&self) -> bool {
        forall|i: int| 0 <= i < self.lectures.len() ==> (#[trigger] self.lectures@[i]).wf()
    }

    pub fn new(name: &str, lectures: Vec<Lecture>) -> (r: Group)
        requires
            forall|i: int| 0 <= i < lectures.len() ==> (#[trigger] lectures@[i]).wf(),
        ensures
            r.wf(),
            r@ == (GroupView { name: name@, lectures: lecture_views(lectures@) }),
    {
        let id = lectures_digest(&lectures);
        Group { id, name: name.to_owned(), lectures }
    }

    pub fn name(&self) -> (r: &str)
        ensures
            r@ == self@.name,
    {
        self.name.as_str()
    }

    pub fn lectures(&self) -> (r: &[Lecture])
        requires
            self.wf(),
        ensures
            lecture_views(r@) == self@.lectures,
            forall|i: int| 0 <= i < r@.len() ==> (#[trigger] r@[i]).wf(),
    {
        self.lectures.as_slice()
    }

    pub fn has_lectures(&self) -> (r: bool)
        ensures
            r == (self@.lectures.len() > 0),
    {
        self.lectures.len() > 0
    }

    /// Appends `lectures` after the group's own.
    pub fn push_lectures(&mut self, lectures: Vec<Lecture>)
        requires
            old(self).wf(),
            forall|i: int| 0 <= i < lectures.len() ==> (#[trigger] lectures@[i]).wf(),
        ensures
            final(self).wf(),
            final(self)@ == (GroupView {
                name: old(self)@.name,
                lectures: old(self)@.lectures + lecture_views(lectures@),
            }),
    {
        let mut more = lectures;
        let ghost before = self.lectures@;
        let ghost added = more@;
        self.lectures.append(&mut more);
        assert(self.lectures@ =~= before + added);
        assert(lecture_views(self.lectures@) =~= lecture_views(before) + lecture_views(added));
        assert(forall|i: int|
            0 <= i < self.lectures.len() ==> (#[trigger] self.lectures@[i]).wf()) by {
            assert forall|i: int| 0 <= i < self.lectures.len() implies (
            #[trigger] self.lectures@[i]).wf() by {
                if i < before.len() {
                    assert(self.lectures@[i] == before[i]);
                } else {
                    assert(self.lectures@[i] == added[i - before.len()]);
                }
            }
        }
        self.id = lectures_digest(&self.lectures);
    }

    /// Replaces the group's lectures.
    pub fn set_lectures(&mut self, lectures: Vec<Lecture>)
        requires
            forall|i: int| 0 <= i < lectures.len() ==> (#[trigger] lectures@[i]).wf(),
        ensures
            final(self).wf(),
            final(self)@ == (GroupView { name: old(self)@.name, lectures: lecture_views(lectures@) }),
    {
        self.id = lectures_digest(&lectures);
        self.lectures = lectures;
    }

    /// Orders the lectures by subgroup, then order label, keeping the given
    /// order among equal keys.
    pub fn sort_lectures(&mut self)
        requires
            old(self).wf(),
        ensures
            final(self).wf(),
            final(self)@ == (GroupView {
                name: old(self)@.name,
                lectures: sort_lectures(old(self)@.lectures),
            }),
    {
        let mut lectures: Vec<Lecture> = Vec::new();
        core::mem::swap(&mut lectures, &mut self.lectures);
        let sorted = sorted_lectures(lectures);
        self.id = lectures_digest(&sorted);
        self.lectures = sorted;
    }
}

/// The index of the first group named `name`, if any.
pub open spec fn find_group(gs: Seq<GroupView>, name: Seq<char>) -> Option<int>
    decreases gs.len(),
{
    if gs.len() == 0 {
        None
    } else {
        match find_group(gs.drop_last(), name) {
            Some(i) => Some(i),
            None => if gs.last().name == name {
                Some(gs.len() - 1)
            } else {
                None
            },
        }
    }
}

pub proof fn lemma_find_group(gs: Seq<GroupView>, name: Seq<char>)
    ensures
        find_group(gs, name) matches Some(i) ==> 0 <= i < gs.len() && gs[i].name == name
            && forall|k: int| 0 <= k < i ==> gs[k].name != name,
        find_group(gs, name) is None ==> forall|k: int| 0 <= k < gs.len() ==> gs[k].name != name,
    decreases gs.len(),
{
    if gs.len() > 0 {
        let d = gs.drop_last();
        lemma_find_group(d, name);
        assert(forall|k: int| 0 <= k < d.len() ==> d[k] == gs[k]);
    }
}

/// A schedule for one day: the date and the groups that have lectures.
#[derive(Clone, Debug)]
pub struct Snapshot {
    id: u64,
    date: Date,
    groups: Vec<Group>,
}

impl View for Snapshot {
    type V = SnapshotView;

    closed spec fn view(&self) -> SnapshotView {
        SnapshotView { date: self.date, groups: group_views(self.groups@) }
    }
}

impl Id for Snapshot {
    closed spec fn spec_id(&self) -> u64 {
        self.id
    }

    fn id(&self) -> (r: u64) {
        self.id
    }
}

impl Snapshot {
    /// The identity matches the content and every group is well formed.
    pub open spec fn wf(&self) -> bool {
        &&& self.spec_id() == snapshot_digest(self@.groups)
        &&& self.groups_wf()
    }

    pub closed spec fn groups_wf(&self) -> bool {
        forall|i: int| 0 <= i < self.groups.len() ==> (#[trigger] self.groups@[i]).wf()
    }

    /// A snapshot of `groups` on `date`, each group's lectures sorted.
    pub fn new(date: Date, groups: Vec<Group>) -> (r: Snapshot)
        requires
            forall|i: int| 0 <= i < groups.len() ==> (#[trigger] groups@[i]).wf(),
        ensures
            r.wf(),
            r@.date == date,
            r@.groups.len() == groups.len(),
            forall|i: int|
                0 <= i < groups.len() ==> (#[trigger] r@.groups[i]) == (GroupView {
                    name: groups@[i]@.name,
                    lectures: sort_lectures(groups@[i]@.lectures),
                }),
    {
        let ghost given = groups@;
        let mut rest = groups;
        let mut out: Vec<Group> = Vec::new();
        let mut d = Digest::new();
        d.word(rest.len() as u64);
        let ghost n = rest.len();
        let ghost ids: Seq<u64> = Seq::empty();
        while rest.len() > 0
            invariant
                n == given.len(),
                out.len() + rest.len() == n,
                rest@ == given.skip(out.len() as int),
                forall|i: int| 0 <= i < given.len() ==> (#[trigger] given[i]).wf(),
                forall|i: int| 0 <= i < out.len() ==> (#[trigger] out@[i]).wf(),
                forall|i: int|
                    0 <= i < out.len() ==> (#[trigger] out@[i])@ == (GroupView {
                        name: given[i]@.name,
                        lectures: sort_lectures(given[i]@.lectures),
                    }),
                d.wf(),
                ids == group_views(out@).map_values(|g: GroupView| group_digest(g.lectures)),
                d.words@ == seq![n as u64] + ids,
            decreases rest.len(),
        {
            let ghost rest_before = rest@;
            let mut g = rest.remove(0);
            assert(g == given[out.len() as int]) by {
                assert(rest_before[0] == given.skip(out.len() as int)[0]);
            }
            assert(rest@ =~= given.skip(out.len() + 1)) by {
                assert(rest@ =~= rest_before.drop_first());
            }
            g.sort_lectures();
            d.word(g.id());
            let ghost out_before = out@;
            out.push(g);
            proof {
                ids = ids.push(g.spec_id());
                assert(group_views(out@).map_values(|g: GroupView| group_digest(g.lectures))
                    =~= group_views(out_before).map_values(|g: GroupView| group_digest(g.lectures)).push(
                    group_digest(g@.lectures),
                ));
            }
            assert(d.words@ =~= seq![n as u64] + ids);
        }
        assert(d.words@ =~= list_words(ids));
        Snapshot { id: d.state, date, groups: out }
    }

    /// The first group named `name`.
    pub fn group(&self, name: &str) -> (r: Option<&Group>)
        requires
            self.wf(),
        ensures
            match find_group(self@.groups, name@) {
                Some(i) => r matches Some(g) && g@ == self@.groups[i] && g.wf(),
                None => r is None,
            },
    {
        let mut i: usize = 0;
        proof {
            lemma_find_group(self@.groups, name@);
        }
        while i < self.groups.len()
            invariant
                self.wf(),
                i <= self.groups.len(),
                forall|k: int| 0 <= k < i ==> (#[trigger] self@.groups[k]).name != name@,
            decreases self.groups.len() - i,
        {
            if text_eq(self.groups[i].name(), name) {
                assert(self@.groups[i as int] == self.groups@[i as int]@);
                assert(self.groups@[i as int].wf());
                proof {
                    lemma_find_group(self@.groups, name@);
                    match find_group(self@.groups, name@) {
                        Some(j) => {
                            if j < i {
                                assert(self@.groups[j].name != name@);
                            }
                        },
                        None => {
                            assert(self@.groups[i as int].name != name@);
                        },
                    }
                }
                return Some(&self.groups[i]);
            }
            i = i + 1;
        }
        None
    }

    pub fn groups(&self) -> (r: &[Group])
        requires
            self.wf(),
        ensures
            group_views(r@) == self@.groups,
            forall|i: int| 0 <= i < r@.len() ==> (#[trigger] r@[i]).wf(),
    {
        self.groups.as_slice()
    }

    pub fn date(&self) -> (r: Date)
        ensures
            r == self@.date,
    {
        self.date
    }
}

} // verus!
