//! The default schedule: per group, lectures that stand in for a cell that
//! only says "as scheduled", by week parity.
use vstd::prelude::*;

use crate::snapshot::{Lecture, LectureView};
use crate::text::text_eq;

verus! {

/// The weeks on which a default lecture applies.
#[derive(Clone, Copy, Debug, PartialEq, Eq, Structural)]
pub enum LectureWeek {
    Even,
    Odd,
    Every,
}

/// Whether a lecture for `week` applies in a week of the given parity.
pub open spec fn week_applies(week: LectureWeek, is_week_even: bool) -> bool {
    match week {
        LectureWeek::Even => is_week_even,
        LectureWeek::Odd => !is_week_even,
        LectureWeek::Every => true,
    }
}

/// A lecture of the default schedule.
#[derive(Debug)]
pub struct DefaultLecture {
    pub week: LectureWeek,
    inner: Lecture,
}

pub struct DefaultLectureView {
    pub week: LectureWeek,
    pub lecture: LectureView,
}

impl View for DefaultLecture {
    type V = DefaultLectureView;

    closed spec fn view(&self) -> DefaultLectureView {
        DefaultLectureView { week: self.week, lecture: self.inner@ }
    }
}

impl DefaultLecture {
    pub fn new(week: LectureWeek, lecture: Lecture) -> (r: DefaultLecture)
        ensures
            r@ == (DefaultLectureView { week, lecture: lecture@ }),
    {
        DefaultLecture { week, inner: lecture }
    }

    /// The lecture itself.
    pub fn lecture(&self) -> (r: &Lecture)
        ensures
            r@ == self@.lecture,
    {
        &self.inner
    }
}

/// The default lectures of one group.
#[derive(Debug)]
pub struct DefaultGroup {
    pub name: String,
    pub lectures: Vec<DefaultLecture>,
}

pub struct DefaultGroupView {
    pub name: Seq<char>,
    pub lectures: Seq<DefaultLectureView>,
}

pub open spec fn default_lecture_views(s: Seq<DefaultLecture>) -> Seq<DefaultLectureView> {
    s.map_values(|l: DefaultLecture| l@)
}

impl View for DefaultGroup {
    type V = DefaultGroupView;

    open spec fn view(&self) -> DefaultGroupView {
        DefaultGroupView { name: self.name@, lectures: default_lecture_views(self.lectures@) }
    }
}

/// The default schedule of every group that has one.
#[derive(Debug)]
pub struct DefaultLectures {
    groups: Vec<DefaultGroup>,
}

pub open spec fn default_group_views(s: Seq<DefaultGroup>) -> Seq<DefaultGroupView> {
    s.map_values(|g: DefaultGroup| g@)
}

/// The index of the first group named `name`.
pub open spec fn find_default_group(gs: Seq<DefaultGroupView>, name: Seq<char>) -> Option<int>
    decreases gs.len(),
{
    if gs.len() == 0 {
        None
    } else {
        match find_default_group(gs.drop_last(), name) {
            Some(i) => Some(i),
            None => if gs.last().name == name {
                Some(gs.len() - 1)
            } else {
                None
            },
        }
    }
}

proof fn lemma_find_default_group_range(gs: Seq<DefaultGroupView>, name: Seq<char>)
    ensures
        find_default_group(gs, name) matches Some(i) ==> 0 <= i < gs.len() && gs[i].name == name,
    decreases gs.len(),
{
    if gs.len() > 0 {
        lemma_find_default_group_range(gs.drop_last(), name);
    }
}

proof fn lemma_find_default_group(gs: Seq<DefaultGroupView>, name: Seq<char>, i: int)
    requires
        0 <= i <= gs.len(),
        forall|k: int| 0 <= k < i ==> (#[trigger] gs[k]).name != name,
    ensures
        i < gs.len() && gs[i].name == name ==> find_default_group(gs, name) == Some(i),
        i == gs.len() ==> find_default_group(gs, name) is None,
    decreases gs.len(),
{
    if gs.len() > 0 {
        let d = gs.drop_last();
        let j = if i < d.len() { i } else { d.len() as int };
        assert forall|k: int| 0 <= k < j implies (#[trigger] d[k]).name != name by {
            assert(d[k] == gs[k]);
        }
        lemma_find_default_group(d, name, j);
        if i < d.len() {
            assert(d[i] == gs[i]);
        }
    }
}

/// The index of the first lecture that applies in a week of the given parity.
pub open spec fn find_week(ls: Seq<DefaultLectureView>, is_week_even: bool) -> Option<int>
    decreases ls.len(),
{
    if ls.len() == 0 {
        None
    } else {
        match find_week(ls.drop_last(), is_week_even) {
            Some(i) => Some(i),
            None => if week_applies(ls.last().week, is_week_even) {
                Some(ls.len() - 1)
            } else {
                None
            },
        }
    }
}

proof fn lemma_find_week(ls: Seq<DefaultLectureView>, is_week_even: bool, i: int)
    requires
        0 <= i <= ls.len(),
        forall|k: int| 0 <= k < i ==> !week_applies((#[trigger] ls[k]).week, is_week_even),
    ensures
        i < ls.len() && week_applies(ls[i].week, is_week_even) ==> find_week(ls, is_week_even)
            == Some(i),
        i == ls.len() ==> find_week(ls, is_week_even) is None,
    decreases ls.len(),
{
    if ls.len() > 0 {
        let d = ls.drop_last();
        let j = if i < d.len() { i } else { d.len() as int };
        assert forall|k: int| 0 <= k < j implies !week_applies((#[trigger] d[k]).week, is_week_even) by {
            assert(d[k] == ls[k]);
        }
        lemma_find_week(d, is_week_even, j);
        if i < d.len() {
            assert(d[i] == ls[i]);
        }
    }
}

/// The default lecture of group `name` for a week of the given parity: the
/// first entry of the first group so named that applies in that week.
pub open spec fn default_for(defaults: Seq<DefaultGroupView>, name: Seq<char>, is_week_even: bool) -> Option<
    LectureView,
> {
    match find_default_group(defaults, name) {
        None => None,
        Some(gi) => {
            let ls = defaults[gi].lectures;
            match find_week(ls, is_week_even) {
                None => None,
                Some(li) => Some(ls[li].lecture),
            }
        },
    }
}

impl DefaultLectures {
    pub open spec fn view(&self) -> Seq<DefaultGroupView> {
        default_group_views(self.spec_groups())
    }

    pub closed spec fn spec_groups(&self) -> Seq<DefaultGroup> {
        self.groups@
    }

    pub fn new(groups: Vec<DefaultGroup>) -> (r: DefaultLectures)
        ensures
            r.view() == default_group_views(groups@),
    {
        DefaultLectures { groups }
    }

    /// An empty default schedule.
    pub fn empty() -> (r: DefaultLectures)
        ensures
            r.view() == Seq::<DefaultGroupView>::empty(),
    {
        let r = DefaultLectures { groups: Vec::new() };
        assert(r.view() =~= Seq::<DefaultGroupView>::empty());
        r
    }

    /// The default lectures of the first group named `name`.
    pub fn group(&self, name: &str) -> (r: Option<&[DefaultLecture]>)
        ensures
            match find_default_group(self.view(), name@) {
                Some(i) => r matches Some(ls) && default_lecture_views(ls@) == self.view()[i].lectures,
                None => r is None,
            },
    {
        let mut i: usize = 0;
        while i < self.groups.len()
            invariant
                i <= self.groups.len(),
                self.view() == default_group_views(self.groups@),
                forall|k: int| 0 <= k < i ==> (#[trigger] self.view()[k]).name != name@,
            decreases self.groups.len() - i,
        {
            assert(self.view()[i as int] == self.groups@[i as int]@);
            if text_eq(self.groups[i].name.as_str(), name) {
                proof {
                    lemma_find_default_group(self.view(), name@, i as int);
                }
                return Some(self.groups[i].lectures.as_slice());
            }
            i = i + 1;
        }
        proof {
            lemma_find_default_group(self.view(), name@, i as int);
        }
        None
    }

    /// The default lecture of group `name` for a week of the given parity.
    pub fn lecture_for(&self, name: &str, is_week_even: bool) -> (r: Option<&Lecture>)
        ensures
            match r {
                Some(l) => default_for(self.view(), name@, is_week_even) == Some(l@),
                None => default_for(self.view(), name@, is_week_even) is None,
            },
    {
        match self.group(name) {
            None => None,
            Some(ls) => {
                let ghost lv = default_lecture_views(ls@);
                let ghost gi = find_default_group(self.view(), name@)->0;
                proof {
                    lemma_find_default_group_range(self.view(), name@);
                }
                let mut i: usize = 0;
                while i < ls.len()
                    invariant
                        i <= ls.len(),
                        lv == default_lecture_views(ls@),
                        find_default_group(self.view(), name@) == Some(gi),
                        0 <= gi < self.view().len(),
                        lv == self.view()[gi].lectures,
                        forall|k: int| 0 <= k < i ==> !week_applies((#[trigger] lv[k]).week, is_week_even),
                    decreases ls.len() - i,
                {
                    assert(lv[i as int] == ls@[i as int]@);
                    let applies = match ls[i].week {
                        LectureWeek::Even => is_week_even,
                        LectureWeek::Odd => !is_week_even,
                        LectureWeek::Every => true,
                    };
                    if applies {
                        proof {
                            lemma_find_week(lv, is_week_even, i as int);
                        }
                        let l = ls[i].lecture();
                        assert(l@ == lv[i as int].lecture);
                        return Some(l);
                    }
                    i = i + 1;
                }
                proof {
                    lemma_find_week(lv, is_week_even, i as int);
                }
                None
            },
        }
    }
}

} // verus!
