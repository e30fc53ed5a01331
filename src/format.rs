//! The text of a group's schedule as it goes out in a message (HTML markup).
use vstd::prelude::*;

use chrono::Datelike;

use crate::date::{days_in_month, Date};
use crate::snapshot::{lecture_views, Group, Lecture, LectureView};

verus! {

/// One line per lecture: the order in bold, the classroom, the subgroup, then
/// the lecture name in bold.
pub open spec fn lecture_line(l: LectureView) -> Seq<char> {
    (match l.order {
        Some(o) => "<b>#"@ + o + "</b> "@,
        None => Seq::empty(),
    }) + (match l.classroom {
        Some(c) => c + " "@,
        None => Seq::empty(),
    }) + (match l.subgroup {
        Some(s) => "· п/г <b>"@ + s + "</b> "@,
        None => Seq::empty(),
    }) + "<b>· "@ + l.name + "</b>\n"@
}

/// The lines of all lectures, in order.
pub open spec fn lectures_text(ls: Seq<LectureView>) -> Seq<char>
    decreases ls.len(),
{
    if ls.len() == 0 {
        Seq::empty()
    } else {
        lectures_text(ls.drop_last()) + lecture_line(ls.last())
    }
}

/// The line of one lecture.
pub fn format_lecture(l: &Lecture) -> (r: String)
    ensures
        r@ == lecture_line(l@),
{
    let mut out = String::new();
    let ghost a: Seq<char>;
    match l.order() {
        Some(o) => {
            out.append("<b>#");
            out.append(o);
            out.append("</b> ");
        },
        None => {},
    }
    proof {
        a = out@;
    }
    match l.classroom() {
        Some(c) => {
            out.append(c);
            out.append(" ");
        },
        None => {},
    }
    let ghost b = out@;
    match l.subgroup() {
        Some(s) => {
            out.append("· п/г <b>");
            out.append(s);
            out.append("</b> ");
        },
        None => {},
    }
    let ghost c = out@;
    out.append("<b>· ");
    out.append(l.name());
    out.append("</b>\n");
    assert(a =~= match l@.order {
        Some(o) => "<b>#"@ + o + "</b> "@,
        None => Seq::<char>::empty(),
    });
    assert(b =~= a + match l@.classroom {
        Some(c) => c + " "@,
        None => Seq::<char>::empty(),
    });
    assert(c =~= b + match l@.subgroup {
        Some(s) => "· п/г <b>"@ + s + "</b> "@,
        None => Seq::<char>::empty(),
    });
    assert(out@ =~= lecture_line(l@));
    out
}

/// The lines of all lectures of a group.
pub fn format_group(g: &Group) -> (r: String)
    requires
        g.wf(),
    ensures
        r@ == lectures_text(g@.lectures),
{
    let ls = g.lectures();
    let ghost lv = lecture_views(ls@);
    let mut out = String::new();
    let mut i: usize = 0;
    assert(lv.take(0) =~= Seq::<LectureView>::empty());
    while i < ls.len()
        invariant
            i <= ls.len(),
            lv == lecture_views(ls@),
            lv == g@.lectures,
            out@ == lectures_text(lv.take(i as int)),
        decreases ls.len() - i,
    {
        assert(lv.take(i + 1).drop_last() =~= lv.take(i as int));
        assert(lv.take(i + 1).last() == ls@[i as int]@);
        let line = format_lecture(&ls[i]);
        out.append(line.as_str());
        i = i + 1;
    }
    assert(lv.take(i as int) =~= lv);
    out
}

/// A lecture as the line it is sent as.
pub struct FormatLecture<'a>(pub &'a Lecture);

impl<'a> FormatLecture<'a> {
    pub fn text(&self) -> (r: String)
        ensures
            r@ == lecture_line(self.0@),
    {
        format_lecture(self.0)
    }
}

/// A group as the lines of its lectures.
pub struct FormatGroup<'a>(pub &'a Group);

impl<'a> FormatGroup<'a> {
    pub fn text(&self) -> (r: String)
        requires
            self.0.wf(),
        ensures
            r@ == lectures_text(self.0@.lectures),
    {
        format_group(self.0)
    }
}

/// The days of `year` before the first of `month`.
pub open spec fn days_before_month(year: int, month: int) -> int
    decreases month,
{
    if month <= 1 {
        0
    } else {
        days_before_month(year, month - 1) + days_in_month(year, month - 1)
    }
}

/// The days from 0001-01-01 (a Monday in the proleptic Gregorian calendar)
/// to the given date.
pub open spec fn days_since_epoch(year: int, month: int, day: int) -> int {
    let y = year - 1;
    365 * y + y / 4 - y / 100 + y / 400 + days_before_month(year, month) + day - 1
}

/// The day of the week of a date: 0 for Monday to 6 for Sunday.
pub open spec fn weekday_of(year: i32, month: u32, day: u32) -> int {
    days_since_epoch(year as int, month as int, day as int) % 7
}

/// Relies on chrono's `NaiveDate::from_ymd_opt` and `Weekday::num_days_from_monday`:
/// the day of the week in the proleptic Gregorian calendar.
#[verifier::external_body]
fn weekday_index(year: i32, month: u32, day: u32) -> (r: u32)
    requires
        crate::date::valid_date(year as int, month as int, day as int),
    ensures
        r == weekday_of(year, month, day),
        r < 7,
{
    chrono::NaiveDate::from_ymd_opt(year, month, day).unwrap().weekday().num_days_from_monday()
}

/// The names of the days of the week, Monday first.
pub open spec fn weekday_names() -> Seq<Seq<char>> {
    seq![
        "Понедельник"@,
        "Вторник"@,
        "Среда"@,
        "Четверг"@,
        "Пятница"@,
        "Суббота"@,
        "Воскресенье"@,
    ]
}

/// The day of the week of a date, by name.
pub struct FormatWeekday<'a>(pub &'a Date);

impl<'a> FormatWeekday<'a> {
    pub fn text(&self) -> (r: String)
        requires
            self.0.wf(),
        ensures
            r@ == weekday_names()[weekday_of(self.0.year, self.0.month, self.0.day)],
    {
        let k = weekday_index(self.0.year, self.0.month, self.0.day);
        let name = match k {
            0 => "Понедельник",
            1 => "Вторник",
            2 => "Среда",
            3 => "Четверг",
            4 => "Пятница",
            5 => "Суббота",
            _ => "Воскресенье",
        };
        name.to_owned()
    }
}

} // verus!
