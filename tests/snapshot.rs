use maiq_parser::changes::{changes, SnapshotChanges};
use maiq_parser::context::{build_snapshot, ParserContext};
use maiq_parser::date::Date;
use maiq_parser::defaults::{DefaultGroup, DefaultLecture, DefaultLectures, LectureWeek};
use maiq_parser::format::{format_group, format_lecture, FormatGroup, FormatLecture, FormatWeekday};
use maiq_parser::grouping::{expand_raw_lecture, slot_lectures_exec};
use maiq_parser::rows::{RawLecture, RawOrder};
use maiq_parser::snapshot::{Group, Id, Lecture, Snapshot};
use maiq_parser::table::{parse_last, Table};

const DATE: Date = Date { year: 2024, month: 2, day: 1 };

fn strings(v: &[&str]) -> Vec<String> {
    v.iter().map(|s| s.to_string()).collect()
}

fn table(rows: &[&[&str]]) -> Table {
    Table { rows: rows.iter().map(|r| strings(r)).collect() }
}

fn lecture(order: &str, name: &str, classroom: Option<&str>) -> Lecture {
    Lecture::new(Some(order.to_string()), name.to_string(), classroom.map(str::to_string), None, None)
}

fn orders(g: &Group) -> Vec<Option<&str>> {
    g.lectures().iter().map(|l| l.order()).collect()
}

fn names(g: &Group) -> Vec<&str> {
    g.lectures().iter().map(|l| l.name()).collect()
}

#[test]
fn diff_lectures() {
    let s1 = Snapshot::new(DATE, vec![Group::new("Group1", vec![lecture("1", "Lecture1", Some("1E"))])]);
    let s2 = Snapshot::new(DATE, vec![Group::new("Group1", vec![lecture("1", "Lecture2", Some("1E"))])]);
    assert_eq!(vec!["Group1".to_string()], Some(&s1).changes(Some(&s2), &strings(&["Group1"])));
    assert!(Some(&s1).changes(Some(&s1), &strings(&["Group1"])).is_empty());
}

#[test]
fn identity_depends_on_content_only() {
    let a = lecture("1", "Физика", Some("101"));
    let b = lecture("1", "Физика", Some("101"));
    assert_eq!(a.id(), b.id());
    assert_ne!(a.id(), lecture("1", "Физика", Some("102")).id());
    assert_ne!(a.id(), lecture("2", "Физика", Some("101")).id());
}

#[test]
fn absent_field_differs_from_empty_field() {
    let absent = Lecture::new(None, "Физика".to_string(), None, None, None);
    let empty = Lecture::new(Some(String::new()), "Физика".to_string(), None, None, None);
    assert_ne!(absent.id(), empty.id());
    let no_room = Lecture::new(None, "Физика".to_string(), None, None, None);
    let blank_room = Lecture::new(None, "Физика".to_string(), Some(String::new()), None, None);
    assert_ne!(no_room.id(), blank_room.id());
}

#[test]
fn group_identity_follows_lectures() {
    let mut g = Group::new("Г1", vec![]);
    let empty_id = g.id();
    assert!(!g.has_lectures());
    g.push_lectures(vec![lecture("1", "Физика", None)]);
    assert!(g.has_lectures());
    assert_ne!(g.id(), empty_id);
    assert_eq!(g.id(), Group::new("Г1", vec![lecture("1", "Физика", None)]).id());
    g.set_lectures(vec![]);
    assert_eq!(g.id(), empty_id);
    assert_eq!(g.name(), "Г1");
}

#[test]
fn lectures_sort_by_subgroup_then_order_text() {
    let l = |order: &str, sub: Option<&str>, name: &str| {
        Lecture::new(Some(order.to_string()), name.to_string(), None, sub.map(str::to_string), None)
    };
    let g = Group::new("Г1", vec![l("2", Some("2"), "a"), l("10", None, "b"), l("2", None, "c"), l("1", Some("1"), "d"), l("2", Some("2"), "e")]);
    let s = Snapshot::new(DATE, vec![g]);
    let g = &s.groups()[0];
    assert_eq!(names(g), vec!["b", "c", "d", "a", "e"]);
    assert_eq!(orders(g), vec![Some("10"), Some("2"), Some("1"), Some("2"), Some("2")]);
    let subgroups: Vec<Option<&str>> = g.lectures().iter().map(|l| l.subgroup()).collect();
    assert_eq!(subgroups, vec![None, None, Some("1"), Some("2"), Some("2")]);
}

#[test]
fn snapshot_group_lookup() {
    let s = Snapshot::new(DATE, vec![Group::new("Г1", vec![lecture("1", "Физика", None)]), Group::new("Г2", vec![])]);
    assert_eq!(s.group("Г2").map(|g| g.name()), Some("Г2"));
    assert!(s.group("Г3").is_none());
    assert_eq!(s.date(), DATE);
}

#[test]
fn multi_slot_expansion() {
    let ls = slot_lectures_exec("1, 2 ,3", "Физика", &Some("101".to_string()), &None, &Some("Иванов".to_string()));
    assert_eq!(ls.len(), 3);
    let orders: Vec<Option<&str>> = ls.iter().map(|l| l.order()).collect();
    assert_eq!(orders, vec![Some("1"), Some("2"), Some("3")]);
    for l in &ls {
        assert_eq!(l.name(), "Физика");
        assert_eq!(l.classroom(), Some("101"));
        assert_eq!(l.subgroup(), None);
        assert_eq!(l.teacher(), Some("Иванов"));
    }
}

#[test]
fn record_with_three_slots_gives_three_lectures() {
    let raw = RawLecture {
        order: RawOrder::Label("1,2,3".to_string()),
        group_name: Some("Г1".to_string()),
        subgroup: Some("2".to_string()),
        name: Some("Физика".to_string()),
        teacher: Some("Иванов".to_string()),
        classroom: Some("101".to_string()),
    };
    let ls = expand_raw_lecture(&raw, &DefaultLectures::empty(), false);
    assert_eq!(ls.len(), 3);
    for (l, order) in ls.iter().zip(["1", "2", "3"]) {
        assert_eq!(l.order(), Some(order));
        assert_eq!((l.name(), l.subgroup(), l.teacher(), l.classroom()), ("Физика", Some("2"), Some("Иванов"), Some("101")));
    }
}

#[test]
fn record_without_order_gives_one_lecture() {
    let raw = RawLecture {
        order: RawOrder::Missing,
        group_name: Some("Г1".to_string()),
        subgroup: None,
        name: Some("Физика".to_string()),
        teacher: None,
        classroom: None,
    };
    let ls = expand_raw_lecture(&raw, &DefaultLectures::empty(), true);
    assert_eq!(ls.len(), 1);
    assert_eq!(ls[0].order(), Some(""));
}

fn defaults() -> DefaultLectures {
    DefaultLectures::new(vec![DefaultGroup {
        name: "Г1".to_string(),
        lectures: vec![
            DefaultLecture::new(
                LectureWeek::Even,
                Lecture::new(Some("3".to_string()), "Чётная".to_string(), Some("201".to_string()), None, Some("Сидоров".to_string())),
            ),
            DefaultLecture::new(LectureWeek::Every, Lecture::new(None, "Всегда".to_string(), Some("301".to_string()), None, None)),
        ],
    }])
}

#[test]
fn default_schedule_lookup() {
    let d = defaults();
    assert_eq!(d.group("Г1").map(|ls| ls.len()), Some(2));
    assert!(d.group("Г2").is_none());
    assert_eq!(d.lecture_for("Г1", true).map(|l| l.name()), Some("Чётная"));
    assert_eq!(d.lecture_for("Г1", false).map(|l| l.name()), Some("Всегда"));
    assert!(d.lecture_for("Г2", true).is_none());
}

#[test]
fn as_scheduled_takes_default_lecture() {
    let raw = RawLecture {
        order: RawOrder::Label("1,2".to_string()),
        group_name: Some("Г1".to_string()),
        subgroup: None,
        name: Some("По расписанию".to_string()),
        teacher: None,
        classroom: Some("105".to_string()),
    };
    let ls = expand_raw_lecture(&raw, &defaults(), true);
    assert_eq!(ls.len(), 2);
    assert_eq!(ls[0].name(), "Чётная");
    assert_eq!(ls[0].order(), Some("1"));
    assert_eq!(ls[1].order(), Some("2"));
    assert_eq!(ls[0].classroom(), Some("105"));
    assert_eq!(ls[0].teacher(), Some("Сидоров"));

    let raw = RawLecture { order: RawOrder::Missing, classroom: None, ..raw };
    let ls = expand_raw_lecture(&raw, &defaults(), false);
    assert_eq!(ls.len(), 1);
    assert_eq!(ls[0].name(), "Всегда");
    assert_eq!(ls[0].order(), Some(""));
    assert_eq!(ls[0].classroom(), Some("301"));
}

#[test]
fn as_scheduled_without_default_keeps_record() {
    let raw = RawLecture {
        order: RawOrder::Label("4".to_string()),
        group_name: Some("Г2".to_string()),
        subgroup: None,
        name: Some("по расписанию".to_string()),
        teacher: None,
        classroom: None,
    };
    let ls = expand_raw_lecture(&raw, &defaults(), true);
    assert_eq!(ls.len(), 1);
    assert_eq!(ls[0].name(), "по расписанию");
}

fn timetable() -> Table {
    table(&[
        &["Расписание на 24 февраля"],
        &["Г9", "1", "Чужая группа"],
        &["Г1", "1", "Математика, Иванов И.И.", "101"],
        &["Физика"],
        &["Г2 1 п/г", "2,3", "Химия", "202"],
        &["Нет"],
        &["Г3", "1", "нет"],
    ])
}

#[test]
fn timetable_builds_snapshot() {
    let roster = strings(&["Г1", "Г2", "Г3"]);
    let s = build_snapshot(timetable(), &roster, &DefaultLectures::empty(), DATE);
    assert_eq!(s.date(), Date { year: 2024, month: 2, day: 24 });
    let names_of: Vec<&str> = s.groups().iter().map(|g| g.name()).collect();
    assert_eq!(names_of, vec!["Г1", "Г2"]);
    let g1 = s.group("Г1").unwrap();
    assert_eq!(names(g1), vec!["Математика", "Физика"]);
    assert_eq!(orders(g1), vec![Some("1"), Some("1")]);
    assert_eq!(g1.lectures()[0].teacher(), Some("Иванов И.И."));
    assert_eq!(g1.lectures()[0].classroom(), Some("101"));
    let g2 = s.group("Г2").unwrap();
    assert_eq!(orders(g2), vec![Some("2"), Some("3")]);
    assert_eq!(g2.lectures()[0].subgroup(), Some("1"));
}

#[test]
fn fallback_date_without_heading_date() {
    let roster = strings(&["Г1"]);
    let s = build_snapshot(table(&[&["Расписание"], &["Г1", "1", "Физика"]]), &roster, &DefaultLectures::empty(), DATE);
    assert_eq!(s.date(), DATE);
    let empty = build_snapshot(Table { rows: vec![] }, &roster, &DefaultLectures::empty(), DATE);
    assert_eq!(empty.groups().len(), 0);
}

#[test]
fn building_twice_gives_same_identity() {
    let roster = strings(&["Г1", "Г2", "Г3"]);
    let a = build_snapshot(timetable(), &roster, &DefaultLectures::empty(), DATE);
    let b = build_snapshot(timetable(), &roster, &DefaultLectures::empty(), DATE);
    assert_eq!(a.id(), b.id());
    let ctx = ParserContext::new(DATE).with_groups(roster.clone()).with_default_lectures(DefaultLectures::empty());
    assert_eq!(ctx.parse(timetable()).id(), a.id());
}

#[test]
fn inherited_order_from_html() {
    let html = "<html><body><table>\
        <tr><td>Расписание на 24 февраля</td></tr>\
        <tr><td>Г1</td><td>1</td><td>Математика</td><td>101</td></tr>\
        <tr><td></td><td>Физика</td><td>102</td></tr>\
        <tr><td>Г1</td><td>4</td><td>Химия</td></tr>\
        <tr><td>Биология</td><td>305</td></tr>\
        </table></body></html>";
    let t = parse_last(html).unwrap();
    let s = build_snapshot(t, &strings(&["Г1"]), &DefaultLectures::empty(), DATE);
    let g = s.group("Г1").unwrap();
    assert_eq!(names(g), vec!["Математика", "Физика", "Химия", "Биология"]);
    let lectures = g.lectures();
    assert_eq!(lectures[1].order(), lectures[0].order());
    assert_eq!(lectures[3].order(), lectures[2].order());
    assert_eq!(lectures[1].classroom(), Some("102"));
    assert_eq!(lectures[3].classroom(), Some("305"));
}

#[test]
fn change_rules() {
    let roster = strings(&["Г1", "Г2", "Г3"]);
    let s = build_snapshot(timetable(), &roster, &DefaultLectures::empty(), DATE);
    assert!(changes(Some(&s), Some(&s), &roster).is_empty());
    assert_eq!(changes(None, Some(&s), &roster), roster);
    assert!(changes(Some(&s), None, &roster).is_empty());
    assert!(changes(None, None, &roster).is_empty());
}

#[test]
fn change_of_one_group_is_reported_alone() {
    let roster = strings(&["Г1", "Г2", "Г3"]);
    let before = build_snapshot(timetable(), &roster, &DefaultLectures::empty(), DATE);
    let mut t = timetable();
    t.rows[4][2] = "Биология".to_string();
    let after = build_snapshot(t, &roster, &DefaultLectures::empty(), DATE);
    assert_eq!(changes(Some(&before), Some(&after), &roster), strings(&["Г2"]));
    let mut t = timetable();
    t.rows[6][2] = "Алгебра".to_string();
    let appeared = build_snapshot(t, &roster, &DefaultLectures::empty(), DATE);
    assert_eq!(changes(Some(&before), Some(&appeared), &roster), strings(&["Г3"]));
    assert_eq!(changes(Some(&appeared), Some(&before), &roster), strings(&["Г3"]));
}

#[test]
fn lecture_and_group_text() {
    let l = Lecture::new(Some("1".to_string()), "Физика".to_string(), Some("101".to_string()), Some("2".to_string()), None);
    assert_eq!(format_lecture(&l), "<b>#1</b> 101 · п/г <b>2</b> <b>· Физика</b>\n");
    let bare = Lecture::new(None, "Химия".to_string(), None, None, None);
    assert_eq!(format_lecture(&bare), "<b>· Химия</b>\n");
    let g = Group::new("Г1", vec![l, bare]);
    assert_eq!(format_group(&g), "<b>#1</b> 101 · п/г <b>2</b> <b>· Физика</b>\n<b>· Химия</b>\n");
}

#[test]
fn format_wrappers() {
    let l = Lecture::new(Some("2".to_string()), "Химия".to_string(), None, None, None);
    assert_eq!(FormatLecture(&l).text(), "<b>#2</b> <b>· Химия</b>\n");
    let g = Group::new("Г1", vec![l]);
    assert_eq!(FormatGroup(&g).text(), "<b>#2</b> <b>· Химия</b>\n");
    assert_eq!(FormatWeekday(&Date { year: 2024, month: 2, day: 24 }).text(), "Суббота");
    assert_eq!(FormatWeekday(&Date { year: 2024, month: 2, day: 26 }).text(), "Понедельник");
}
