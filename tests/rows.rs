use maiq_parser::date::{parse_date, parse_u32, Date};
use maiq_parser::rows::{is_correct_order, parse_raw_lecture, parse_raw_lectures, repair_orders, RawOrder};

fn strings(v: &[&str]) -> Vec<String> {
    v.iter().map(|s| s.to_string()).collect()
}

#[test]
fn correct_order() {
    for order in ["1", "1,2,3,", "2,3", "1,2,3(1ч)", ""] {
        assert!(is_correct_order(order), "{order}");
    }
}

#[test]
fn incorrect_order() {
    for order in [
        "asdf",
        "Информационные технологии, Иванов И.Л.",
        "МДК.01.01 Разработка программных модулей, Пикселькина О.И.",
        "-1",
    ] {
        assert!(!is_correct_order(order), "{order}");
    }
}

#[test]
fn correct_splitting_group_name() {
    let roster = strings(&["Ир3-21"]);
    let mut anchor = "Unknown".to_string();
    let raw = parse_raw_lecture(&roster, &strings(&["Ир3-21 2 п/г", "1", "Физика, Иванов И.И.", " 101 "]), &mut anchor);
    assert_eq!(raw.group_name.as_deref(), Some("Ир3-21"));
    assert_eq!(raw.subgroup.as_deref(), Some("2"));
    assert!(matches!(raw.order, RawOrder::Label(ref o) if o == "1"));
    assert_eq!(raw.name.as_deref(), Some("Физика"));
    assert_eq!(raw.teacher.as_deref(), Some("Иванов И.И."));
    assert_eq!(raw.classroom.as_deref(), Some("101"));
    assert_eq!(anchor, "Ир3-21 2 п/г");
}

#[test]
fn lecture_cell_splits_at_last_comma() {
    let roster = strings(&["Г1"]);
    let mut anchor = "Г1".to_string();
    let raw = parse_raw_lecture(&roster, &strings(&["2", "Химия, органика, Петров"]), &mut anchor);
    assert_eq!(raw.name.as_deref(), Some("Химия, органика"));
    assert_eq!(raw.teacher.as_deref(), Some("Петров"));
    let raw = parse_raw_lecture(&roster, &strings(&["2", "Химия,  "]), &mut anchor);
    assert_eq!(raw.name.as_deref(), Some("Химия"));
    assert_eq!(raw.teacher, None);
}

#[test]
fn row_without_group_cell_uses_anchor() {
    let roster = strings(&["Г1", "Г2"]);
    let mut anchor = "Unknown".to_string();
    let first = parse_raw_lecture(&roster, &strings(&["Г2", "1", "Математика"]), &mut anchor);
    assert_eq!(first.group_name.as_deref(), Some("Г2"));
    let second = parse_raw_lecture(&roster, &strings(&["3", "Физика", "204"]), &mut anchor);
    assert_eq!(second.group_name.as_deref(), Some("Г2"));
    assert!(matches!(second.order, RawOrder::Label(ref o) if o == "3"));
    assert_eq!(second.classroom.as_deref(), Some("204"));
    assert_eq!(anchor, "Г2");
}

#[test]
fn row_without_order_continues() {
    let roster = strings(&["Г1"]);
    let mut anchor = "Г1".to_string();
    let raw = parse_raw_lecture(&roster, &strings(&["Физика", "204"]), &mut anchor);
    assert!(matches!(raw.order, RawOrder::SameAsPrevious));
    assert_eq!(raw.name.as_deref(), Some("Физика"));
    assert_eq!(raw.classroom.as_deref(), Some("204"));
}

#[test]
fn empty_row_is_an_empty_record() {
    let roster = strings(&["Г1"]);
    let mut anchor = "Г1".to_string();
    let raw = parse_raw_lecture(&roster, &Vec::new(), &mut anchor);
    assert!(matches!(raw.order, RawOrder::Missing));
    assert_eq!(raw.group_name, None);
    assert_eq!(anchor, "Г1");
}

#[test]
fn continuation_repair_is_transitive() {
    let roster = strings(&["Г1"]);
    let rows = vec![
        strings(&["Г1", "2,3", "Математика"]),
        strings(&["Физика"]),
        strings(&["Химия"]),
        strings(&["Биология"]),
        strings(&["4", "История"]),
        strings(&["Литература"]),
    ];
    let repaired = repair_orders(parse_raw_lectures(&roster, &rows));
    let orders: Vec<Option<String>> = repaired
        .iter()
        .map(|r| match &r.order {
            RawOrder::Label(o) => Some(o.clone()),
            _ => None,
        })
        .collect();
    assert_eq!(
        orders,
        vec![
            Some("2,3".to_string()),
            Some("2,3".to_string()),
            Some("2,3".to_string()),
            Some("2,3".to_string()),
            Some("4".to_string()),
            Some("4".to_string())
        ]
    );
}

#[test]
fn continuation_without_predecessor_has_no_order() {
    let roster = strings(&["Г1"]);
    let repaired = repair_orders(parse_raw_lectures(&roster, &[strings(&["Физика"])]));
    assert!(matches!(repaired[0].order, RawOrder::Missing));
}

#[test]
fn date_in_heading() {
    let cases = [("5 июня", 5, 6), ("Стваыф 5 июля авыфавыф", 5, 7), ("АВыфавыф 24 февраля fdjska sadf", 24, 2)];
    for (cell, day, month) in cases {
        assert_eq!(parse_date(&strings(&[cell]), 2024), Some(Date { year: 2024, month, day }), "{cell}");
    }
}

#[test]
fn date_invalid() {
    for cell in ["FDasfdsa fdsa sadf", "41234 января", "31 февраля", "0 марта", "февраля 24"] {
        assert_eq!(parse_date(&strings(&[cell]), 2024), None, "{cell}");
    }
    assert_eq!(parse_date(&Vec::new(), 2024), None);
}

#[test]
fn date_takes_first_pair_and_leap_years() {
    assert_eq!(parse_date(&strings(&["1 2 марта"]), 2023), Some(Date { year: 2023, month: 3, day: 2 }));
    assert_eq!(parse_date(&strings(&["29 февраля"]), 2024), Some(Date { year: 2024, month: 2, day: 29 }));
    assert_eq!(parse_date(&strings(&["29 февраля"]), 2023), None);
    assert_eq!(parse_date(&strings(&["+7 мая"]), 2023), Some(Date { year: 2023, month: 5, day: 7 }));
}

#[test]
fn numbers_read_like_from_str() {
    let chars = |s: &str| s.chars().collect::<Vec<char>>();
    assert_eq!(parse_u32(&chars("42")), Some(42));
    assert_eq!(parse_u32(&chars("+42")), Some(42));
    assert_eq!(parse_u32(&chars("4294967295")), Some(4294967295));
    assert_eq!(parse_u32(&chars("4294967296")), None);
    assert_eq!(parse_u32(&chars("")), None);
    assert_eq!(parse_u32(&chars("+")), None);
    assert_eq!(parse_u32(&chars("4a")), None);
}

#[test]
fn from_ymd_checks_the_calendar() {
    assert_eq!(Date::from_ymd(2024, 2, 29), Some(Date { year: 2024, month: 2, day: 29 }));
    assert_eq!(Date::from_ymd(1900, 2, 29), None);
    assert_eq!(Date::from_ymd(2000, 2, 29), Some(Date { year: 2000, month: 2, day: 29 }));
    assert_eq!(Date::from_ymd(2024, 4, 31), None);
    assert_eq!(Date::from_ymd(2024, 13, 1), None);
}

#[test]
fn week_parity_follows_iso_weeks() {
    // 2024-01-01 is in ISO week 1, 2024-01-08 in week 2.
    assert!(!Date { year: 2024, month: 1, day: 1 }.is_week_even());
    assert!(Date { year: 2024, month: 1, day: 8 }.is_week_even());
    // 2021-01-03 still belongs to week 53 of 2020.
    assert!(!Date { year: 2021, month: 1, day: 3 }.is_week_even());
    // 2024-02-24 is in ISO week 8.
    assert!(Date { year: 2024, month: 2, day: 24 }.is_week_even());
}
