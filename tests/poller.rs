use maiq_parser::date::Date;
use maiq_parser::dispatch::{messages_for, plan_deliveries, settle, DeliveryOutcome, DeliveryResult, Message, Subscriber};
use maiq_parser::error::{BuilderError, Error};
use maiq_parser::poller::{Feed, FeedOutcome, Fetch, SnapshotParser, SnapshotParserBuilder};
use maiq_parser::snapshot::Id;

const DATE: Date = Date { year: 2024, month: 2, day: 1 };

fn strings(v: &[&str]) -> Vec<String> {
    v.iter().map(|s| s.to_string()).collect()
}

fn page(g1_lecture: &str) -> Vec<u8> {
    let html = format!(
        "<html><body><p>Замены</p><table><tr><td>Пусто</td></tr></table><table>\
         <tr><td>Изменения на 24 февраля</td></tr>\
         <tr><td>Г1</td><td>1</td><td>{g1_lecture}</td><td>101</td></tr>\
         <tr><td>Г2</td><td>2</td><td>Химия</td><td>202</td></tr>\
         </table></body></html>"
    );
    encoding_rs::WINDOWS_1251.encode(&html).0.into_owned()
}

fn poller() -> SnapshotParser {
    SnapshotParserBuilder::new(strings(&["Г1", "Г2"]))
        .with_today_url("https://example.org/today.htm")
        .unwrap()
        .build()
        .unwrap()
}

#[test]
fn builder_settings() {
    let p = poller();
    assert!(p.url(Feed::Today).is_some());
    assert!(p.url(Feed::Next).is_none());
    assert_eq!(p.interval_secs(), 300);
    assert!(!p.should_poll(6));
    assert!(p.should_poll(7));
    assert!(p.should_poll(17));
    assert!(!p.should_poll(18));
    let p = SnapshotParserBuilder::new(vec![])
        .with_next_url("http://example.org/next.htm")
        .unwrap()
        .with_time_bounds(0, 24)
        .with_interval(60)
        .build()
        .unwrap();
    assert!(p.should_poll(0) && p.should_poll(23));
    assert_eq!(p.interval_secs(), 60);
    assert!(p.url(Feed::Today).is_none());
    assert!(SnapshotParserBuilder::new(vec![]).with_next_url("not a url").is_err());
}

#[test]
fn builder_errors() {
    assert!(matches!(SnapshotParserBuilder::new(vec![]).build(), Err(BuilderError::UrlNotSet)));
    let zero = SnapshotParserBuilder::new(vec![]).with_today_url("http://example.org/").unwrap().with_interval(0).build();
    assert!(matches!(zero, Err(BuilderError::IntervalNotSet)));
}

#[test]
fn first_poll_only_seeds_then_changes_are_reported() {
    let mut p = poller();
    assert!(matches!(p.complete_fetch(Feed::Today, Fetch::Page(page("Физика")), DATE), FeedOutcome::Seeded));
    let first_id = p.latest_today().unwrap().id();
    assert_eq!(p.latest_today().unwrap().date(), Date { year: 2024, month: 2, day: 24 });
    assert!(p.latest_next().is_none());

    match p.complete_fetch(Feed::Today, Fetch::Page(page("Физика")), DATE) {
        FeedOutcome::Updated(c) => assert!(c.is_empty()),
        other => panic!("unexpected {other:?}"),
    }
    assert_eq!(p.latest_today().unwrap().id(), first_id);

    let changed = match p.complete_fetch(Feed::Today, Fetch::Page(page("Астрономия")), DATE) {
        FeedOutcome::Updated(c) => c,
        other => panic!("unexpected {other:?}"),
    };
    assert_eq!(changed, strings(&["Г1"]));
    assert_ne!(p.latest_today().unwrap().id(), first_id);

    let subscribers = vec![
        Subscriber { id: 1, groups: strings(&["Г1"]) },
        Subscriber { id: 2, groups: strings(&["Г2"]) },
        Subscriber { id: 3, groups: strings(&["Г2", "Г1"]) },
        Subscriber { id: 4, groups: vec![] },
    ];
    let plan = plan_deliveries(&subscribers, &changed);
    let ids: Vec<i64> = plan.iter().map(|d| d.subscriber).collect();
    assert_eq!(ids, vec![1, 3]);
    assert_eq!(plan[1].groups, strings(&["Г1"]));
    let msgs = messages_for(p.latest_today().unwrap(), &plan[0].groups);
    assert!(matches!(msgs.as_slice(), [Message::Single(g)] if g == "Г1"));
}

#[test]
fn first_poll_reported_when_not_suppressed() {
    let mut p = SnapshotParserBuilder::new(strings(&["Г1", "Г2"]))
        .with_next_url("https://example.org/next.htm")
        .unwrap()
        .with_first_poll_suppressed(false)
        .build()
        .unwrap();
    match p.complete_fetch(Feed::Next, Fetch::Page(page("Физика")), DATE) {
        FeedOutcome::Updated(c) => assert_eq!(c, strings(&["Г1", "Г2"])),
        other => panic!("unexpected {other:?}"),
    }
    assert!(p.latest_next().is_some());
    assert!(p.latest_today().is_none());
}

#[test]
fn failures_keep_the_cache() {
    let mut p = poller();
    p.complete_fetch(Feed::Today, Fetch::Page(page("Физика")), DATE);
    let id = p.latest_today().unwrap().id();
    match p.complete_fetch(Feed::Today, Fetch::Failed("timeout".to_string()), DATE) {
        FeedOutcome::Failed(e) => {
            assert!(!e.can_be_skipped());
            assert!(matches!(e, Error::Network(ref m) if m == "timeout"));
        },
        other => panic!("unexpected {other:?}"),
    }
    let no_table = encoding_rs::WINDOWS_1251.encode("<html><p>нет таблицы</p></html>").0.into_owned();
    match p.complete_fetch(Feed::Today, Fetch::Page(no_table), DATE) {
        FeedOutcome::Failed(e) => assert!(e.can_be_skipped()),
        other => panic!("unexpected {other:?}"),
    }
    assert_eq!(p.latest_today().unwrap().id(), id);
}

#[test]
fn several_groups_give_titled_messages() {
    let mut p = poller();
    p.complete_fetch(Feed::Today, Fetch::Page(page("Физика")), DATE);
    let s = p.latest_today().unwrap();
    let msgs = messages_for(s, &strings(&["Г2", "Г7", "Г1"]));
    let titles: Vec<&str> = msgs
        .iter()
        .map(|m| match m {
            Message::Titled(g) => g.as_str(),
            Message::Single(_) => panic!("single message"),
        })
        .collect();
    assert_eq!(titles, vec!["Г2", "Г1"]);
    assert!(messages_for(s, &strings(&["Г7"])).is_empty());
}

#[test]
fn unreachable_subscriber_is_disabled_once() {
    let outcomes = [
        DeliveryOutcome { subscriber: 10, result: DeliveryResult::Unreachable },
        DeliveryOutcome { subscriber: 11, result: DeliveryResult::Sent },
        DeliveryOutcome { subscriber: 12, result: DeliveryResult::Failed },
        DeliveryOutcome { subscriber: 13, result: DeliveryResult::Sent },
    ];
    let report = settle(&outcomes);
    assert_eq!(report.disable, vec![10]);
    assert_eq!(report.delivered, 2);
    assert_eq!(report.total, 4);
    let empty = settle(&[]);
    assert_eq!((empty.delivered, empty.total, empty.disable.len()), (0, 0, 0));
}
