//! The decisions of the poll scheduler: when a tick does work, what a fetched
//! page turns into, which cached snapshot it replaces and what is reported.
//! Fetching, waiting and delivering are left to the caller.
use vstd::prelude::*;

use crate::changes::{changes, changes_between, snapshot_opt_view};
use crate::context::{build_snapshot, table_snapshot};
use crate::date::Date;
use crate::defaults::{DefaultGroupView, DefaultLectures};
use crate::error::{BuilderError, Error, ErrorView};
use crate::snapshot::{Snapshot, SnapshotView};
use crate::table::{parse_last, picked_table, row_views};
use crate::text::string_views;

verus! {

/// The first hour of the day (inclusive) at which feeds are polled by default.
pub const DEFAULT_START_HOUR: u32 = 7;

/// The hour of the day (exclusive) until which feeds are polled by default.
pub const DEFAULT_END_HOUR: u32 = 18;

/// The default time between two ticks, in seconds.
pub const DEFAULT_INTERVAL_SECS: u64 = 300;

#[verifier::external_type_specification]
#[verifier::external_body]
pub struct ExUrl(url::Url);

#[verifier::external_type_specification]
#[verifier::external_body]
pub struct ExParseError(url::ParseError);

/// Whether url's `Url::parse` accepts `s` as an absolute URL.
pub uninterp spec fn url_accepted(s: Seq<char>) -> bool;

/// Relies on url's `Url::parse`: whether it succeeds depends on the text alone.
#[verifier::external_body]
fn parse_url(s: &str) -> (r: Result<url::Url, url::ParseError>)
    ensures
        r is Ok <==> url_accepted(s@),
{
    url::Url::parse(s)
}

/// The text that encoding_rs decodes `bytes` to as windows-1251.
pub uninterp spec fn windows_1251_text(bytes: Seq<u8>) -> Seq<char>;

/// Relies on encoding_rs's `Encoding::decode` with `WINDOWS_1251`.
#[verifier::external_body]
fn decode_windows_1251(bytes: &[u8]) -> (r: String)
    ensures
        r@ == windows_1251_text(bytes@),
{
    encoding_rs::WINDOWS_1251.decode(bytes).0.into_owned()
}

/// One of the two polled timetables.
#[derive(Clone, Copy, Debug, PartialEq, Eq, Structural)]
pub enum Feed {
    Today,
    Next,
}

/// What fetching a feed's page gave.
#[derive(Debug)]
pub enum Fetch {
    /// The page's bytes.
    Page(Vec<u8>),
    /// The fetch failed; the message says why.
    Failed(String),
}

pub enum FetchView {
    Page(Seq<u8>),
    Failed(Seq<char>),
}

impl View for Fetch {
    type V = FetchView;

    open spec fn view(&self) -> FetchView {
        match self {
            Fetch::Page(b) => FetchView::Page(b@),
            Fetch::Failed(m) => FetchView::Failed(m@),
        }
    }
}

/// What a poll of one feed reports.
#[derive(Debug)]
pub enum FeedOutcome {
    /// The first snapshot of the feed was cached; nothing is reported.
    Seeded,
    /// A snapshot was cached; these roster groups changed.
    Updated(Vec<String>),
    /// No snapshot; the cached one stays.
    Failed(Error),
}

pub enum FeedOutcomeView {
    Seeded,
    Updated(Seq<Seq<char>>),
    Failed(ErrorView),
}

impl View for FeedOutcome {
    type V = FeedOutcomeView;

    open spec fn view(&self) -> FeedOutcomeView {
        match self {
            FeedOutcome::Seeded => FeedOutcomeView::Seeded,
            FeedOutcome::Updated(c) => FeedOutcomeView::Updated(string_views(c@)),
            FeedOutcome::Failed(e) => FeedOutcomeView::Failed(e@),
        }
    }
}

/// What the decisions depend on.
pub struct PollerView {
    pub roster: Seq<Seq<char>>,
    pub defaults: Seq<DefaultGroupView>,
    pub start_hour: u32,
    pub end_hour: u32,
    pub suppress_first: bool,
    pub today: Option<SnapshotView>,
    pub next: Option<SnapshotView>,
    pub today_seen: bool,
    pub next_seen: bool,
}

pub open spec fn cached(v: PollerView, feed: Feed) -> Option<SnapshotView> {
    match feed {
        Feed::Today => v.today,
        Feed::Next => v.next,
    }
}

pub open spec fn seen(v: PollerView, feed: Feed) -> bool {
    match feed {
        Feed::Today => v.today_seen,
        Feed::Next => v.next_seen,
    }
}

/// `v` with `s` cached for `feed` and the feed marked as seen.
pub open spec fn with_cached(v: PollerView, feed: Feed, s: SnapshotView) -> PollerView {
    match feed {
        Feed::Today => PollerView { today: Some(s), today_seen: true, ..v },
        Feed::Next => PollerView { next: Some(s), next_seen: true, ..v },
    }
}

/// One poll of `feed`: a failed fetch or a page without a table reports the
/// error and keeps the state; otherwise the page's snapshot replaces the
/// cached one, and the changes against the cached one are reported, except
/// on the feed's first snapshot when first snapshots are only cached.
pub open spec fn poll_step(v: PollerView, feed: Feed, fetch: FetchView, now: Date) -> (
    PollerView,
    FeedOutcomeView,
) {
    match fetch {
        FetchView::Failed(m) => (v, FeedOutcomeView::Failed(ErrorView::Network(m))),
        FetchView::Page(bytes) => match picked_table(windows_1251_text(bytes), true) {
            None => (v, FeedOutcomeView::Failed(ErrorView::NoHtmlTable)),
            Some(rows) => {
                let s = table_snapshot(rows, v.roster, v.defaults, now);
                let outcome = if v.suppress_first && !seen(v, feed) {
                    FeedOutcomeView::Seeded
                } else {
                    FeedOutcomeView::Updated(changes_between(cached(v, feed), Some(s), v.roster))
                };
                (with_cached(v, feed, s), outcome)
            },
        },
    }
}

pub open spec fn owned_view(o: Option<Snapshot>) -> Option<SnapshotView> {
    match o {
        Some(s) => Some(s@),
        None => None,
    }
}

/// The state of the scheduler: its settings and the last snapshot of each feed.
pub struct SnapshotParser {
    roster: Vec<String>,
    default_lectures: DefaultLectures,
    today_url: Option<url::Url>,
    next_url: Option<url::Url>,
    start_hour: u32,
    end_hour: u32,
    interval_secs: u64,
    suppress_first: bool,
    prev_today: Option<Snapshot>,
    prev_next: Option<Snapshot>,
    today_seen: bool,
    next_seen: bool,
}

impl View for SnapshotParser {
    type V = PollerView;

    closed spec fn view(&self) -> PollerView {
        PollerView {
            roster: string_views(self.roster@),
            defaults: self.default_lectures.view(),
            start_hour: self.start_hour,
            end_hour: self.end_hour,
            suppress_first: self.suppress_first,
            today: owned_view(self.prev_today),
            next: owned_view(self.prev_next),
            today_seen: self.today_seen,
            next_seen: self.next_seen,
        }
    }
}

impl SnapshotParser {
    /// The cached snapshots are well formed.
    pub closed spec fn wf(&self) -> bool {
        &&& (self.prev_today matches Some(s) ==> s.wf())
        &&& (self.prev_next matches Some(s) ==> s.wf())
    }

    pub closed spec fn spec_interval_secs(&self) -> u64 {
        self.interval_secs
    }

    /// Which of the two feeds are configured.
    pub closed spec fn spec_has_urls(&self) -> (bool, bool) {
        (self.today_url is Some, self.next_url is Some)
    }

    /// Whether a tick at `hour` polls the feeds.
    pub fn should_poll(&self, hour: u32) -> (r: bool)
        ensures
            r == (self@.start_hour <= hour && hour < self@.end_hour),
    {
        self.start_hour <= hour && hour < self.end_hour
    }

    /// The time between two ticks, in seconds.
    pub fn interval_secs(&self) -> (r: u64)
        ensures
            r == self.spec_interval_secs(),
    {
        self.interval_secs
    }

    /// Where `feed` is fetched from, if it is configured.
    pub fn url(&self, feed: Feed) -> (r: Option<&url::Url>)
        ensures
            r is Some == match feed {
                Feed::Today => self.spec_has_urls().0,
                Feed::Next => self.spec_has_urls().1,
            },
    {
        match feed {
            Feed::Today => match &self.today_url {
                Some(u) => Some(u),
                None => None,
            },
            Feed::Next => match &self.next_url {
                Some(u) => Some(u),
                None => None,
            },
        }
    }

    /// The last snapshot of the "today" feed.
    pub fn latest_today(&self) -> (r: Option<&Snapshot>)
        requires
            self.wf(),
        ensures
            snapshot_opt_view(r) == self@.today,
            r matches Some(s) ==> s.wf(),
    {
        match &self.prev_today {
            Some(s) => Some(s),
            None => None,
        }
    }

    /// The last snapshot of the "next" feed.
    pub fn latest_next(&self) -> (r: Option<&Snapshot>)
        requires
            self.wf(),
        ensures
            snapshot_opt_view(r) == self@.next,
            r matches Some(s) ==> s.wf(),
    {
        match &self.prev_next {
            Some(s) => Some(s),
            None => None,
        }
    }

    /// The last snapshot of `feed`.
    pub fn latest(&self, feed: Feed) -> (r: Option<&Snapshot>)
        requires
            self.wf(),
        ensures
            snapshot_opt_view(r) == cached(self@, feed),
            r matches Some(s) ==> s.wf(),
    {
        match feed {
            Feed::Today => self.latest_today(),
            Feed::Next => self.latest_next(),
        }
    }

    /// Takes in what fetching `feed` gave at date `now`, updates the cache and
    /// says what to report.
    pub fn complete_fetch(&mut self, feed: Feed, fetch: Fetch, now: Date) -> (r: FeedOutcome)
        requires
            old(self).wf(),
            now.wf(),
        ensures
            final(self).wf(),
            (final(self)@, r@) == poll_step(old(self)@, feed, fetch@, now),
            final(self).spec_interval_secs() == old(self).spec_interval_secs(),
    {
        match fetch {
            Fetch::Failed(m) => FeedOutcome::Failed(Error::Network(m)),
            Fetch::Page(bytes) => {
                let text = decode_windows_1251(bytes.as_slice());
                match parse_last(text.as_str()) {
                    None => FeedOutcome::Failed(Error::NoHtmlTable),
                    Some(table) => {
                        let ghost rows = row_views(table.rows@);
                        let snapshot = build_snapshot(
                            table,
                            self.roster.as_slice(),
                            &self.default_lectures,
                            now,
                        );
                        let was_seen = match feed {
                            Feed::Today => self.today_seen,
                            Feed::Next => self.next_seen,
                        };
                        let suppressed = self.suppress_first && !was_seen;
                        let changed = changes(self.latest(feed), Some(&snapshot), self.roster.as_slice());
                        match feed {
                            Feed::Today => {
                                self.prev_today = Some(snapshot);
                                self.today_seen = true;
                            },
                            Feed::Next => {
                                self.prev_next = Some(snapshot);
                                self.next_seen = true;
                            },
                        }
                        if suppressed {
                            FeedOutcome::Seeded
                        } else {
                            FeedOutcome::Updated(changed)
                        }
                    },
                }
            },
        }
    }
}

/// The first successful poll of a feed only seeds its cache when first
/// snapshots are suppressed, whatever the change detector would report; a
/// failed poll never changes the state.
pub proof fn lemma_first_poll_is_silent(v: PollerView, feed: Feed, fetch: FetchView, now: Date)
    ensures
        v.suppress_first && !seen(v, feed) ==> !(poll_step(v, feed, fetch, now).1 is Updated),
        !(poll_step(v, feed, fetch, now).1 is Failed) ==> seen(poll_step(v, feed, fetch, now).0, feed),
        poll_step(v, feed, fetch, now).1 is Failed ==> poll_step(v, feed, fetch, now).0 == v,
{
}

/// Builds the scheduler's state.
pub struct SnapshotParserBuilder {
    roster: Vec<String>,
    default_lectures: DefaultLectures,
    today_url: Option<url::Url>,
    next_url: Option<url::Url>,
    start_hour: u32,
    end_hour: u32,
    interval_secs: u64,
    suppress_first: bool,
}

impl SnapshotParserBuilder {
    pub closed spec fn spec_roster(&self) -> Seq<Seq<char>> {
        string_views(self.roster@)
    }

    pub closed spec fn spec_defaults(&self) -> Seq<DefaultGroupView> {
        self.default_lectures.view()
    }

    pub closed spec fn spec_hours(&self) -> (u32, u32) {
        (self.start_hour, self.end_hour)
    }

    pub closed spec fn spec_interval_secs(&self) -> u64 {
        self.interval_secs
    }

    pub closed spec fn spec_suppress_first(&self) -> bool {
        self.suppress_first
    }

    pub closed spec fn spec_has_urls(&self) -> (bool, bool) {
        (self.today_url is Some, self.next_url is Some)
    }

    /// A builder for `roster` with no feeds, no default lectures, the default
    /// active hours and interval, and first snapshots suppressed.
    pub fn new(roster: Vec<String>) -> (r: SnapshotParserBuilder)
        ensures
            r.spec_roster() == string_views(roster@),
            r.spec_defaults() == Seq::<DefaultGroupView>::empty(),
            r.spec_hours() == (DEFAULT_START_HOUR, DEFAULT_END_HOUR),
            r.spec_interval_secs() == DEFAULT_INTERVAL_SECS,
            r.spec_suppress_first(),
            r.spec_has_urls() == (false, false),
    {
        SnapshotParserBuilder {
            roster,
            default_lectures: DefaultLectures::empty(),
            today_url: None,
            next_url: None,
            start_hour: DEFAULT_START_HOUR,
            end_hour: DEFAULT_END_HOUR,
            interval_secs: DEFAULT_INTERVAL_SECS,
            suppress_first: true,
        }
    }

    /// Sets where the "today" feed is fetched from; fails where `url` is no URL.
    pub fn with_today_url(self, url: &str) -> (r: Result<SnapshotParserBuilder, url::ParseError>)
        ensures
            r is Ok <==> url_accepted(url@),
            r matches Ok(b) ==> b.spec_roster() == self.spec_roster() && b.spec_defaults()
                == self.spec_defaults() && b.spec_hours() == self.spec_hours()
                && b.spec_interval_secs() == self.spec_interval_secs() && b.spec_suppress_first()
                == self.spec_suppress_first() && b.spec_has_urls() == (true, self.spec_has_urls().1),
    {
        match parse_url(url) {
            Ok(u) => Ok(SnapshotParserBuilder { today_url: Some(u), ..self }),
            Err(e) => Err(e),
        }
    }

    /// Sets where the "next" feed is fetched from; fails where `url` is no URL.
    pub fn with_next_url(self, url: &str) -> (r: Result<SnapshotParserBuilder, url::ParseError>)
        ensures
            r is Ok <==> url_accepted(url@),
            r matches Ok(b) ==> b.spec_roster() == self.spec_roster() && b.spec_defaults()
                == self.spec_defaults() && b.spec_hours() == self.spec_hours()
                && b.spec_interval_secs() == self.spec_interval_secs() && b.spec_suppress_first()
                == self.spec_suppress_first() && b.spec_has_urls() == (self.spec_has_urls().0, true),
    {
        match parse_url(url) {
            Ok(u) => Ok(SnapshotParserBuilder { next_url: Some(u), ..self }),
            Err(e) => Err(e),
        }
    }

    pub fn with_default_lectures(self, lectures: DefaultLectures) -> (r: SnapshotParserBuilder)
        ensures
            r.spec_roster() == self.spec_roster(),
            r.spec_defaults() == lectures.view(),
            r.spec_hours() == self.spec_hours(),
            r.spec_interval_secs() == self.spec_interval_secs(),
            r.spec_suppress_first() == self.spec_suppress_first(),
            r.spec_has_urls() == self.spec_has_urls(),
    {
        SnapshotParserBuilder { default_lectures: lectures, ..self }
    }

    /// Polls only at hours `start <= hour < end`.
    pub fn with_time_bounds(self, start: u32, end: u32) -> (r: SnapshotParserBuilder)
        ensures
            r.spec_roster() == self.spec_roster(),
            r.spec_defaults() == self.spec_defaults(),
            r.spec_hours() == (start, end),
            r.spec_interval_secs() == self.spec_interval_secs(),
            r.spec_suppress_first() == self.spec_suppress_first(),
            r.spec_has_urls() == self.spec_has_urls(),
    {
        SnapshotParserBuilder { start_hour: start, end_hour: end, ..self }
    }

    pub fn with_interval(self, secs: u64) -> (r: SnapshotParserBuilder)
        ensures
            r.spec_roster() == self.spec_roster(),
            r.spec_defaults() == self.spec_defaults(),
            r.spec_hours() == self.spec_hours(),
            r.spec_interval_secs() == secs,
            r.spec_suppress_first() == self.spec_suppress_first(),
            r.spec_has_urls() == self.spec_has_urls(),
    {
        SnapshotParserBuilder { interval_secs: secs, ..self }
    }

    /// Whether a feed's first snapshot is only cached, not reported.
    pub fn with_first_poll_suppressed(self, suppress: bool) -> (r: SnapshotParserBuilder)
        ensures
            r.spec_roster() == self.spec_roster(),
            r.spec_defaults() == self.spec_defaults(),
            r.spec_hours() == self.spec_hours(),
            r.spec_interval_secs() == self.spec_interval_secs(),
            r.spec_suppress_first() == suppress,
            r.spec_has_urls() == self.spec_has_urls(),
    {
        SnapshotParserBuilder { suppress_first: suppress, ..self }
    }

    /// The scheduler's state, with nothing cached yet; fails where no feed
    /// has a URL or the interval is zero.
    pub fn build(self) -> (r: Result<SnapshotParser, BuilderError>)
        ensures
            !self.spec_has_urls().0 && !self.spec_has_urls().1 ==> r == Err::<SnapshotParser, BuilderError>(BuilderError::UrlNotSet),
            (self.spec_has_urls().0 || self.spec_has_urls().1) && self.spec_interval_secs() == 0
                ==> r == Err::<SnapshotParser, BuilderError>(BuilderError::IntervalNotSet),
            (self.spec_has_urls().0 || self.spec_has_urls().1) && self.spec_interval_secs() > 0
                ==> (r matches Ok(p) && p.wf() && p@ == (PollerView {
                roster: self.spec_roster(),
                defaults: self.spec_defaults(),
                start_hour: self.spec_hours().0,
                end_hour: self.spec_hours().1,
                suppress_first: self.spec_suppress_first(),
                today: None,
                next: None,
                today_seen: false,
                next_seen: false,
            }) && p.spec_interval_secs() == self.spec_interval_secs() && p.spec_has_urls()
                == self.spec_has_urls()),
    {
        if self.today_url.is_none() && self.next_url.is_none() {
            return Err(BuilderError::UrlNotSet);
        }
        if self.interval_secs == 0 {
            return Err(BuilderError::IntervalNotSet);
        }
        Ok(SnapshotParser {
            roster: self.roster,
            default_lectures: self.default_lectures,
            today_url: self.today_url,
            next_url: self.next_url,
            start_hour: self.start_hour,
            end_hour: self.end_hour,
            interval_secs: self.interval_secs,
            suppress_first: self.suppress_first,
            prev_today: None,
            prev_next: None,
            today_seen: false,
            next_seen: false,
        })
    }
}

} // verus!
