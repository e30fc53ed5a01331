//! Weekly timetable scraping: table extraction, schedule reconstruction,
//! change detection and notification planning.
pub mod changes;
pub mod context;
pub mod date;
pub mod defaults;
pub mod digest;
pub mod dispatch;
pub mod error;
pub mod format;
pub mod grouping;
pub mod poller;
pub mod rows;
pub mod snapshot;
pub mod table;
pub mod text;
