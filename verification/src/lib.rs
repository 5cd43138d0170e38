//! Verified core of a liturgical-calendar scraper: text extraction from
//! markup, header splitting, date handling, record assembly, persistence
//! framing, year-completion tracking, and the retry policy.

pub mod calendar;
pub mod codec;
pub mod date;
pub mod json;
pub mod error;
pub mod header;
pub mod ical;
pub mod retry;
pub mod scraper;
pub mod text;
pub mod types;
pub mod year;
