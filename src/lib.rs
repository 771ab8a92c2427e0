//! Job queue and scraping pipeline of a book-series release tracker.
//!
//! The library holds the queue of scrape jobs and its state machine, the
//! tables of series and books with their upsert-if-absent rules, the
//! extractors that turn the text of a retailer's pages into records, and the
//! worker's decisions. Browsers, databases and timers are driven from outside.
pub mod asin;
pub mod date;
pub mod extract;
pub mod job;
pub mod params;
pub mod reads;
pub mod response;
pub mod store;
pub mod subscriptions;
pub mod text;
pub mod tracking;
pub mod worker;
