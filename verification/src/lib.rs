pub mod config;
pub mod dates;
pub mod filter;
pub mod matches;
pub mod pipeline;
pub mod pushover;
pub mod scrape;
pub mod timeparse;
