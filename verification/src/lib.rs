//! Building blocks for a peer-to-peer network crawler.
//!
//! [`crawler`] holds the connections that peers report, a set that keeps one
//! entry for each of them whichever side reported it, and the summary of a
//! finished crawl. [`geoip`] holds the configuration of the services that
//! tell where an address is.

pub mod crawler;
pub mod geoip;
