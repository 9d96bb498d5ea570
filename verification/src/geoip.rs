//! Geolocation of addresses: the providers and the names that they report.

pub mod geoip;
pub mod providers;
