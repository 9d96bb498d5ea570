//! The services that answer a lookup.

pub mod ip2loc;
pub mod ipgeoloc;
pub mod testing;
