//! The connections found in a network and the summary of a crawl.

pub mod connection;
pub mod connections;
pub mod endpoint;
pub mod histogram;
pub mod node;
pub mod ranking;
pub mod summary;
pub mod text;
pub mod topology;
