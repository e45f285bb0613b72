//! Tor network analysis: relay records from the Onionoo metrics service,
//! the Tor bulk exit list, network statistics and privacy audits.

pub mod text;
pub mod ip;
pub mod time;
pub mod model;
pub mod onionoo;
pub mod consensus;
pub mod exits;
pub mod audit;
pub mod tor_audit;
pub mod persistence;
