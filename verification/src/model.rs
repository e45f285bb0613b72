//! The records that the analysis produces: errors, relay flags, relays, exit
//! nodes, network statistics, consensus snapshots and privacy reports.

use vstd::prelude::*;

use crate::ip::IpAddress;
use crate::time::Timestamp;

verus! {

/// Errors produced by kagemusha operations.
#[derive(Clone, Debug, PartialEq, Eq)]
pub enum Error {
    Network(String),
    Parse(String),
    ConsensusUnavailable(String),
    RelayNotFound(String),
    AuditFailed(String),
    Other(String),
}

/// The message that an error displays.
pub open spec fn error_text(e: Error) -> Seq<char> {
    match e {
        Error::Network(m) => "network request failed: "@ + m@,
        Error::Parse(m) => "failed to parse response: "@ + m@,
        Error::ConsensusUnavailable(m) => "consensus unavailable: "@ + m@,
        Error::RelayNotFound(m) => "relay not found: "@ + m@,
        Error::AuditFailed(m) => "audit failed: "@ + m@,
        Error::Other(m) => m@,
    }
}

impl Error {
    /// The message that this error displays.
    pub fn message(&self) -> (s: String)
        ensures
            s@ == error_text(*self),
    {
        let (prefix, m) = match self {
            Error::Network(m) => ("network request failed: ", m),
            Error::Parse(m) => ("failed to parse response: ", m),
            Error::ConsensusUnavailable(m) => ("consensus unavailable: ", m),
            Error::RelayNotFound(m) => ("relay not found: ", m),
            Error::AuditFailed(m) => ("audit failed: ", m),
            Error::Other(m) => ("", m),
        };
        let mut s = String::from_str(prefix);
        s.append(m.as_str());
        proof {
            reveal_strlit("");
        }
        assert(s@ =~= error_text(*self));
        s
    }
}

/// Flags assigned to a relay by the directory authorities.
#[derive(Clone, Copy, Debug, PartialEq, Eq, Hash, Structural)]
pub enum RelayFlag {
    Authority,
    BadExit,
    Exit,
    Fast,
    Guard,
    HSDir,
    Running,
    Stable,
    StaleDesc,
    V2Dir,
    Valid,
}

/// A single relay in the consensus.
#[derive(Clone, Debug, PartialEq, Eq)]
pub struct RelayEntry {
    pub fingerprint: String,
    pub nickname: String,
    pub address: IpAddress,
    pub or_port: u16,
    pub dir_port: u16,
    pub flags: Vec<RelayFlag>,
    pub bandwidth: u64,
}

/// A Tor exit node with policy information.
#[derive(Clone, Debug, PartialEq, Eq)]
pub struct ExitNode {
    pub fingerprint: String,
    pub nickname: String,
    pub address: IpAddress,
    pub exit_policy_summary: String,
    pub country: Option<String>,
    pub bandwidth: u64,
}

/// Detailed information about a single relay.
#[derive(Clone, Debug, PartialEq, Eq)]
pub struct RelayInfo {
    pub fingerprint: String,
    pub nickname: String,
    pub address: IpAddress,
    pub or_port: u16,
    pub dir_port: u16,
    pub flags: Vec<RelayFlag>,
    pub bandwidth: u64,
    pub country: Option<String>,
    pub first_seen: Timestamp,
    pub last_seen: Timestamp,
    pub uptime_days: u32,
}

/// How many relays a country hosts.
#[derive(Clone, Debug, PartialEq, Eq)]
pub struct CountryCount {
    pub country: String,
    pub relays: u32,
}

/// Aggregate network statistics. Each country occurs at most once in
/// `country_distribution`; its order carries no meaning.
#[derive(Clone, Debug, PartialEq, Eq)]
pub struct NetworkStats {
    pub total_relays: u32,
    pub exit_relays: u32,
    pub guard_relays: u32,
    pub total_bandwidth: u64,
    pub country_distribution: Vec<CountryCount>,
}

/// A snapshot of the Tor network consensus.
#[derive(Clone, Debug, PartialEq, Eq)]
pub struct NetworkConsensus {
    pub valid_after: Timestamp,
    pub valid_until: Timestamp,
    pub relays: Vec<RelayEntry>,
}

/// The result of a privacy audit.
#[derive(Clone, Debug, PartialEq, Eq)]
pub struct PrivacyReport {
    pub dns_leak: bool,
    pub webrtc_leak: bool,
    pub ip_exposed: bool,
    pub tor_detected: bool,
    pub exit_fingerprint: Option<String>,
    pub recommendations: Vec<String>,
}

} // verus!
