//! Network consensus snapshots built from Onionoo relay records.

use vstd::prelude::*;

use crate::ip::IpAddress;
use crate::model::{Error, ExitNode, NetworkConsensus, RelayEntry, RelayInfo};
use crate::onionoo::{
    base_url_without_slashes, default_onionoo_url, known_flags, known_flags_of, main_address,
    is_exit_node_of, is_relay_info_of, law_displayed_socket_address_parses_back, parse_or_address,
    socket_text, spec_parse_or_address, string_or_empty, text_or_empty, trim_trailing, with_main_address,
    OnionooRelay,
};
use crate::time::{add_one_hour, one_hour_later, utc_now, Timestamp, MAX_UTC_SECS};

verus! {

/// Builds network consensus snapshots from the Onionoo service at its base URL.
pub struct OnionooConsensusProvider {
    base_url: String,
}

impl View for OnionooConsensusProvider {
    type V = Seq<char>;

    /// The base URL, without trailing slashes.
    closed spec fn view(&self) -> Seq<char> {
        self.base_url@
    }
}

impl OnionooConsensusProvider {
    /// A provider that asks the public Onionoo service.
    pub fn new() -> (p: Self)
        ensures
            p@ == default_onionoo_url(),
    {
        proof {
            reveal_strlit("https://onionoo.torproject.org");
        }
        Self::with_base_url("https://onionoo.torproject.org")
    }

    /// A provider that asks the service at `base_url`; trailing slashes are dropped.
    pub fn with_base_url(base_url: &str) -> (p: Self)
        ensures
            p@ == trim_trailing(base_url@, '/'),
    {
        OnionooConsensusProvider { base_url: base_url_without_slashes(base_url) }
    }

    /// The base URL in use.
    pub fn base_url(&self) -> (s: &str)
        ensures
            s@ == self@,
    {
        self.base_url.as_str()
    }

    /// The request for the relay fields that a consensus needs.
    pub fn fetch_url(&self) -> (u: String)
        ensures
            u@ == self@
                + "/details?type=relay&fields=fingerprint,nickname,or_addresses,flags,observed_bandwidth"@,
    {
        let mut u = self.base_url.clone();
        u.append("/details?type=relay&fields=fingerprint,nickname,or_addresses,flags,observed_bandwidth");
        u
    }
}

impl Default for OnionooConsensusProvider {
    fn default() -> (p: Self)
        ensures
            p@ == default_onionoo_url(),
    {
        Self::new()
    }
}

pub open spec fn missing_entry_address_text(fingerprint: Seq<char>) -> Seq<char> {
    "no valid address for "@ + fingerprint
}

/// `e` is the consensus entry that the record `r` gives.
pub open spec fn is_relay_entry_of(r: OnionooRelay, e: RelayEntry) -> bool {
    &&& main_address(r) matches Some((ip, port))
    &&& e.fingerprint@ == text_or_empty(r.fingerprint)
    &&& e.nickname@ == text_or_empty(r.nickname)
    &&& e.address == ip
    &&& e.or_port == port
    &&& e.dir_port == 0
    &&& e.flags@ == known_flags(r.flags@)
    &&& e.bandwidth == match r.observed_bandwidth {
        Some(b) => b,
        None => 0,
    }
}

/// The consensus entry of a record; an error where its first address does
/// not read.
pub fn onionoo_to_relay_entry(relay: &OnionooRelay) -> (r: Result<RelayEntry, Error>)
    ensures
        r is Err <==> main_address(*relay) is None,
        r matches Ok(e) ==> is_relay_entry_of(*relay, e),
        r matches Err(e) ==> e matches Error::Parse(m) && m@ == missing_entry_address_text(
            text_or_empty(relay.fingerprint),
        ),
{
    let fingerprint = string_or_empty(&relay.fingerprint);
    let first = if relay.or_addresses.len() > 0 {
        parse_or_address(relay.or_addresses[0].as_str())
    } else {
        None
    };
    let (address, or_port) = match first {
        Some(a) => a,
        None => {
            let mut m = String::from_str("no valid address for ");
            m.append(fingerprint.as_str());
            return Err(Error::Parse(m));
        },
    };
    Ok(
        RelayEntry {
            fingerprint,
            nickname: string_or_empty(&relay.nickname),
            address,
            or_port,
            dir_port: 0,
            flags: known_flags_of(&relay.flags),
            bandwidth: match relay.observed_bandwidth {
                Some(b) => b,
                None => 0,
            },
        },
    )
}

/// `entries` are the consensus entries of the records whose first address
/// reads, in order.
pub open spec fn are_entries_of(entries: Seq<RelayEntry>, rs: Seq<OnionooRelay>) -> bool {
    &&& entries.len() == with_main_address(rs).len()
    &&& forall|i: int| 0 <= i < entries.len() ==> is_relay_entry_of(with_main_address(rs)[i], #[trigger] entries[i])
}

/// The consensus entries of the records whose first address reads, in
/// order; the others are skipped.
pub fn relay_entries_from(relays: &Vec<OnionooRelay>) -> (entries: Vec<RelayEntry>)
    ensures
        are_entries_of(entries@, relays@),
{
    let ghost rs = relays@;
    let mut entries: Vec<RelayEntry> = Vec::new();
    let mut i: usize = 0;
    while i < relays.len()
        invariant
            rs == relays@,
            i <= relays.len(),
            are_entries_of(entries@, rs.take(i as int)),
        decreases relays.len() - i,
    {
        assert(rs.take(i + 1).drop_last() =~= rs.take(i as int));
        assert(rs.take(i + 1).last() == rs[i as int]);
        match onionoo_to_relay_entry(&relays[i]) {
            Ok(e) => {
                entries.push(e);
            },
            Err(_) => {},
        }
        i = i + 1;
    }
    assert(rs.take(i as int) =~= rs);
    entries
}

/// A consensus of the records that is valid from `now` for one hour.
/// chrono panics where `now` plus an hour leaves its range, so such `now`
/// are not admitted.
pub fn consensus_from_relays(relays: &Vec<OnionooRelay>, now: Timestamp) -> (c: NetworkConsensus)
    requires
        now.secs + 3600 <= MAX_UTC_SECS,
    ensures
        c.valid_after == now,
        c.valid_until == one_hour_later(now),
        are_entries_of(c.relays@, relays@),
{
    NetworkConsensus { valid_after: now, valid_until: add_one_hour(now), relays: relay_entries_from(relays) }
}

/// A consensus of the records that is valid from `now` for one hour;
/// `None` exactly where `now` stands within an hour of the end of chrono's
/// range, where adding the hour would leave it.
pub fn consensus_at(relays: &Vec<OnionooRelay>, now: Timestamp) -> (c: Option<NetworkConsensus>)
    ensures
        c is None <==> now.secs > MAX_UTC_SECS - 3600,
        c matches Some(c) ==> c.valid_after == now && c.valid_until == one_hour_later(now) && are_entries_of(
            c.relays@,
            relays@,
        ),
{
    if now.secs > MAX_UTC_SECS - 3600 {
        None
    } else {
        Some(consensus_from_relays(relays, now))
    }
}

/// A consensus of the records that is valid from the current time for one
/// hour; `None` where the clock stands within an hour of the end of
/// chrono's range.
pub fn build_consensus(relays: &Vec<OnionooRelay>) -> (c: Option<NetworkConsensus>)
    ensures
        c matches Some(c) ==> c.valid_until == one_hour_later(c.valid_after) && c.valid_after.nanos
            < 1_000_000_000 && are_entries_of(c.relays@, relays@),
{
    let now = utc_now();
    consensus_at(relays, now)
}

/// `a` comes strictly before `b`.
pub open spec fn is_before(a: Timestamp, b: Timestamp) -> bool {
    a.secs < b.secs || (a.secs == b.secs && a.nanos < b.nanos)
}

/// A cached consensus is still valid at `now` where `now` comes before the
/// end of its validity.
pub fn is_valid_at(consensus: &NetworkConsensus, now: Timestamp) -> (valid: bool)
    ensures
        valid == is_before(now, consensus.valid_until),
{
    now.secs < consensus.valid_until.secs || (now.secs == consensus.valid_until.secs && now.nanos
        < consensus.valid_until.nanos)
}

/// Whether a cached consensus is still valid at the current time. The
/// clock decides; a valid consensus ends after the epoch.
pub fn is_still_valid(consensus: &NetworkConsensus) -> (valid: bool)
    ensures
        valid ==> consensus.valid_until.secs >= 0,
{
    let now = utc_now();
    is_valid_at(consensus, now)
}


/// A relay is known by the first entry of its `or_addresses`: two records
/// whose first entries agree have the same address and port, whatever
/// further entries either lists; a record without entries has none.
pub proof fn law_address_is_first_entry(r1: OnionooRelay, r2: OnionooRelay)
    requires
        r1.or_addresses.len() > 0,
        r2.or_addresses.len() > 0,
        r1.or_addresses@[0]@ == r2.or_addresses@[0]@,
    ensures
        main_address(r1) == main_address(r2),
        main_address(r1) == spec_parse_or_address(r1.or_addresses@[0]@),
{
}

/// A record without addresses has no address.
pub proof fn law_no_entries_no_address(r: OnionooRelay)
    requires
        r.or_addresses.len() == 0,
    ensures
        main_address(r) is None,
{
}

/// Where the first entry of `or_addresses` is a displayed socket address,
/// the relay information, the exit node and the consensus entry of the
/// record carry that address (and port), whatever entries follow.
pub proof fn law_first_entry_gives_address(
    r: OnionooRelay,
    ip: IpAddress,
    port: u16,
    info: RelayInfo,
    node: ExitNode,
    entry: RelayEntry,
)
    requires
        r.or_addresses.len() > 0,
        r.or_addresses@[0]@ == socket_text(ip, port),
    ensures
        main_address(r) == Some((ip, port)),
        is_relay_info_of(r, info) ==> info.address == ip && info.or_port == port,
        is_exit_node_of(r, node) ==> node.address == ip,
        is_relay_entry_of(r, entry) ==> entry.address == ip && entry.or_port == port,
{
    law_displayed_socket_address_parses_back(ip, port);
}

} // verus!
