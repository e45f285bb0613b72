# kagemusha

A Tor network analyzer. It reads relay records from the Onionoo metrics
service and the Tor bulk exit list, builds consensus snapshots and network
statistics, and runs privacy audits (DNS leak, WebRTC leak, IP exposure).

## Layout

- `src/` is the verified library. Every function carries a
  contract; all but a few thin wrappers around chrono and the standard
  library (whose contracts are trusted) are proved against it.
  - `text.rs`: digits, splitting, trimming, lines, joining.
  - `ip.rs`: IP addresses as Rust's `IpAddr` parses and displays them, with
    the proof that a displayed address parses back to itself.
  - `time.rs`: instants in UTC, Onionoo timestamps (read with chrono), and
    uptime in whole days.
  - `model.rs`: errors, relay flags, relays, exit nodes, statistics, reports.
  - `onionoo.rs`: or-address and flag parsing, relay records, network
    statistics, the client's request URLs.
  - `consensus.rs`: consensus snapshots from relay records.
  - `exits.rs`: the exit list format and the detector's cache.
  - `audit.rs`: the basic privacy audit and its recommendations.
  - `tor_audit.rs`: the audit made through Tor, as a state machine that the
    caller drives through the network steps.
  - `persistence.rs`: the rows in which snapshots are stored.
- `tests/` runs the library on concrete values.
- `app/` is the command line program: HTTP requests, the Tor transport,
  the SQLite store, async plumbing and printing.

## Usage

```bash
kagemusha status          # Tor network statistics
kagemusha relays [QUERY]  # list or search relays
kagemusha exits           # current exit node addresses
kagemusha audit           # privacy audit of this connection
kagemusha circuits        # circuit diversity analysis (not yet implemented)
```
