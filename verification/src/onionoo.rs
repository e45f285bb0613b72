//! The Onionoo metrics service: the relay records it returns, the relay
//! flags and addresses written in them, the request URLs of the client, and
//! what the client makes of the records.

use vstd::prelude::*;

use crate::ip::{
    ip_text, is_address_char, law_displayed_address_parses_back, lemma_ip_text_chars, parse_ip_in,
    spec_parse_ip, IpAddress,
};
use crate::model::{CountryCount, Error, ExitNode, NetworkStats, RelayFlag, RelayInfo};
use crate::text::{
    all_ascii_digits, chars_of, contains_text, decimal_text, decimal_value, is_ascii_digit, join_with,
    lemma_decimal_text, lemma_join_contains_items, lemma_occurs_in_context, occurs_in_at, push_joined,
    starts_with, str_eq, string_views,
};
use crate::time::{opt_view, seen_instant, seen_time, spec_uptime_days, uptime_days};

verus! {

// ---------------------------------------------------------------------------
// Relay flags
// ---------------------------------------------------------------------------

/// The name under which Onionoo reports a flag.
pub open spec fn flag_name(f: RelayFlag) -> Seq<char> {
    match f {
        RelayFlag::Authority => "Authority"@,
        RelayFlag::BadExit => "BadExit"@,
        RelayFlag::Exit => "Exit"@,
        RelayFlag::Fast => "Fast"@,
        RelayFlag::Guard => "Guard"@,
        RelayFlag::HSDir => "HSDir"@,
        RelayFlag::Running => "Running"@,
        RelayFlag::Stable => "Stable"@,
        RelayFlag::StaleDesc => "StaleDesc"@,
        RelayFlag::V2Dir => "V2Dir"@,
        RelayFlag::Valid => "Valid"@,
    }
}

/// The flag with the given name, if it is one of the known flags.
pub open spec fn spec_parse_flag(s: Seq<char>) -> Option<RelayFlag> {
    if s == "Authority"@ {
        Some(RelayFlag::Authority)
    } else if s == "BadExit"@ {
        Some(RelayFlag::BadExit)
    } else if s == "Exit"@ {
        Some(RelayFlag::Exit)
    } else if s == "Fast"@ {
        Some(RelayFlag::Fast)
    } else if s == "Guard"@ {
        Some(RelayFlag::Guard)
    } else if s == "HSDir"@ {
        Some(RelayFlag::HSDir)
    } else if s == "Running"@ {
        Some(RelayFlag::Running)
    } else if s == "Stable"@ {
        Some(RelayFlag::Stable)
    } else if s == "StaleDesc"@ {
        Some(RelayFlag::StaleDesc)
    } else if s == "V2Dir"@ {
        Some(RelayFlag::V2Dir)
    } else if s == "Valid"@ {
        Some(RelayFlag::Valid)
    } else {
        None
    }
}

/// Reads a relay flag by its exact (case-sensitive) name; `None` for any
/// other text.
pub fn parse_flag(s: &str) -> (r: Option<RelayFlag>)
    ensures
        r == spec_parse_flag(s@),
{
    if str_eq(s, "Authority") {
        Some(RelayFlag::Authority)
    } else if str_eq(s, "BadExit") {
        Some(RelayFlag::BadExit)
    } else if str_eq(s, "Exit") {
        Some(RelayFlag::Exit)
    } else if str_eq(s, "Fast") {
        Some(RelayFlag::Fast)
    } else if str_eq(s, "Guard") {
        Some(RelayFlag::Guard)
    } else if str_eq(s, "HSDir") {
        Some(RelayFlag::HSDir)
    } else if str_eq(s, "Running") {
        Some(RelayFlag::Running)
    } else if str_eq(s, "Stable") {
        Some(RelayFlag::Stable)
    } else if str_eq(s, "StaleDesc") {
        Some(RelayFlag::StaleDesc)
    } else if str_eq(s, "V2Dir") {
        Some(RelayFlag::V2Dir)
    } else if str_eq(s, "Valid") {
        Some(RelayFlag::Valid)
    } else {
        None
    }
}

/// Every flag is read back from its own name, and from no other name.
pub proof fn law_flag_names_read_back(f: RelayFlag, s: Seq<char>)
    ensures
        spec_parse_flag(flag_name(f)) == Some(f),
        spec_parse_flag(s) == Some(f) ==> s == flag_name(f),
{
    reveal_strlit("Authority");
    reveal_strlit("BadExit");
    reveal_strlit("Exit");
    reveal_strlit("Fast");
    reveal_strlit("Guard");
    reveal_strlit("HSDir");
    reveal_strlit("Running");
    reveal_strlit("Stable");
    reveal_strlit("StaleDesc");
    reveal_strlit("V2Dir");
    reveal_strlit("Valid");
    assert("Authority"@.len() == 9 && "Authority"@[0] == 'A' && "Authority"@[1] == 'u');
    assert("BadExit"@.len() == 7 && "BadExit"@[0] == 'B' && "BadExit"@[1] == 'a');
    assert("Exit"@.len() == 4 && "Exit"@[0] == 'E' && "Exit"@[1] == 'x');
    assert("Fast"@.len() == 4 && "Fast"@[0] == 'F' && "Fast"@[1] == 'a');
    assert("Guard"@.len() == 5 && "Guard"@[0] == 'G' && "Guard"@[1] == 'u');
    assert("HSDir"@.len() == 5 && "HSDir"@[0] == 'H' && "HSDir"@[1] == 'S');
    assert("Running"@.len() == 7 && "Running"@[0] == 'R' && "Running"@[1] == 'u');
    assert("Stable"@.len() == 6 && "Stable"@[0] == 'S' && "Stable"@[1] == 't');
    assert("StaleDesc"@.len() == 9 && "StaleDesc"@[0] == 'S' && "StaleDesc"@[1] == 't');
    assert("V2Dir"@.len() == 5 && "V2Dir"@[0] == 'V' && "V2Dir"@[1] == '2');
    assert("Valid"@.len() == 5 && "Valid"@[0] == 'V' && "Valid"@[1] == 'a');
}

// ---------------------------------------------------------------------------
// Relay addresses
// ---------------------------------------------------------------------------

/// The index of the last occurrence of `c` in `s`, or -1.
pub open spec fn last_index_of(s: Seq<char>, c: char) -> int
    decreases s.len(),
{
    if s.len() == 0 {
        -1
    } else if s.last() == c {
        s.len() - 1
    } else {
        last_index_of(s.drop_last(), c)
    }
}

/// A character that UTF-8 encodes in one byte.
pub open spec fn is_ascii_char(c: char) -> bool {
    (c as int) < 128
}

/// `str::parse::<u16>`: an optional `+` and one or more decimal digits
/// whose value fits in 16 bits.
pub open spec fn spec_parse_port(s: Seq<char>) -> Option<u16> {
    let digits = if s.len() > 0 && s[0] == '+' {
        s.drop_first()
    } else {
        s
    };
    if digits.len() > 0 && all_ascii_digits(digits) && decimal_value(digits) <= 65535 {
        Some(decimal_value(digits) as u16)
    } else {
        None
    }
}

/// An address and port as Onionoo writes them, `1.2.3.4:9001` or
/// `[::1]:9001`. Where the text holds a `]`, the address is what stands
/// between the first character and the last `]`, and the port what follows
/// the character after that `]`; both pieces must begin on a character
/// boundary of the UTF-8 text, so the first character and the one after
/// the `]` must be one byte long. Otherwise the text is split at its last
/// `:`.
pub open spec fn spec_parse_or_address(s: Seq<char>) -> Option<(IpAddress, u16)> {
    let b = last_index_of(s, ']');
    if b >= 0 {
        if b >= 1 && is_ascii_char(s[0]) && b + 2 <= s.len() && is_ascii_char(s[b + 1]) {
            match (spec_parse_ip(s.subrange(1, b)), spec_parse_port(s.skip(b + 2))) {
                (Some(ip), Some(port)) => Some((ip, port)),
                _ => None,
            }
        } else {
            None
        }
    } else {
        let c = last_index_of(s, ':');
        if c >= 0 {
            match (spec_parse_ip(s.take(c)), spec_parse_port(s.skip(c + 1))) {
                (Some(ip), Some(port)) => Some((ip, port)),
                _ => None,
            }
        } else {
            None
        }
    }
}

/// How a socket address displays: `a.b.c.d:port`, or `[v6]:port`.
pub open spec fn socket_text(ip: IpAddress, port: u16) -> Seq<char> {
    match ip {
        IpAddress::V4(..) => ip_text(ip) + seq![':'] + decimal_text(port as nat),
        IpAddress::V6(..) => seq!['['] + ip_text(ip) + seq![']', ':'] + decimal_text(port as nat),
    }
}

proof fn lemma_last_index_absent(s: Seq<char>, c: char)
    requires
        forall|i: int| 0 <= i < s.len() ==> s[i] != c,
    ensures
        last_index_of(s, c) == -1,
    decreases s.len(),
{
    if s.len() > 0 {
        assert(s[s.len() - 1] != c);
        lemma_last_index_absent(s.drop_last(), c);
    }
}

proof fn lemma_last_index_before(x: Seq<char>, c: char, y: Seq<char>)
    requires
        forall|i: int| 0 <= i < y.len() ==> y[i] != c,
    ensures
        last_index_of(x + seq![c] + y, c) == x.len(),
    decreases y.len(),
{
    let s = x + seq![c] + y;
    if y.len() > 0 {
        assert(s.last() == y[y.len() - 1]);
        assert(s.drop_last() =~= x + seq![c] + y.drop_last());
        lemma_last_index_before(x, c, y.drop_last());
    }
}

proof fn lemma_port_text_parses(port: u16)
    ensures
        spec_parse_port(decimal_text(port as nat)) == Some(port),
        decimal_text(port as nat).len() >= 1,
        forall|i: int| 0 <= i < decimal_text(port as nat).len() ==> is_ascii_digit(#[trigger] decimal_text(port as nat)[i]),
{
    lemma_decimal_text(port as nat);
    let d = decimal_text(port as nat);
    assert(is_ascii_digit(d[0]));
}

/// Display, then read: a socket address as it displays (`a.b.c.d:port` or
/// `[v6]:port`) reads back as that address and port.
pub proof fn law_displayed_socket_address_parses_back(ip: IpAddress, port: u16)
    ensures
        spec_parse_or_address(socket_text(ip, port)) == Some((ip, port)),
{
    let t = ip_text(ip);
    let d = decimal_text(port as nat);
    let s = socket_text(ip, port);
    lemma_ip_text_chars(ip);
    law_displayed_address_parses_back(ip);
    lemma_port_text_parses(port);
    assert forall|i: int| 0 <= i < d.len() implies d[i] != ']' && d[i] != ':' by {
        assert(is_ascii_digit(d[i]));
    }
    match ip {
        IpAddress::V4(..) => {
            assert(s == t + seq![':'] + d);
            assert forall|i: int| 0 <= i < s.len() implies s[i] != ']' by {
                if i < t.len() {
                    assert(is_address_char(t[i]));
                } else if i > t.len() {
                    assert(s[i] == d[i - t.len() - 1]);
                }
            }
            lemma_last_index_absent(s, ']');
            lemma_last_index_before(t, ':', d);
            assert(s.take(t.len() as int) =~= t);
            assert(s.skip(t.len() as int + 1) =~= d);
        },
        IpAddress::V6(..) => {
            let x = seq!['['] + t;
            assert(s =~= x + seq![']'] + (seq![':'] + d));
            assert forall|i: int| 0 <= i < (seq![':'] + d).len() implies (seq![':'] + d)[i] != ']' by {
                if i > 0 {
                    assert((seq![':'] + d)[i] == d[i - 1]);
                }
            }
            lemma_last_index_before(x, ']', seq![':'] + d);
            let b = x.len() as int;
            assert(s[0] == '[');
            assert(s[b + 1] == ':');
            assert(s.subrange(1, b) =~= t);
            assert(s.skip(b + 2) =~= d);
        },
    }
}

/// The port in `chars[lo..hi]`.
fn parse_port_in(chars: &Vec<char>, lo: usize, hi: usize) -> (r: Option<u16>)
    requires
        lo <= hi <= chars.len(),
    ensures
        r == spec_parse_port(chars@.subrange(lo as int, hi as int)),
{
    let ghost s = chars@.subrange(lo as int, hi as int);
    let start: usize = if lo < hi && chars[lo] == '+' {
        lo + 1
    } else {
        lo
    };
    let ghost digits = chars@.subrange(start as int, hi as int);
    assert(s.len() > 0 && s[0] == '+' ==> s.drop_first() =~= digits);
    assert(!(s.len() > 0 && s[0] == '+') ==> s =~= digits);
    if start == hi {
        assert(digits.len() == 0);
        return None;
    }
    // The value is capped at 65536, which already rules the text out.
    let mut v: u32 = 0;
    let mut i: usize = start;
    while i < hi
        invariant
            start <= i <= hi <= chars.len(),
            lo <= start,
            s == chars@.subrange(lo as int, hi as int),
            s.len() > 0 && s[0] == '+' ==> s.drop_first() == digits,
            !(s.len() > 0 && s[0] == '+') ==> s == digits,
            digits == chars@.subrange(start as int, hi as int),
            all_ascii_digits(chars@.subrange(start as int, i as int)),
            decimal_value(chars@.subrange(start as int, i as int)) >= 0,
            v as int == if decimal_value(chars@.subrange(start as int, i as int)) < 65536 {
                decimal_value(chars@.subrange(start as int, i as int))
            } else {
                65536
            },
        decreases hi - i,
    {
        let c = chars[i];
        if !('0' <= c && c <= '9') {
            assert(digits[i - start] == c);
            return None;
        }
        let d: u32 = (c as u32) - ('0' as u32);
        assert(chars@.subrange(start as int, i + 1).drop_last() =~= chars@.subrange(
            start as int,
            i as int,
        ));
        v = v * 10 + d;
        if v > 65536 {
            v = 65536;
        }
        i = i + 1;
    }
    assert(chars@.subrange(start as int, i as int) == digits);
    if v > 65535 {
        None
    } else {
        Some(v as u16)
    }
}

fn last_index_in(chars: &Vec<char>, c: char) -> (r: Option<usize>)
    ensures
        r is None <==> last_index_of(chars@, c) == -1,
        r matches Some(i) ==> i as int == last_index_of(chars@, c) && i < chars.len(),
{
    let mut i: usize = chars.len();
    assert(chars@.take(i as int) =~= chars@);
    while i > 0
        invariant
            i <= chars.len(),
            last_index_of(chars@, c) == last_index_of(chars@.take(i as int), c),
        decreases i,
    {
        assert(chars@.take(i as int).drop_last() =~= chars@.take(i - 1));
        if chars[i - 1] == c {
            return Some(i - 1);
        }
        i = i - 1;
    }
    None
}

proof fn lemma_last_index_bounds(s: Seq<char>, c: char)
    ensures
        -1 <= last_index_of(s, c) < s.len(),
        last_index_of(s, c) >= 0 ==> s[last_index_of(s, c)] == c,
    decreases s.len(),
{
    if s.len() > 0 && s.last() != c {
        lemma_last_index_bounds(s.drop_last(), c);
    }
}

fn is_one_byte(c: char) -> (r: bool)
    ensures
        r == is_ascii_char(c),
{
    (c as u32) < 128
}

/// Reads an Onionoo address and port, `1.2.3.4:9001` or `[::1]:9001`.
pub fn parse_or_address(addr: &str) -> (r: Option<(IpAddress, u16)>)
    ensures
        r == spec_parse_or_address(addr@),
{
    let chars = chars_of(addr);
    let n = chars.len();
    proof {
        lemma_last_index_bounds(chars@, ']');
        lemma_last_index_bounds(chars@, ':');
    }
    match last_index_in(&chars, ']') {
        Some(b) => {
            if b >= 1 && is_one_byte(chars[0]) && n - b >= 2 && is_one_byte(chars[b + 1]) {
                assert(chars@.skip(b + 2) =~= chars@.subrange(b + 2, n as int));
                let ip = parse_ip_in(&chars, 1, b);
                let port = parse_port_in(&chars, b + 2, n);
                match (ip, port) {
                    (Some(ip), Some(port)) => Some((ip, port)),
                    _ => None,
                }
            } else {
                None
            }
        },
        None => match last_index_in(&chars, ':') {
            Some(c) => {
                assert(chars@.take(c as int) =~= chars@.subrange(0, c as int));
                assert(chars@.skip(c + 1) =~= chars@.subrange(c + 1, n as int));
                let ip = parse_ip_in(&chars, 0, c);
                let port = parse_port_in(&chars, c + 1, n);
                match (ip, port) {
                    (Some(ip), Some(port)) => Some((ip, port)),
                    _ => None,
                }
            },
            None => None,
        },
    }
}

// ---------------------------------------------------------------------------
// Relay records
// ---------------------------------------------------------------------------

/// The exit policy summary of a relay record.
#[derive(Clone, Debug, PartialEq, Eq)]
pub struct OnionooExitPolicy {
    pub accept: Option<Vec<String>>,
    pub reject: Option<Vec<String>>,
}

/// A relay record as Onionoo returns it; fields that a response leaves out
/// are `None` or empty.
#[derive(Clone, Debug, PartialEq, Eq)]
pub struct OnionooRelay {
    pub fingerprint: Option<String>,
    pub nickname: Option<String>,
    pub or_addresses: Vec<String>,
    pub flags: Vec<String>,
    pub observed_bandwidth: Option<u64>,
    pub country: Option<String>,
    pub first_seen: Option<String>,
    pub last_seen: Option<String>,
    pub exit_policy_summary: Option<OnionooExitPolicy>,
    pub dir_address: Option<String>,
}

pub open spec fn text_or_empty(s: Option<String>) -> Seq<char> {
    match s {
        Some(x) => x@,
        None => Seq::empty(),
    }
}

pub open spec fn bandwidth_or_zero(b: Option<u64>) -> u64 {
    match b {
        Some(x) => x,
        None => 0,
    }
}

/// The address and port of the first entry of `or_addresses`, if it reads.
pub open spec fn main_address(r: OnionooRelay) -> Option<(IpAddress, u16)> {
    if r.or_addresses.len() > 0 {
        spec_parse_or_address(r.or_addresses@[0]@)
    } else {
        None
    }
}

/// The port of `dir_address`, or 0 where it is missing or does not read.
pub open spec fn dir_port_of(r: OnionooRelay) -> u16 {
    match r.dir_address {
        Some(a) => match spec_parse_or_address(a@) {
            Some(p) => p.1,
            None => 0,
        },
        None => 0,
    }
}

/// The known flags among the names, in order; unknown names are skipped.
pub open spec fn known_flags(names: Seq<String>) -> Seq<RelayFlag> {
    names.filter_map(|n: String| spec_parse_flag(n@))
}

pub open spec fn missing_address_text(fingerprint: Seq<char>) -> Seq<char> {
    "no valid address for relay "@ + fingerprint
}

/// `info` is the relay information that the record `r` gives.
pub open spec fn is_relay_info_of(r: OnionooRelay, info: RelayInfo) -> bool {
    &&& main_address(r) matches Some((ip, port))
    &&& info.fingerprint@ == text_or_empty(r.fingerprint)
    &&& info.nickname@ == text_or_empty(r.nickname)
    &&& info.address == ip
    &&& info.or_port == port
    &&& info.dir_port == dir_port_of(r)
    &&& info.flags@ == known_flags(r.flags@)
    &&& info.bandwidth == bandwidth_or_zero(r.observed_bandwidth)
    &&& info.country == r.country
    &&& info.first_seen == seen_instant(opt_view(r.first_seen))
    &&& info.last_seen == seen_instant(opt_view(r.last_seen))
    &&& info.uptime_days == spec_uptime_days(info.first_seen, info.last_seen)
}

pub(crate) fn string_or_empty(s: &Option<String>) -> (r: String)
    ensures
        r@ == text_or_empty(*s),
{
    match s {
        Some(x) => x.clone(),
        None => String::new(),
    }
}

pub(crate) fn clone_opt_string(s: &Option<String>) -> (r: Option<String>)
    ensures
        r == *s,
{
    match s {
        Some(x) => Some(x.clone()),
        None => None,
    }
}

fn bandwidth_of(b: Option<u64>) -> (r: u64)
    ensures
        r == bandwidth_or_zero(b),
{
    match b {
        Some(x) => x,
        None => 0,
    }
}

/// Reads the known flags among `names`, in order.
pub fn known_flags_of(names: &Vec<String>) -> (flags: Vec<RelayFlag>)
    ensures
        flags@ == known_flags(names@),
{
    let mut flags: Vec<RelayFlag> = Vec::new();
    let mut i: usize = 0;
    while i < names.len()
        invariant
            i <= names.len(),
            flags@ == known_flags(names@.take(i as int)),
        decreases names.len() - i,
    {
        assert(names@.take(i + 1).drop_last() =~= names@.take(i as int));
        match parse_flag(names[i].as_str()) {
            Some(f) => {
                flags.push(f);
                assert(flags@ =~= known_flags(names@.take(i + 1)));
            },
            None => {},
        }
        i = i + 1;
    }
    assert(names@.take(names.len() as int) =~= names@);
    flags
}

fn main_address_of(r: &OnionooRelay) -> (a: Option<(IpAddress, u16)>)
    ensures
        a == main_address(*r),
{
    if r.or_addresses.len() > 0 {
        parse_or_address(r.or_addresses[0].as_str())
    } else {
        None
    }
}

fn dir_port(r: &OnionooRelay) -> (p: u16)
    ensures
        p == dir_port_of(*r),
{
    match &r.dir_address {
        Some(a) => match parse_or_address(a.as_str()) {
            Some((_, port)) => port,
            None => 0,
        },
        None => 0,
    }
}

/// The relay information of a record; an error where its first address
/// does not read.
pub fn onionoo_relay_to_info(relay: &OnionooRelay) -> (r: Result<RelayInfo, Error>)
    ensures
        r is Err <==> main_address(*relay) is None,
        r matches Ok(info) ==> is_relay_info_of(*relay, info),
        r matches Err(e) ==> e matches Error::Parse(m) && m@ == missing_address_text(
            text_or_empty(relay.fingerprint),
        ),
{
    let fingerprint = string_or_empty(&relay.fingerprint);
    let (address, or_port) = match main_address_of(relay) {
        Some(a) => a,
        None => {
            let mut m = String::from_str("no valid address for relay ");
            m.append(fingerprint.as_str());
            return Err(Error::Parse(m));
        },
    };
    let dir_port = dir_port(relay);
    let flags = known_flags_of(&relay.flags);
    let bandwidth = bandwidth_of(relay.observed_bandwidth);
    let first_seen = seen_time(&relay.first_seen);
    let last_seen = seen_time(&relay.last_seen);
    let uptime_days = uptime_days(first_seen, last_seen);
    Ok(
        RelayInfo {
            fingerprint,
            nickname: string_or_empty(&relay.nickname),
            address,
            or_port,
            dir_port,
            flags,
            bandwidth,
            country: clone_opt_string(&relay.country),
            first_seen,
            last_seen,
            uptime_days,
        },
    )
}

/// The exit policy summary as text: the accepted ports, else the rejected
/// ones, each list joined with `", "`; empty where there is neither.
pub open spec fn policy_text(p: Option<OnionooExitPolicy>) -> Seq<char> {
    match p {
        None => Seq::empty(),
        Some(p) => match p.accept {
            Some(a) => "accept "@ + join_with(string_views(a@), ", "@),
            None => match p.reject {
                Some(r) => "reject "@ + join_with(string_views(r@), ", "@),
                None => Seq::empty(),
            },
        },
    }
}

/// `node` is the exit node that the record `r` gives.
pub open spec fn is_exit_node_of(r: OnionooRelay, node: ExitNode) -> bool {
    &&& main_address(r) matches Some((ip, _))
    &&& node.fingerprint@ == text_or_empty(r.fingerprint)
    &&& node.nickname@ == text_or_empty(r.nickname)
    &&& node.address == ip
    &&& node.exit_policy_summary@ == policy_text(r.exit_policy_summary)
    &&& node.country == r.country
    &&& node.bandwidth == bandwidth_or_zero(r.observed_bandwidth)
}

fn policy_summary(p: &Option<OnionooExitPolicy>) -> (s: String)
    ensures
        s@ == policy_text(*p),
{
    match p {
        None => String::new(),
        Some(p) => match &p.accept {
            Some(a) => {
                let mut s = String::from_str("accept ");
                push_joined(&mut s, a, ", ");
                s
            },
            None => match &p.reject {
                Some(r) => {
                    let mut s = String::from_str("reject ");
                    push_joined(&mut s, r, ", ");
                    s
                },
                None => String::new(),
            },
        },
    }
}

/// The exit node of a record; an error where its first address does not read.
pub fn onionoo_relay_to_exit(relay: &OnionooRelay) -> (r: Result<ExitNode, Error>)
    ensures
        r is Err <==> main_address(*relay) is None,
        r matches Ok(node) ==> is_exit_node_of(*relay, node),
        r matches Err(e) ==> e matches Error::Parse(m) && m@ == missing_address_text(
            text_or_empty(relay.fingerprint),
        ),
{
    let fingerprint = string_or_empty(&relay.fingerprint);
    let address = match main_address_of(relay) {
        Some((ip, _)) => ip,
        None => {
            let mut m = String::from_str("no valid address for relay ");
            m.append(fingerprint.as_str());
            return Err(Error::Parse(m));
        },
    };
    Ok(
        ExitNode {
            fingerprint,
            nickname: string_or_empty(&relay.nickname),
            address,
            exit_policy_summary: policy_summary(&relay.exit_policy_summary),
            country: clone_opt_string(&relay.country),
            bandwidth: bandwidth_of(relay.observed_bandwidth),
        },
    )
}

// ---------------------------------------------------------------------------
// Network statistics
// ---------------------------------------------------------------------------

/// The sum of the observed bandwidths, a missing one counting as 0.
pub open spec fn total_observed(rs: Seq<OnionooRelay>) -> int
    decreases rs.len(),
{
    if rs.len() == 0 {
        0
    } else {
        total_observed(rs.drop_last()) + bandwidth_or_zero(rs.last().observed_bandwidth)
    }
}

/// The record lists a flag of exactly this name.
pub open spec fn lists_flag(r: OnionooRelay, name: Seq<char>) -> bool {
    exists|i: int| 0 <= i < r.flags.len() && (#[trigger] r.flags@[i])@ == name
}

/// How many records list a flag of this name.
pub open spec fn count_flagged(rs: Seq<OnionooRelay>, name: Seq<char>) -> nat
    decreases rs.len(),
{
    if rs.len() == 0 {
        0
    } else {
        count_flagged(rs.drop_last(), name) + if lists_flag(rs.last(), name) {
            1nat
        } else {
            0nat
        }
    }
}

pub open spec fn in_country(r: OnionooRelay, c: Seq<char>) -> bool {
    r.country matches Some(x) && x@ == c
}

/// How many records name this country.
pub open spec fn count_in_country(rs: Seq<OnionooRelay>, c: Seq<char>) -> nat
    decreases rs.len(),
{
    if rs.len() == 0 {
        0
    } else {
        count_in_country(rs.drop_last(), c) + if in_country(rs.last(), c) {
            1nat
        } else {
            0nat
        }
    }
}

/// The statistics of the records fit their integer fields.
pub open spec fn stats_fit(rs: Seq<OnionooRelay>) -> bool {
    &&& total_observed(rs) <= u64::MAX
    &&& count_flagged(rs, "Exit"@) <= u32::MAX
    &&& count_flagged(rs, "Guard"@) <= u32::MAX
    &&& forall|c: Seq<char>| #[trigger] count_in_country(rs, c) <= u32::MAX
}

pub open spec fn country_views(d: Seq<CountryCount>) -> Seq<Seq<char>> {
    d.map_values(|e: CountryCount| e.country@)
}

/// `d` counts the relays of every country that the records name, once each.
pub open spec fn is_distribution_of(d: Seq<CountryCount>, rs: Seq<OnionooRelay>) -> bool {
    &&& country_views(d).no_duplicates()
    &&& forall|i: int|
        0 <= i < d.len() ==> (#[trigger] d[i]).relays == count_in_country(rs, d[i].country@)
            && d[i].relays > 0
    &&& forall|c: Seq<char>|
        #[trigger] count_in_country(rs, c) > 0 ==> exists|i: int|
            0 <= i < d.len() && (#[trigger] d[i]).country@ == c
}

/// `st` holds the statistics of the records `rs`.
pub open spec fn is_stats_of(st: NetworkStats, rs: Seq<OnionooRelay>) -> bool {
    &&& st.total_relays == if rs.len() <= u32::MAX {
        rs.len() as u32
    } else {
        u32::MAX
    }
    &&& st.exit_relays == count_flagged(rs, "Exit"@)
    &&& st.guard_relays == count_flagged(rs, "Guard"@)
    &&& st.total_bandwidth == total_observed(rs)
    &&& is_distribution_of(st.country_distribution@, rs)
}

proof fn lemma_counts_grow(rs: Seq<OnionooRelay>, k: int, c: Seq<char>)
    requires
        0 <= k <= rs.len(),
    ensures
        total_observed(rs.take(k)) <= total_observed(rs),
        count_flagged(rs.take(k), "Exit"@) <= count_flagged(rs, "Exit"@),
        count_flagged(rs.take(k), "Guard"@) <= count_flagged(rs, "Guard"@),
        count_in_country(rs.take(k), c) <= count_in_country(rs, c),
    decreases rs.len() - k,
{
    if k < rs.len() {
        lemma_counts_grow(rs, k + 1, c);
        assert(rs.take(k + 1).drop_last() =~= rs.take(k));
    } else {
        assert(rs.take(k) =~= rs);
    }
}

fn lists_flag_exec(r: &OnionooRelay, name: &str) -> (b: bool)
    ensures
        b == lists_flag(*r, name@),
{
    let mut i: usize = 0;
    while i < r.flags.len()
        invariant
            i <= r.flags.len(),
            forall|j: int| 0 <= j < i ==> (#[trigger] r.flags@[j])@ != name@,
        decreases r.flags.len() - i,
    {
        if str_eq(r.flags[i].as_str(), name) {
            return true;
        }
        i = i + 1;
    }
    false
}

/// Adds one relay of `country` to the distribution `d` of `rs.take(k)`,
/// giving that of `rs.take(k + 1)`; `false` where its count would overflow.
#[verifier::loop_isolation(false)]
fn count_country(d: &mut Vec<CountryCount>, country: &String, Ghost(rs): Ghost<Seq<OnionooRelay>>, Ghost(k): Ghost<int>) -> (ok: bool)
    requires
        0 <= k < rs.len(),
        rs[k].country == Some(*country),
        is_distribution_of(old(d)@, rs.take(k)),
    ensures
        ok ==> is_distribution_of(final(d)@, rs.take(k + 1)),
        !ok ==> count_in_country(rs.take(k + 1), country@) > u32::MAX,
{
    let ghost before = rs.take(k);
    let ghost after = rs.take(k + 1);
    assert(after.drop_last() =~= before);
    assert(after.last() == rs[k]);
    assert forall|c: Seq<char>| #[trigger] count_in_country(after, c) == count_in_country(before, c) + if c
        == country@ {
        1int
    } else {
        0int
    } by {}
    let mut j: usize = 0;
    while j < d.len()
        invariant
            d@ == old(d)@,
            j <= d.len(),
            forall|i: int| 0 <= i < j ==> (#[trigger] d@[i]).country@ != country@,
        decreases d.len() - j,
    {
        if d[j].country == *country {
            let n = d[j].relays;
            if n == u32::MAX {
                assert(old(d)@[j as int].relays == count_in_country(before, country@));
                return false;
            }
            let entry = CountryCount { country: country.clone(), relays: n + 1 };
            d.set(j, entry);
            assert(country_views(d@) =~= country_views(old(d)@));
            assert forall|i: int| 0 <= i < d@.len() implies (#[trigger] d@[i]).relays == count_in_country(
                after,
                d@[i].country@,
            ) && d@[i].relays > 0 by {
                if i != j {
                    assert(d@[i] == old(d)@[i]);
                    assert(country_views(old(d)@)[i] == old(d)@[i].country@);
                    assert(country_views(old(d)@)[j as int] == old(d)@[j as int].country@);
                    assert(old(d)@[i].country@ != country@);
                    assert(old(d)@[i].relays == count_in_country(before, old(d)@[i].country@));
                } else {
                    assert(old(d)@[i].relays == count_in_country(before, country@));
                }
            }
            assert forall|c: Seq<char>| #[trigger] count_in_country(after, c) > 0 implies exists|i: int|
                0 <= i < d@.len() && (#[trigger] d@[i]).country@ == c by {
                if c == country@ {
                    assert(d@[j as int].country@ == c);
                } else {
                    assert(count_in_country(before, c) > 0);
                    let i = choose|i: int| 0 <= i < old(d)@.len() && (#[trigger] old(d)@[i]).country@ == c;
                    assert(d@[i].country@ == c);
                }
            }
            return true;
        }
        j = j + 1;
    }
    assert(count_in_country(before, country@) == 0) by {
        if count_in_country(before, country@) > 0 {
            let i = choose|i: int| 0 <= i < old(d)@.len() && (#[trigger] old(d)@[i]).country@ == country@;
            assert(d@[i] == old(d)@[i]);
            assert(d@[i].country@ != country@);
        }
    }
    d.push(CountryCount { country: country.clone(), relays: 1 });
    assert(country_views(d@) =~= country_views(old(d)@).push(country@));
    assert(country_views(d@).no_duplicates()) by {
        assert forall|a: int, b: int|
            0 <= a < country_views(d@).len() && 0 <= b < country_views(d@).len() && a != b implies country_views(
            d@,
        )[a] != country_views(d@)[b] by {
            if a < old(d)@.len() && b < old(d)@.len() {
                assert(country_views(old(d)@)[a] == country_views(d@)[a]);
                assert(country_views(old(d)@)[b] == country_views(d@)[b]);
            } else if a < old(d)@.len() {
                assert(old(d)@[a] == d@[a]);
            } else if b < old(d)@.len() {
                assert(old(d)@[b] == d@[b]);
            }
        }
    }
    assert forall|i: int| 0 <= i < d@.len() implies (#[trigger] d@[i]).relays == count_in_country(
        after,
        d@[i].country@,
    ) && d@[i].relays > 0 by {
        if i < old(d)@.len() {
            assert(old(d)@[i] == d@[i]);
        }
    }
    assert forall|c: Seq<char>| #[trigger] count_in_country(after, c) > 0 implies exists|i: int|
        0 <= i < d@.len() && (#[trigger] d@[i]).country@ == c by {
        if c == country@ {
            assert(d@[d@.len() - 1].country@ == c);
        } else {
            assert(count_in_country(before, c) > 0);
            let i = choose|i: int| 0 <= i < old(d)@.len() && (#[trigger] old(d)@[i]).country@ == c;
            assert(d@[i].country@ == c);
        }
    }
    true
}

/// The aggregate statistics of the records: how many there are (at most
/// `u32::MAX`), how many list the `Exit` and the `Guard` flag, the sum of
/// their bandwidths, and how many each country hosts. `None` exactly where
/// a sum or count would overflow its field.
pub fn network_stats_from(relays: &Vec<OnionooRelay>) -> (r: Option<NetworkStats>)
    ensures
        r is None <==> !stats_fit(relays@),
        r matches Some(st) ==> is_stats_of(st, relays@),
{
    let ghost rs = relays@;
    let mut total_bandwidth: u64 = 0;
    let mut exit_relays: u32 = 0;
    let mut guard_relays: u32 = 0;
    let mut dist: Vec<CountryCount> = Vec::new();
    let mut i: usize = 0;
    assert(rs.take(0) =~= Seq::<OnionooRelay>::empty());
    while i < relays.len()
        invariant
            rs == relays@,
            i <= relays.len(),
            total_bandwidth == total_observed(rs.take(i as int)),
            exit_relays == count_flagged(rs.take(i as int), "Exit"@),
            guard_relays == count_flagged(rs.take(i as int), "Guard"@),
            is_distribution_of(dist@, rs.take(i as int)),
        decreases relays.len() - i,
    {
        let relay = &relays[i];
        let ghost next = rs.take(i + 1);
        assert(next.drop_last() =~= rs.take(i as int));
        assert(next.last() == rs[i as int]);
        let b = bandwidth_of(relay.observed_bandwidth);
        match total_bandwidth.checked_add(b) {
            Some(t) => {
                total_bandwidth = t;
            },
            None => {
                proof {
                    lemma_counts_grow(rs, i + 1, Seq::empty());
                }
                return None;
            },
        }
        if lists_flag_exec(relay, "Exit") {
            if exit_relays == u32::MAX {
                proof {
                    lemma_counts_grow(rs, i + 1, Seq::empty());
                }
                return None;
            }
            exit_relays = exit_relays + 1;
        }
        if lists_flag_exec(relay, "Guard") {
            if guard_relays == u32::MAX {
                proof {
                    lemma_counts_grow(rs, i + 1, Seq::empty());
                }
                return None;
            }
            guard_relays = guard_relays + 1;
        }
        match &relay.country {
            Some(c) => {
                if !count_country(&mut dist, c, Ghost(rs), Ghost(i as int)) {
                    proof {
                        lemma_counts_grow(rs, i + 1, c@);
                    }
                    return None;
                }
            },
            None => {
                assert forall|c: Seq<char>| #[trigger] count_in_country(next, c) == count_in_country(
                    rs.take(i as int),
                    c,
                ) by {}
            },
        }
        i = i + 1;
    }
    assert(rs.take(i as int) =~= rs);
    let total_relays: u32 = if relays.len() > 4294967295 {
        4294967295
    } else {
        relays.len() as u32
    };
    Some(
        NetworkStats {
            total_relays,
            exit_relays,
            guard_relays,
            total_bandwidth,
            country_distribution: dist,
        },
    )
}

/// The relays that the entries of a distribution count, all together.
pub open spec fn distribution_total(d: Seq<CountryCount>) -> nat
    decreases d.len(),
{
    if d.len() == 0 {
        0
    } else {
        distribution_total(d.drop_last()) + d.last().relays as nat
    }
}

/// How many records name a country.
pub open spec fn count_with_country(rs: Seq<OnionooRelay>) -> nat
    decreases rs.len(),
{
    if rs.len() == 0 {
        0
    } else {
        count_with_country(rs.drop_last()) + if rs.last().country is Some {
            1nat
        } else {
            0nat
        }
    }
}

/// The counts of the records in each of the countries `v`, added up.
pub open spec fn country_sum(v: Seq<Seq<char>>, rs: Seq<OnionooRelay>) -> nat
    decreases v.len(),
{
    if v.len() == 0 {
        0
    } else {
        country_sum(v.drop_last(), rs) + count_in_country(rs, v.last())
    }
}

/// How many of the countries `v` the record names.
pub open spec fn matches_in(v: Seq<Seq<char>>, r: OnionooRelay) -> nat
    decreases v.len(),
{
    if v.len() == 0 {
        0
    } else {
        matches_in(v.drop_last(), r) + if in_country(r, v.last()) {
            1nat
        } else {
            0nat
        }
    }
}

proof fn lemma_counts_bounded(rs: Seq<OnionooRelay>, name: Seq<char>, c: Seq<char>)
    ensures
        count_flagged(rs, name) <= rs.len(),
        count_in_country(rs, c) <= count_with_country(rs),
        count_with_country(rs) <= rs.len(),
    decreases rs.len(),
{
    if rs.len() > 0 {
        lemma_counts_bounded(rs.drop_last(), name, c);
    }
}

proof fn lemma_total_is_country_sum(d: Seq<CountryCount>, rs: Seq<OnionooRelay>)
    requires
        forall|i: int| 0 <= i < d.len() ==> (#[trigger] d[i]).relays == count_in_country(rs, d[i].country@),
    ensures
        distribution_total(d) == country_sum(country_views(d), rs),
    decreases d.len(),
{
    if d.len() > 0 {
        let front = d.drop_last();
        assert forall|i: int| 0 <= i < front.len() implies (#[trigger] front[i]).relays == count_in_country(
            rs,
            front[i].country@,
        ) by {
            assert(front[i] == d[i]);
        }
        lemma_total_is_country_sum(front, rs);
        assert(country_views(d).drop_last() =~= country_views(front));
        assert(d[d.len() - 1].relays == count_in_country(rs, d[d.len() - 1].country@));
    }
}

proof fn lemma_country_sum_empty(v: Seq<Seq<char>>, rs: Seq<OnionooRelay>)
    requires
        rs.len() == 0,
    ensures
        country_sum(v, rs) == 0,
    decreases v.len(),
{
    if v.len() > 0 {
        lemma_country_sum_empty(v.drop_last(), rs);
    }
}

proof fn lemma_country_sum_step(v: Seq<Seq<char>>, rs: Seq<OnionooRelay>)
    requires
        rs.len() > 0,
    ensures
        country_sum(v, rs) == country_sum(v, rs.drop_last()) + matches_in(v, rs.last()),
    decreases v.len(),
{
    if v.len() > 0 {
        lemma_country_sum_step(v.drop_last(), rs);
    }
}

proof fn lemma_matches_in_unique(v: Seq<Seq<char>>, r: OnionooRelay)
    requires
        v.no_duplicates(),
    ensures
        (r.country matches Some(x) && v.contains(x@)) ==> matches_in(v, r) == 1,
        !(r.country matches Some(x) && v.contains(x@)) ==> matches_in(v, r) == 0,
    decreases v.len(),
{
    if v.len() > 0 {
        let front = v.drop_last();
        assert(front.no_duplicates()) by {
            assert forall|i: int, j: int| 0 <= i < front.len() && 0 <= j < front.len() && i != j implies front[i]
                != front[j] by {
                assert(front[i] == v[i] && front[j] == v[j]);
            }
        }
        lemma_matches_in_unique(front, r);
        match r.country {
            Some(x) => {
                if v.last() == x@ {
                    assert(!front.contains(x@)) by {
                        if front.contains(x@) {
                            let i = choose|i: int| 0 <= i < front.len() && front[i] == x@;
                            assert(v[i] == v[v.len() - 1]);
                        }
                    }
                    assert(v.contains(x@)) by {
                        assert(v[v.len() - 1] == x@);
                    }
                } else {
                    assert(v.contains(x@) == front.contains(x@)) by {
                        if v.contains(x@) {
                            let i = choose|i: int| 0 <= i < v.len() && v[i] == x@;
                            assert(i < front.len());
                            assert(front[i] == x@);
                        }
                        if front.contains(x@) {
                            let i = choose|i: int| 0 <= i < front.len() && front[i] == x@;
                            assert(v[i] == x@);
                        }
                    }
                }
            },
            None => {},
        }
    }
}

proof fn lemma_country_sum_counts(v: Seq<Seq<char>>, rs: Seq<OnionooRelay>)
    requires
        v.no_duplicates(),
        forall|c: Seq<char>| #[trigger] count_in_country(rs, c) > 0 ==> v.contains(c),
    ensures
        country_sum(v, rs) == count_with_country(rs),
    decreases rs.len(),
{
    if rs.len() == 0 {
        lemma_country_sum_empty(v, rs);
    } else {
        let front = rs.drop_last();
        assert forall|c: Seq<char>| #[trigger] count_in_country(front, c) > 0 implies v.contains(c) by {
            assert(count_in_country(rs, c) >= count_in_country(front, c));
        }
        lemma_country_sum_counts(v, front);
        lemma_country_sum_step(v, rs);
        lemma_matches_in_unique(v, rs.last());
        match rs.last().country {
            Some(x) => {
                assert(count_in_country(rs, x@) > 0);
            },
            None => {},
        }
    }
}

/// Network statistics agree with themselves: no more exit or guard relays
/// than relays, no country with more relays than the network, and the
/// countries' counts add up to the relays that name a country.
pub proof fn law_stats_consistent(st: NetworkStats, rs: Seq<OnionooRelay>)
    requires
        is_stats_of(st, rs),
    ensures
        st.exit_relays <= st.total_relays,
        st.guard_relays <= st.total_relays,
        forall|i: int|
            0 <= i < st.country_distribution@.len() ==> (#[trigger] st.country_distribution@[i]).relays
                <= st.total_relays,
        distribution_total(st.country_distribution@) == count_with_country(rs),
        count_with_country(rs) <= rs.len(),
{
    let d = st.country_distribution@;
    lemma_counts_bounded(rs, "Exit"@, Seq::empty());
    lemma_counts_bounded(rs, "Guard"@, Seq::empty());
    assert forall|i: int| 0 <= i < d.len() implies (#[trigger] d[i]).relays <= st.total_relays by {
        lemma_counts_bounded(rs, "Exit"@, d[i].country@);
    }
    lemma_total_is_country_sum(d, rs);
    assert forall|c: Seq<char>| #[trigger] count_in_country(rs, c) > 0 implies country_views(d).contains(c) by {
        let i = choose|i: int| 0 <= i < d.len() && (#[trigger] d[i]).country@ == c;
        assert(country_views(d)[i] == c);
    }
    lemma_country_sum_counts(country_views(d), rs);
}

/// The entries `r` are the entries `d[idx[i]]`, taken at distinct indices.
pub open spec fn picks(r: Seq<CountryCount>, d: Seq<CountryCount>, idx: Seq<int>) -> bool {
    &&& idx.len() == r.len()
    &&& forall|i: int| 0 <= i < idx.len() ==> 0 <= #[trigger] idx[i] < d.len()
    &&& forall|i: int, j: int| 0 <= i < j < idx.len() ==> idx[i] != idx[j]
    &&& forall|i: int|
        0 <= i < r.len() ==> (#[trigger] r[i]).country@ == d[idx[i]].country@ && r[i].relays
            == d[idx[i]].relays
}

/// `r` lists the `r.len()` countries of `d` that host the most relays, most
/// first; among equal counts the order is unspecified.
pub open spec fn is_top_of(r: Seq<CountryCount>, d: Seq<CountryCount>) -> bool {
    exists|idx: Seq<int>|
        {
            &&& #[trigger] picks(r, d, idx)
            &&& forall|i: int, j: int| 0 <= i < j < r.len() ==> r[i].relays >= r[j].relays
            &&& forall|k: int, i: int|
                0 <= k < d.len() && 0 <= i < r.len() && !idx.contains(k) ==> d[k].relays
                    <= r[i].relays
        }
}

/// The `n` countries that host the most relays (all of them where there are
/// fewer), most first.
pub fn top_countries(dist: &Vec<CountryCount>, n: usize) -> (r: Vec<CountryCount>)
    ensures
        r.len() == if n < dist.len() {
            n as int
        } else {
            dist.len() as int
        },
        is_top_of(r@, dist@),
{
    let m: usize = if n < dist.len() {
        n
    } else {
        dist.len()
    };
    let mut used: Vec<bool> = Vec::new();
    let mut k: usize = 0;
    while k < dist.len()
        invariant
            k <= dist.len(),
            used.len() == k,
            forall|j: int| 0 <= j < k ==> !used@[j],
        decreases dist.len() - k,
    {
        used.push(false);
        k = k + 1;
    }
    let mut r: Vec<CountryCount> = Vec::new();
    let ghost mut idx: Seq<int> = Seq::empty();
    while r.len() < m
        invariant
            m <= dist.len(),
            used.len() == dist.len(),
            r.len() <= m,
            picks(r@, dist@, idx),
            forall|j: int| 0 <= j < dist.len() ==> (used@[j] <==> idx.contains(j)),
            forall|i: int, j: int| 0 <= i < j < r.len() ==> r@[i].relays >= r@[j].relays,
            forall|q: int, i: int|
                0 <= q < dist.len() && 0 <= i < r.len() && !idx.contains(q) ==> dist@[q].relays
                    <= r@[i].relays,
        decreases m - r.len(),
    {
        // There is an unused entry, as fewer than dist.len() are used.
        proof {
            lemma_unused_exists(idx, dist@.len() as int);
        }
        let mut best: usize = dist.len();
        let mut j: usize = 0;
        while j < dist.len()
            invariant
                used.len() == dist.len(),
                j <= dist.len(),
                best == dist.len() || (best < j && !used@[best as int]),
                best == dist.len() ==> forall|q: int| 0 <= q < j ==> used@[q],
                best < dist.len() ==> forall|q: int|
                    0 <= q < j && !used@[q] ==> dist@[q].relays <= dist@[best as int].relays,
            decreases dist.len() - j,
        {
            if !used[j] && (best == dist.len() || dist[j].relays > dist[best].relays) {
                best = j;
            }
            j = j + 1;
        }
        assert(best < dist.len()) by {
            if best == dist.len() {
                let q = choose|q: int| 0 <= q < dist@.len() && !idx.contains(q);
                assert(used@[q]);
            }
        }
        let entry = CountryCount { country: dist[best].country.clone(), relays: dist[best].relays };
        let ghost old_r = r@;
        let ghost old_idx = idx;
        r.push(entry);
        used.set(best, true);
        proof {
            idx = idx.push(best as int);
            assert forall|i: int, j: int| 0 <= i < j < idx.len() implies idx[i] != idx[j] by {
                if j == idx.len() - 1 {
                    assert(!old_idx.contains(best as int));
                    assert(old_idx[i] == idx[i]);
                }
            }
            assert forall|q: int| 0 <= q < dist.len() implies (used@[q] <==> idx.contains(q)) by {
                if q != best {
                    if idx.contains(q) {
                        let w = choose|w: int| 0 <= w < idx.len() && idx[w] == q;
                        assert(old_idx[w] == q);
                    }
                    if old_idx.contains(q) {
                        let w = choose|w: int| 0 <= w < old_idx.len() && old_idx[w] == q;
                        assert(idx[w] == q);
                    }
                } else {
                    assert(idx[idx.len() - 1] == q);
                }
            }
            assert forall|i: int, j: int| 0 <= i < j < r.len() implies r@[i].relays >= r@[j].relays by {
                if j == r.len() - 1 && i < j {
                    assert(!old_idx.contains(best as int));
                    assert(r@[i] == old_r[i]);
                }
            }
            assert forall|q: int, i: int|
                0 <= q < dist.len() && 0 <= i < r.len() && !idx.contains(q) implies dist@[q].relays
                <= r@[i].relays by {
                assert(!old_idx.contains(q)) by {
                    if old_idx.contains(q) {
                        let w = choose|w: int| 0 <= w < old_idx.len() && old_idx[w] == q;
                        assert(idx[w] == q);
                    }
                }
                if i < r.len() - 1 {
                    assert(r@[i] == old_r[i]);
                } else {
                    assert(q != best);
                    assert(!used@[q]);
                }
            }
            assert(picks(r@, dist@, idx));
        }
    }
    assert(picks(r@, dist@, idx));
    r
}

proof fn lemma_unused_exists(idx: Seq<int>, n: int)
    requires
        idx.len() < n,
        forall|i: int| 0 <= i < idx.len() ==> 0 <= #[trigger] idx[i] < n,
        forall|i: int, j: int| 0 <= i < j < idx.len() ==> idx[i] != idx[j],
    ensures
        exists|q: int| 0 <= q < n && !idx.contains(q),
{
    if forall|q: int| 0 <= q < n ==> idx.contains(q) {
        let s = Set::new(|q: int| 0 <= q < n);
        assert(s =~= vstd::set_lib::set_int_range(0, n));
        vstd::set_lib::lemma_int_range(0, n);
        assert(s.subset_of(idx.to_set()));
        idx.unique_seq_to_set();
        vstd::set_lib::lemma_len_subset(s, idx.to_set());
    }
}

// ---------------------------------------------------------------------------
// The client
// ---------------------------------------------------------------------------

/// Where the public Onionoo service answers.
pub open spec fn default_onionoo_url() -> Seq<char> {
    "https://onionoo.torproject.org"@
}

/// `str::trim_end_matches(c)`: `s` without the copies of `c` at its end.
pub open spec fn trim_trailing(s: Seq<char>, c: char) -> Seq<char>
    decreases s.len(),
{
    if s.len() > 0 && s.last() == c {
        trim_trailing(s.drop_last(), c)
    } else {
        s
    }
}

/// A client of the Onionoo metrics API, known by its base URL.
pub struct OnionooClient {
    base_url: String,
}

impl View for OnionooClient {
    type V = Seq<char>;

    /// The base URL, without trailing slashes.
    closed spec fn view(&self) -> Seq<char> {
        self.base_url@
    }
}

/// `base_url` without its trailing slashes.
pub(crate) fn base_url_without_slashes(base_url: &str) -> (s: String)
    ensures
        s@ == trim_trailing(base_url@, '/'),
{
    let chars = chars_of(base_url);
    let mut end: usize = chars.len();
    assert(chars@.subrange(0, end as int) =~= base_url@);
    while end > 0 && chars[end - 1] == '/'
        invariant
            end <= chars.len(),
            trim_trailing(base_url@, '/') == trim_trailing(chars@.subrange(0, end as int), '/'),
        decreases end,
    {
        assert(chars@.subrange(0, end as int).drop_last() =~= chars@.subrange(0, end - 1));
        end = end - 1;
    }
    crate::text::string_of_range(&chars, 0, end)
}

/// `base` followed by `path` and `arg`.
fn url_with(base: &String, path: &str, arg: &str) -> (u: String)
    ensures
        u@ == base@ + path@ + arg@,
{
    let mut u = base.clone();
    u.append(path);
    u.append(arg);
    u
}

/// `base` followed by `path`.
fn url_of(base: &String, path: &str) -> (u: String)
    ensures
        u@ == base@ + path@,
{
    let mut u = base.clone();
    u.append(path);
    u
}

impl OnionooClient {
    /// A client of the public Onionoo service.
    pub fn new() -> (c: Self)
        ensures
            c@ == default_onionoo_url(),
    {
        proof {
            reveal_strlit("https://onionoo.torproject.org");
        }
        Self::with_base_url("https://onionoo.torproject.org")
    }

    /// A client of the service at `base_url`; trailing slashes are dropped.
    pub fn with_base_url(base_url: &str) -> (c: Self)
        ensures
            c@ == trim_trailing(base_url@, '/'),
    {
        OnionooClient { base_url: base_url_without_slashes(base_url) }
    }

    /// The base URL in use.
    pub fn base_url(&self) -> (s: &str)
        ensures
            s@ == self@,
    {
        self.base_url.as_str()
    }

    /// The request for the details of the relay with this fingerprint.
    pub fn relay_details_url(&self, fingerprint: &str) -> (u: String)
        ensures
            u@ == self@ + "/details?lookup="@ + fingerprint@,
    {
        url_with(&self.base_url, "/details?lookup=", fingerprint)
    }

    /// The request for the relays that match a search query.
    pub fn relay_search_url(&self, query: &str) -> (u: String)
        ensures
            u@ == self@ + "/details?search="@ + query@,
    {
        url_with(&self.base_url, "/details?search=", query)
    }

    /// The request for the bandwidth history of the relay with this fingerprint.
    pub fn bandwidth_url(&self, fingerprint: &str) -> (u: String)
        ensures
            u@ == self@ + "/bandwidth?lookup="@ + fingerprint@,
    {
        url_with(&self.base_url, "/bandwidth?lookup=", fingerprint)
    }

    /// The request for the fields that network statistics need.
    pub fn network_stats_url(&self) -> (u: String)
        ensures
            u@ == self@ + "/details?type=relay&fields=fingerprint,flags,observed_bandwidth,country"@,
    {
        url_of(&self.base_url, "/details?type=relay&fields=fingerprint,flags,observed_bandwidth,country")
    }

    /// The request for the relays that carry the `Exit` flag.
    pub fn exit_nodes_url(&self) -> (u: String)
        ensures
            u@ == self@
                + "/details?type=relay&flag=Exit&fields=fingerprint,nickname,or_addresses,exit_policy_summary,country,observed_bandwidth"@,
    {
        url_of(
            &self.base_url,
            "/details?type=relay&flag=Exit&fields=fingerprint,nickname,or_addresses,exit_policy_summary,country,observed_bandwidth",
        )
    }
}

/// A base URL has no trailing slash once trimmed; trimming again changes
/// nothing, and what was dropped were slashes at the end of the text.
pub proof fn law_base_url_trimmed(s: Seq<char>)
    ensures
        trim_trailing(s, '/').len() == 0 || trim_trailing(s, '/').last() != '/',
        trim_trailing(trim_trailing(s, '/'), '/') == trim_trailing(s, '/'),
        trim_trailing(s, '/').len() <= s.len(),
        s.take(trim_trailing(s, '/').len() as int) == trim_trailing(s, '/'),
        forall|i: int| trim_trailing(s, '/').len() <= i < s.len() ==> s[i] == '/',
    decreases s.len(),
{
    if s.len() > 0 && s.last() == '/' {
        law_base_url_trimmed(s.drop_last());
        let t = trim_trailing(s, '/');
        assert(s.take(t.len() as int) =~= s.drop_last().take(t.len() as int));
        assert forall|i: int| t.len() <= i < s.len() implies s[i] == '/' by {
            if i < s.len() - 1 {
                assert(s[i] == s.drop_last()[i]);
            }
        }
    } else {
        assert(s.take(s.len() as int) =~= s);
    }
}

impl Default for OnionooClient {
    fn default() -> (c: Self)
        ensures
            c@ == default_onionoo_url(),
    {
        Self::new()
    }
}

// ---------------------------------------------------------------------------
// Responses
// ---------------------------------------------------------------------------

/// The first item of a response, or `RelayNotFound` with the fingerprint
/// that was looked up where the response holds none.
pub fn first_or_not_found<T>(items: Vec<T>, fingerprint: &str) -> (r: Result<T, Error>)
    ensures
        items.len() > 0 ==> r == Ok::<T, Error>(items@[0]),
        items.len() == 0 ==> (r matches Err(Error::RelayNotFound(m)) && m@ == fingerprint@),
{
    let mut items = items;
    if items.len() == 0 {
        Err(Error::RelayNotFound(fingerprint.to_owned()))
    } else {
        Ok(items.remove(0))
    }
}

/// The details of a looked-up relay: those of the first record, or
/// `RelayNotFound` where the response holds none.
pub fn relay_details_from(relays: Vec<OnionooRelay>, fingerprint: &str) -> (r: Result<RelayInfo, Error>)
    ensures
        relays.len() == 0 ==> (r matches Err(Error::RelayNotFound(m)) && m@ == fingerprint@),
        relays.len() > 0 ==> {
            &&& r is Err <==> main_address(relays@[0]) is None
            &&& r matches Ok(info) ==> is_relay_info_of(relays@[0], info)
            &&& r matches Err(e) ==> e matches Error::Parse(m) && m@ == missing_address_text(
                text_or_empty(relays@[0].fingerprint),
            )
        },
{
    match first_or_not_found(relays, fingerprint) {
        Ok(relay) => onionoo_relay_to_info(&relay),
        Err(e) => Err(e),
    }
}

/// The details of every record of a search, in order; the error of the
/// first record whose address does not read, if one does not.
pub fn relay_search_from(relays: &Vec<OnionooRelay>) -> (r: Result<Vec<RelayInfo>, Error>)
    ensures
        r is Ok <==> forall|i: int| 0 <= i < relays.len() ==> main_address(#[trigger] relays@[i]) is Some,
        r matches Ok(infos) ==> infos.len() == relays.len() && forall|i: int|
            0 <= i < relays.len() ==> is_relay_info_of(relays@[i], #[trigger] infos@[i]),
        r matches Err(e) ==> exists|k: int|
            0 <= k < relays.len() && main_address(#[trigger] relays@[k]) is None && (forall|j: int|
                0 <= j < k ==> main_address(#[trigger] relays@[j]) is Some) && (e matches Error::Parse(
                m,
            ) && m@ == missing_address_text(text_or_empty(relays@[k].fingerprint))),
{
    let mut infos: Vec<RelayInfo> = Vec::new();
    let mut i: usize = 0;
    while i < relays.len()
        invariant
            i <= relays.len(),
            infos.len() == i,
            forall|j: int| 0 <= j < i ==> main_address(#[trigger] relays@[j]) is Some,
            forall|j: int| 0 <= j < i ==> is_relay_info_of(relays@[j], #[trigger] infos@[j]),
        decreases relays.len() - i,
    {
        match onionoo_relay_to_info(&relays[i]) {
            Ok(info) => {
                infos.push(info);
            },
            Err(e) => {
                assert(main_address(relays@[i as int]) is None);
                return Err(e);
            },
        }
        i = i + 1;
    }
    Ok(infos)
}

/// The records whose first address reads, in order.
pub open spec fn with_main_address(rs: Seq<OnionooRelay>) -> Seq<OnionooRelay>
    decreases rs.len(),
{
    if rs.len() == 0 {
        Seq::empty()
    } else if main_address(rs.last()) is Some {
        with_main_address(rs.drop_last()).push(rs.last())
    } else {
        with_main_address(rs.drop_last())
    }
}

/// The exit nodes of the records whose first address reads, in order; the
/// others are skipped.
pub fn exit_nodes_from(relays: &Vec<OnionooRelay>) -> (nodes: Vec<ExitNode>)
    ensures
        nodes.len() == with_main_address(relays@).len(),
        forall|i: int|
            0 <= i < nodes.len() ==> is_exit_node_of(with_main_address(relays@)[i], #[trigger] nodes@[i]),
{
    let ghost rs = relays@;
    let mut nodes: Vec<ExitNode> = Vec::new();
    let mut i: usize = 0;
    while i < relays.len()
        invariant
            rs == relays@,
            i <= relays.len(),
            nodes.len() == with_main_address(rs.take(i as int)).len(),
            forall|j: int|
                0 <= j < nodes.len() ==> is_exit_node_of(
                    with_main_address(rs.take(i as int))[j],
                    #[trigger] nodes@[j],
                ),
        decreases relays.len() - i,
    {
        assert(rs.take(i + 1).drop_last() =~= rs.take(i as int));
        assert(rs.take(i + 1).last() == rs[i as int]);
        match onionoo_relay_to_exit(&relays[i]) {
            Ok(node) => {
                nodes.push(node);
            },
            Err(_) => {},
        }
        i = i + 1;
    }
    assert(rs.take(i as int) =~= rs);
    nodes
}


/// A record counts toward a flag's count exactly when some entry of its
/// flag list, at any position, has that name: no record counts among none,
/// and adding a record adds one exactly where one of its flags is named so.
pub proof fn law_flag_counts(rs: Seq<OnionooRelay>, r: OnionooRelay, name: Seq<char>)
    ensures
        count_flagged(Seq::empty(), name) == 0,
        count_flagged(rs.push(r), name) == count_flagged(rs, name) + if exists|i: int|
            0 <= i < r.flags.len() && (#[trigger] r.flags@[i])@ == name {
            1int
        } else {
            0int
        },
{
    assert(rs.push(r).drop_last() =~= rs);
}

/// The statistics of a single record count it as an exit (a guard) relay
/// exactly where one of its flags, at any position, is `Exit` (`Guard`).
pub proof fn law_single_record_flags(st: NetworkStats, r: OnionooRelay)
    requires
        is_stats_of(st, seq![r]),
    ensures
        st.total_relays == 1,
        st.exit_relays == 1 <==> exists|i: int| 0 <= i < r.flags.len() && (#[trigger] r.flags@[i])@ == "Exit"@,
        st.exit_relays <= 1,
        st.guard_relays == 1 <==> exists|i: int| 0 <= i < r.flags.len() && (#[trigger] r.flags@[i])@ == "Guard"@,
        st.guard_relays <= 1,
{
    law_flag_counts(Seq::empty(), r, "Exit"@);
    law_flag_counts(Seq::empty(), r, "Guard"@);
    assert(Seq::<OnionooRelay>::empty().push(r) =~= seq![r]);
}

/// The text of a list of ports as the summary writes it.
proof fn lemma_policy_list(head: Seq<char>, l: Seq<String>)
    ensures
        starts_with(head + join_with(string_views(l), ", "@), head),
        forall|k: int| 0 <= k < l.len() ==> contains_text(head + join_with(string_views(l), ", "@), #[trigger] l[k]@),
{
    let j = join_with(string_views(l), ", "@);
    assert((head + j).take(head.len() as int) =~= head);
    lemma_join_contains_items(string_views(l), ", "@);
    assert forall|k: int| 0 <= k < l.len() implies contains_text(head + j, #[trigger] l[k]@) by {
        assert(string_views(l)[k] == l[k]@);
        let i = choose|i: int| occurs_in_at(j, string_views(l)[k], i);
        lemma_occurs_in_context(head, j, Seq::empty(), l[k]@, i);
        assert(head + j + Seq::<char>::empty() =~= head + j);
    }
}

/// The exit policy summary names every accepted port (after `accept `),
/// else every rejected port (after `reject `), and is empty where there is
/// neither list.
pub proof fn law_policy_names_every_entry(p: OnionooExitPolicy)
    ensures
        p.accept matches Some(a) ==> starts_with(policy_text(Some(p)), "accept "@) && forall|k: int|
            0 <= k < a.len() ==> contains_text(policy_text(Some(p)), #[trigger] a@[k]@),
        p.accept is None ==> (p.reject matches Some(r) ==> starts_with(policy_text(Some(p)), "reject "@)
            && forall|k: int| 0 <= k < r.len() ==> contains_text(policy_text(Some(p)), #[trigger] r@[k]@)),
        p.accept is None && p.reject is None ==> policy_text(Some(p)).len() == 0,
        policy_text(None).len() == 0,
{
    match p.accept {
        Some(a) => lemma_policy_list("accept "@, a@),
        None => match p.reject {
            Some(r) => lemma_policy_list("reject "@, r@),
            None => {},
        },
    }
}

/// The entries of an optional list.
pub open spec fn list_of(l: Option<Vec<String>>) -> Option<Seq<String>> {
    match l {
        Some(v) => Some(v@),
        None => None,
    }
}

/// One more entry in a non-empty list adds `", "` and the entry to the end
/// of the summary, and a list of one entry gives the word and that entry.
pub proof fn law_policy_appends(p1: OnionooExitPolicy, p2: OnionooExitPolicy, l1: Seq<String>, l2: Seq<String>, e: String)
    requires
        l2 == l1.push(e),
        (list_of(p1.accept) == Some(l1) && list_of(p2.accept) == Some(l2)) || (p1.accept is None && p2.accept is None
            && list_of(p1.reject) == Some(l1) && list_of(p2.reject) == Some(l2)),
    ensures
        l1.len() > 0 ==> policy_text(Some(p2)) == policy_text(Some(p1)) + ", "@ + e@,
        l1.len() == 0 ==> policy_text(Some(p2)) == policy_text(Some(p1)) + e@,
{
    assert(string_views(l2).drop_last() =~= string_views(l1));
    assert(string_views(l2).last() == e@);
    if l1.len() == 0 {
        assert(string_views(l1) =~= Seq::<Seq<char>>::empty());
        assert(string_views(l2) =~= seq![e@]);
    }
}

} // verus!
