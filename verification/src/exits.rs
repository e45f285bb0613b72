//! The Tor bulk exit list: its text format, the detector's cache of it, and
//! the exit nodes it lists.

use vstd::prelude::*;

use crate::ip::{
    ip_text, is_address_char, law_displayed_address_parses_back, lemma_ip_text_chars, parse_ip_in,
    spec_parse_ip, IpAddress,
};
use crate::model::ExitNode;
use crate::text::{
    chars_of, join_with, lemma_split_concat, lemma_split_join, lemma_split_on_nonempty,
    lemma_trim_drop_carriage_return, split_on, split_ranges, strip_carriage_return, text_lines, trim,
    trim_end, trim_range, trim_start,
};

verus! {

// ---------------------------------------------------------------------------
// The exit list
// ---------------------------------------------------------------------------

/// The address on one line of the exit list: the trimmed line, where it is
/// neither empty nor a `#` comment and reads as an IP address.
pub open spec fn exit_line_address(line: Seq<char>) -> Option<IpAddress> {
    let t = trim(line);
    if t.len() > 0 && t[0] != '#' {
        spec_parse_ip(t)
    } else {
        None
    }
}

/// The addresses of the exit list `body`, line by line; empty lines,
/// comments and lines that are no IP address are skipped.
pub open spec fn spec_parse_exit_list(body: Seq<char>) -> Seq<IpAddress> {
    text_lines(body).filter_map(|l: Seq<char>| exit_line_address(l))
}

fn line_address(chars: &Vec<char>, a: usize, b: usize) -> (r: Option<IpAddress>)
    requires
        a <= b <= chars.len(),
    ensures
        r == exit_line_address(chars@.subrange(a as int, b as int)),
{
    let (x, y) = trim_range(chars, a, b);
    if y > x && chars[x] != '#' {
        assert(trim(chars@.subrange(a as int, b as int))[0] == chars@[x as int]);
        parse_ip_in(chars, x, y)
    } else {
        None
    }
}

/// Parses the Tor bulk exit list: one IP address per line; lines that are
/// empty or start with `#` after trimming, and lines that are no address,
/// are skipped.
pub fn parse_exit_list(body: &str) -> (addrs: Vec<IpAddress>)
    ensures
        addrs@ == spec_parse_exit_list(body@),
{
    let chars = chars_of(body);
    let n = chars.len();
    let ranges = split_ranges(&chars, 0, n, '\n');
    let ghost parts = split_on(body@, '\n');
    assert(chars@.subrange(0, n as int) =~= body@);
    proof {
        crate::text::lemma_split_on_nonempty(body@, '\n');
    }
    let ghost full = parts.take(parts.len() - 1).map_values(|l: Seq<char>| strip_carriage_return(l));
    let ghost lines = text_lines(body@);
    let ghost f = |l: Seq<char>| exit_line_address(l);
    let m = ranges.len();
    let mut addrs: Vec<IpAddress> = Vec::new();
    let mut i: usize = 0;
    while i + 1 < m
        invariant
            m == ranges@.len() == parts.len(),
            m >= 1,
            crate::text::ranges_hold(chars@, ranges@, parts),
            full == parts.take(parts.len() - 1).map_values(|l: Seq<char>| strip_carriage_return(l)),
            f == |l: Seq<char>| exit_line_address(l),
            i + 1 <= m,
            addrs@ == full.take(i as int).filter_map(f),
        decreases m - i,
    {
        let (a, b) = ranges[i];
        assert(chars@.subrange(a as int, b as int) == parts[i as int]);
        let e: usize = if b > a && chars[b - 1] == '\r' {
            b - 1
        } else {
            b
        };
        assert(chars@.subrange(a as int, e as int) =~= strip_carriage_return(parts[i as int]));
        assert(full[i as int] == strip_carriage_return(parts[i as int]));
        assert(full.take(i + 1).drop_last() =~= full.take(i as int));
        assert(full.take(i + 1).last() == full[i as int]);
        match line_address(&chars, a, e) {
            Some(ip) => {
                addrs.push(ip);
            },
            None => {},
        }
        assert(addrs@ =~= full.take(i + 1).filter_map(f));
        i = i + 1;
    }
    assert(full.take(i as int) =~= full);
    let (a, b) = ranges[m - 1];
    assert(chars@.subrange(a as int, b as int) == parts.last());
    if b > a {
        let ghost pushed = full.push(parts.last());
        assert(pushed.drop_last() =~= full);
        match line_address(&chars, a, b) {
            Some(ip) => {
                addrs.push(ip);
            },
            None => {},
        }
        assert(addrs@ =~= pushed.filter_map(f));
    }
    addrs
}

/// An exit list of the addresses: their display texts, one per line.
pub open spec fn exit_list_text(addrs: Seq<IpAddress>) -> Seq<char> {
    join_with(addrs.map_values(|a: IpAddress| ip_text(a)), seq!['\n'])
}

proof fn lemma_exit_line_of_address(a: IpAddress)
    ensures
        exit_line_address(ip_text(a)) == Some(a),
        strip_carriage_return(ip_text(a)) == ip_text(a),
        forall|i: int| 0 <= i < ip_text(a).len() ==> #[trigger] ip_text(a)[i] != '\n',
{
    let t = ip_text(a);
    lemma_ip_text_chars(a);
    law_displayed_address_parses_back(a);
    assert(is_address_char(t[0]));
    assert(is_address_char(t[t.len() - 1]));
    assert(trim_start(t) == t);
    assert(trim_end(t) == t);
    assert forall|i: int| 0 <= i < t.len() implies #[trigger] t[i] != '\n' by {
        assert(is_address_char(t[i]));
    }
}

proof fn lemma_lines_of_addresses(addrs: Seq<IpAddress>)
    ensures
        addrs.map_values(|a: IpAddress| ip_text(a)).filter_map(|l: Seq<char>| exit_line_address(l)) == addrs,
    decreases addrs.len(),
{
    let items = addrs.map_values(|a: IpAddress| ip_text(a));
    if addrs.len() == 0 {
        assert(items =~= Seq::<Seq<char>>::empty());
    } else {
        let front = addrs.drop_last();
        lemma_lines_of_addresses(front);
        assert(items.drop_last() =~= front.map_values(|a: IpAddress| ip_text(a)));
        lemma_exit_line_of_address(addrs.last());
        assert(items.last() == ip_text(addrs.last()));
        assert(front + seq![addrs.last()] =~= addrs);
    }
}

/// An exit list written one address per line, each in its display form,
/// is read back as those addresses, in order.
pub proof fn law_exit_list_parses_back(addrs: Seq<IpAddress>)
    ensures
        spec_parse_exit_list(exit_list_text(addrs)) == addrs,
{
    let items = addrs.map_values(|a: IpAddress| ip_text(a));
    let body = exit_list_text(addrs);
    lemma_lines_of_addresses(addrs);
    if addrs.len() == 0 {
        assert(items =~= Seq::<Seq<char>>::empty());
        assert(body =~= Seq::<char>::empty());
        assert(split_on(body, '\n') =~= seq![Seq::<char>::empty()]);
        assert(text_lines(body) =~= Seq::<Seq<char>>::empty());
        assert(items.filter_map(|l: Seq<char>| exit_line_address(l)) =~= Seq::<IpAddress>::empty());
    } else {
        assert forall|k: int, i: int| 0 <= k < items.len() && 0 <= i < items[k].len() implies #[trigger] items[k][i]
            != '\n' by {
            lemma_exit_line_of_address(addrs[k]);
            assert(items[k] == ip_text(addrs[k]));
        }
        lemma_split_join(items, '\n');
        let parts = split_on(body, '\n');
        assert(parts == items);
        lemma_exit_line_of_address(addrs.last());
        lemma_ip_text_chars(addrs.last());
        assert(parts.last().len() > 0);
        let full = parts.take(parts.len() - 1).map_values(|l: Seq<char>| strip_carriage_return(l));
        assert forall|k: int| 0 <= k < full.len() implies #[trigger] full[k] == items[k] by {
            lemma_exit_line_of_address(addrs[k]);
        }
        assert(text_lines(body) =~= items);
    }
}

proof fn lemma_filter_map_concat<A, B>(x: Seq<A>, y: Seq<A>, f: spec_fn(A) -> Option<B>)
    ensures
        (x + y).filter_map(f) == x.filter_map(f) + y.filter_map(f),
    decreases y.len(),
{
    if y.len() == 0 {
        assert(x + y =~= x);
        assert(y.filter_map(f) =~= Seq::<B>::empty());
        assert(x.filter_map(f) + y.filter_map(f) =~= x.filter_map(f));
    } else {
        lemma_filter_map_concat(x, y.drop_last(), f);
        assert((x + y).drop_last() =~= x + y.drop_last());
        assert((x + y).last() == y.last());
        match f(y.last()) {
            Some(v) => {
                assert(x.filter_map(f) + y.drop_last().filter_map(f) + seq![v] =~= x.filter_map(f) + (
                y.drop_last().filter_map(f) + seq![v]));
            },
            None => {},
        }
    }
}

proof fn lemma_line_address_without_carriage_return(l: Seq<char>)
    ensures
        exit_line_address(strip_carriage_return(l)) == exit_line_address(l),
{
    if l.len() > 0 && l.last() == '\r' {
        lemma_trim_drop_carriage_return(l);
    }
}

proof fn lemma_stripped_lines_read_alike(s: Seq<Seq<char>>)
    ensures
        s.map_values(|l: Seq<char>| strip_carriage_return(l)).filter_map(|l: Seq<char>| exit_line_address(l))
            == s.filter_map(|l: Seq<char>| exit_line_address(l)),
    decreases s.len(),
{
    let m = s.map_values(|l: Seq<char>| strip_carriage_return(l));
    if s.len() == 0 {
        assert(m =~= Seq::<Seq<char>>::empty());
    } else {
        lemma_stripped_lines_read_alike(s.drop_last());
        assert(m.drop_last() =~= s.drop_last().map_values(|l: Seq<char>| strip_carriage_return(l)));
        lemma_line_address_without_carriage_return(s.last());
        assert(m.last() == strip_carriage_return(s.last()));
    }
}

/// The exit list reads as the addresses of the pieces between newlines.
proof fn lemma_exit_list_pieces(body: Seq<char>)
    ensures
        spec_parse_exit_list(body) == split_on(body, '\n').filter_map(|l: Seq<char>| exit_line_address(l)),
{
    let f = |l: Seq<char>| exit_line_address(l);
    let parts = split_on(body, '\n');
    lemma_split_on_nonempty(body, '\n');
    let front = parts.take(parts.len() - 1);
    let full = front.map_values(|l: Seq<char>| strip_carriage_return(l));
    lemma_stripped_lines_read_alike(front);
    assert(parts =~= front.push(parts.last()));
    assert(parts.drop_last() =~= front);
    if parts.last().len() == 0 {
        assert(trim(parts.last()) =~= Seq::<char>::empty()) by {
            assert(parts.last() =~= Seq::<char>::empty());
        }
        assert(f(parts.last()) is None);
    } else {
        assert(full.push(parts.last()).drop_last() =~= full);
    }
}

/// Two exit lists joined by a newline read as the addresses of the first
/// followed by those of the second.
pub proof fn law_exit_lists_concatenate(a: Seq<char>, b: Seq<char>)
    ensures
        spec_parse_exit_list(a + seq!['\n'] + b) == spec_parse_exit_list(a) + spec_parse_exit_list(b),
{
    lemma_exit_list_pieces(a);
    lemma_exit_list_pieces(b);
    lemma_exit_list_pieces(a + seq!['\n'] + b);
    lemma_split_concat(a, b, '\n');
    lemma_filter_map_concat(split_on(a, '\n'), split_on(b, '\n'), |l: Seq<char>| exit_line_address(l));
}

/// Whether `addr` is one of the listed exit addresses.
pub fn is_exit_address(exits: &Vec<IpAddress>, addr: IpAddress) -> (r: bool)
    ensures
        r == exits@.contains(addr),
{
    let mut i: usize = 0;
    while i < exits.len()
        invariant
            i <= exits.len(),
            forall|j: int| 0 <= j < i ==> exits@[j] != addr,
        decreases exits.len() - i,
    {
        if exits[i] == addr {
            return true;
        }
        i = i + 1;
    }
    false
}

/// `node` is the exit node that the exit list gives for `addr`: it knows
/// the address alone.
pub open spec fn is_bare_exit_node(node: ExitNode, addr: IpAddress) -> bool {
    &&& node.fingerprint@.len() == 0
    &&& node.nickname@.len() == 0
    &&& node.address == addr
    &&& node.exit_policy_summary@.len() == 0
    &&& node.country is None
    &&& node.bandwidth == 0
}

/// The exit nodes of the listed addresses, in order, with nothing known
/// but their address.
pub fn exit_nodes_from_addresses(addrs: &Vec<IpAddress>) -> (nodes: Vec<ExitNode>)
    ensures
        nodes.len() == addrs.len(),
        forall|i: int| 0 <= i < nodes.len() ==> is_bare_exit_node(#[trigger] nodes@[i], addrs@[i]),
{
    let mut nodes: Vec<ExitNode> = Vec::new();
    let mut i: usize = 0;
    while i < addrs.len()
        invariant
            i <= addrs.len(),
            nodes.len() == i,
            forall|j: int| 0 <= j < i ==> is_bare_exit_node(#[trigger] nodes@[j], addrs@[j]),
        decreases addrs.len() - i,
    {
        nodes.push(
            ExitNode {
                fingerprint: String::new(),
                nickname: String::new(),
                address: addrs[i],
                exit_policy_summary: String::new(),
                country: None,
                bandwidth: 0,
            },
        );
        i = i + 1;
    }
    nodes
}

fn copy_addresses(addrs: &Vec<IpAddress>) -> (r: Vec<IpAddress>)
    ensures
        r@ == addrs@,
{
    let mut r: Vec<IpAddress> = Vec::new();
    let mut i: usize = 0;
    while i < addrs.len()
        invariant
            i <= addrs.len(),
            r@ == addrs@.take(i as int),
        decreases addrs.len() - i,
    {
        r.push(addrs[i]);
        assert(addrs@.take(i + 1) =~= addrs@.take(i as int).push(addrs@[i as int]));
        i = i + 1;
    }
    assert(addrs@.take(i as int) =~= addrs@);
    r
}

// ---------------------------------------------------------------------------
// The detector's cache
// ---------------------------------------------------------------------------

/// Where the Tor Project publishes the bulk exit list.
pub open spec fn tor_exit_list_url() -> Seq<char> {
    "https://check.torproject.org/torbulkexitlist"@
}

/// How long a fetched exit list stays fresh by default: one hour.
pub const DEFAULT_CACHE_TTL_NANOS: u128 = 3_600_000_000_000;

/// An exit list and when it was fetched, in nanoseconds on a monotonic clock.
pub struct CachedExitList {
    pub addresses: Vec<IpAddress>,
    pub fetched_at_nanos: u128,
}

/// What the detector knows: its exit list URL, how long a fetched list
/// stays fresh (nanoseconds), and the list it fetched last with the time.
pub struct DetectorState {
    pub exit_list_url: Seq<char>,
    pub cache_ttl_nanos: u128,
    pub cache: Option<(Seq<IpAddress>, u128)>,
}

/// Detects Tor exit nodes using the bulk exit list, fetched at most once
/// per time to live.
pub struct TorExitDetector {
    exit_list_url: String,
    cache_ttl_nanos: u128,
    cache: Option<CachedExitList>,
}

impl View for TorExitDetector {
    type V = DetectorState;

    closed spec fn view(&self) -> DetectorState {
        DetectorState {
            exit_list_url: self.exit_list_url@,
            cache_ttl_nanos: self.cache_ttl_nanos,
            cache: match self.cache {
                Some(c) => Some((c.addresses@, c.fetched_at_nanos)),
                None => None,
            },
        }
    }
}

/// `Instant::elapsed`: the time from `then` to `now`, zero where `now` is earlier.
pub open spec fn elapsed(now: u128, then: u128) -> int {
    if now >= then {
        now - then
    } else {
        0
    }
}

/// The cached list, where there is one and it was fetched less than the
/// time to live before `now`.
pub open spec fn fresh_list(s: DetectorState, now: u128) -> Option<Seq<IpAddress>> {
    match s.cache {
        Some((addrs, at)) => if elapsed(now, at) < s.cache_ttl_nanos {
            Some(addrs)
        } else {
            None
        },
        None => None,
    }
}

/// The detector after it stored a list fetched at `now`.
pub open spec fn stored(s: DetectorState, addrs: Seq<IpAddress>, now: u128) -> DetectorState {
    DetectorState { cache: Some((addrs, now)), ..s }
}

/// What a lookup in the cache tells the caller to do.
pub enum CacheLookup {
    /// Use this list; it is still fresh.
    Fresh(Vec<IpAddress>),
    /// Fetch the list again and store it.
    Refresh,
}

impl TorExitDetector {
    /// A detector of the Tor Project's bulk exit list, fresh for one hour.
    pub fn new() -> (d: Self)
        ensures
            d@ == (DetectorState {
                exit_list_url: tor_exit_list_url(),
                cache_ttl_nanos: DEFAULT_CACHE_TTL_NANOS,
                cache: None,
            }),
    {
        TorExitDetector {
            exit_list_url: String::from_str("https://check.torproject.org/torbulkexitlist"),
            cache_ttl_nanos: DEFAULT_CACHE_TTL_NANOS,
            cache: None,
        }
    }

    /// A detector of the list at `exit_list_url`, fresh for `cache_ttl_nanos`.
    pub fn with_config(exit_list_url: &str, cache_ttl_nanos: u128) -> (d: Self)
        ensures
            d@ == (DetectorState { exit_list_url: exit_list_url@, cache_ttl_nanos, cache: None }),
    {
        TorExitDetector { exit_list_url: String::from_str(exit_list_url), cache_ttl_nanos, cache: None }
    }

    /// Where the exit list is fetched from.
    pub fn exit_list_url(&self) -> (s: &str)
        ensures
            s@ == self@.exit_list_url,
    {
        self.exit_list_url.as_str()
    }

    /// How long a fetched list stays fresh, in nanoseconds.
    pub fn cache_ttl_nanos(&self) -> (t: u128)
        ensures
            t == self@.cache_ttl_nanos,
    {
        self.cache_ttl_nanos
    }

    /// The cached list where it is still fresh at `now_nanos`, else `Refresh`.
    pub fn lookup(&self, now_nanos: u128) -> (r: CacheLookup)
        ensures
            fresh_list(self@, now_nanos) matches Some(a) ==> r matches CacheLookup::Fresh(v) && v@ == a,
            fresh_list(self@, now_nanos) is None ==> r is Refresh,
    {
        match &self.cache {
            Some(c) => {
                let elapsed: u128 = if now_nanos >= c.fetched_at_nanos {
                    now_nanos - c.fetched_at_nanos
                } else {
                    0
                };
                if elapsed < self.cache_ttl_nanos {
                    CacheLookup::Fresh(copy_addresses(&c.addresses))
                } else {
                    CacheLookup::Refresh
                }
            },
            None => CacheLookup::Refresh,
        }
    }

    /// Stores a list fetched at `now_nanos`.
    pub fn store(&mut self, addresses: Vec<IpAddress>, now_nanos: u128)
        ensures
            final(self)@ == stored(old(self)@, addresses@, now_nanos),
    {
        self.cache = Some(CachedExitList { addresses, fetched_at_nanos: now_nanos });
    }
}

impl Default for TorExitDetector {
    fn default() -> (d: Self)
        ensures
            d@ == (DetectorState {
                exit_list_url: tor_exit_list_url(),
                cache_ttl_nanos: DEFAULT_CACHE_TTL_NANOS,
                cache: None,
            }),
    {
        Self::new()
    }
}

/// A list stored at `at` is what a lookup gives until its time to live has
/// passed, and from then on a lookup asks for a refresh; storing keeps the
/// URL and the time to live.
pub proof fn law_cache_serves_stored_list(s: DetectorState, addrs: Seq<IpAddress>, at: u128, now: u128)
    ensures
        stored(s, addrs, at).exit_list_url == s.exit_list_url,
        stored(s, addrs, at).cache_ttl_nanos == s.cache_ttl_nanos,
        at <= now && now - at < s.cache_ttl_nanos ==> fresh_list(stored(s, addrs, at), now) == Some(addrs),
        at <= now && now - at >= s.cache_ttl_nanos ==> fresh_list(stored(s, addrs, at), now) is None,
        now < at ==> (fresh_list(stored(s, addrs, at), now) == if s.cache_ttl_nanos > 0 {
            Some(addrs)
        } else {
            None::<Seq<IpAddress>>
        }),
{
}

/// A detector that has stored no list asks for a refresh at any time.
pub proof fn law_empty_cache_refreshes(s: DetectorState, now: u128)
    requires
        s.cache is None,
    ensures
        fresh_list(s, now) is None,
{
}

} // verus!
