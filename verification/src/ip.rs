//! IP addresses: the textual forms that Rust's `IpAddr` parser accepts, and
//! the text that its `Display` produces.

use vstd::prelude::*;

use crate::text::{
    all_ascii_digits, chars_of, decimal_text, decimal_value, digit_value, is_ascii_digit, join_with,
    lemma_decimal_text, lemma_digit_char, lemma_split_concat, lemma_split_join,
    lemma_split_on_nonempty, lemma_split_without_sep, push_char, push_decimal, ranges_hold, split_on,
    split_ranges,
};

verus! {

/// An IPv4 address (four octets) or an IPv6 address (eight 16-bit groups),
/// most significant first.
#[derive(Clone, Copy, Debug, PartialEq, Eq, Hash, Structural)]
pub enum IpAddress {
    V4(u8, u8, u8, u8),
    V6(u16, u16, u16, u16, u16, u16, u16, u16),
}

pub open spec fn v4_address(o: Seq<u8>) -> IpAddress {
    IpAddress::V4(o[0], o[1], o[2], o[3])
}

pub open spec fn v6_address(g: Seq<u16>) -> IpAddress {
    IpAddress::V6(g[0], g[1], g[2], g[3], g[4], g[5], g[6], g[7])
}

// ---------------------------------------------------------------------------
// Textual forms
// ---------------------------------------------------------------------------

/// An IPv4 octet as the parser accepts it: one to three decimal digits, no
/// leading zero unless the octet is `0` itself, at most 255.
pub open spec fn is_octet_text(s: Seq<char>) -> bool {
    &&& 1 <= s.len() <= 3
    &&& all_ascii_digits(s)
    &&& (s.len() == 1 || s[0] != '0')
    &&& decimal_value(s) <= 255
}

/// The octets of a dotted-quad IPv4 address, if `s` is one.
pub open spec fn spec_parse_ipv4(s: Seq<char>) -> Option<Seq<u8>> {
    let parts = split_on(s, '.');
    if parts.len() == 4 && (forall|i: int| 0 <= i < 4 ==> is_octet_text(#[trigger] parts[i])) {
        Some(Seq::new(4, |i: int| decimal_value(parts[i]) as u8))
    } else {
        None
    }
}

pub open spec fn is_hex_digit(c: char) -> bool {
    ||| is_ascii_digit(c)
    ||| ('a' <= c && c <= 'f')
    ||| ('A' <= c && c <= 'F')
}

pub open spec fn hex_digit_value(c: char) -> int {
    if is_ascii_digit(c) {
        digit_value(c)
    } else if 'a' <= c && c <= 'f' {
        (c as int) - ('a' as int) + 10
    } else {
        (c as int) - ('A' as int) + 10
    }
}

pub open spec fn hex_value(s: Seq<char>) -> int
    decreases s.len(),
{
    if s.len() == 0 {
        0
    } else {
        hex_value(s.drop_last()) * 16 + hex_digit_value(s.last())
    }
}

/// An IPv6 group: one to four hexadecimal digits of either case.
pub open spec fn is_group_text(s: Seq<char>) -> bool {
    &&& 1 <= s.len() <= 4
    &&& forall|i: int| 0 <= i < s.len() ==> is_hex_digit(#[trigger] s[i])
}

/// The two groups that an embedded IPv4 address stands for.
pub open spec fn v4_groups(o: Seq<u8>) -> Seq<u16> {
    seq![(o[0] as int * 256 + o[1] as int) as u16, (o[2] as int * 256 + o[3] as int) as u16]
}

/// The groups of a list of colon-separated pieces: each piece is one
/// group, except that the last one may be an embedded IPv4 address (two
/// groups) where `v4_last` allows it.
pub open spec fn groups_of(pieces: Seq<Seq<char>>, v4_last: bool) -> Option<Seq<u16>>
    decreases pieces.len(),
{
    if pieces.len() == 0 {
        Some(Seq::empty())
    } else {
        match groups_of(pieces.drop_last(), false) {
            None => None,
            Some(front) => {
                let last = pieces.last();
                if is_group_text(last) {
                    Some(front.push(hex_value(last) as u16))
                } else if v4_last && spec_parse_ipv4(last) is Some {
                    Some(front + v4_groups(spec_parse_ipv4(last).unwrap()))
                } else {
                    None
                }
            }
        }
    }
}

pub open spec fn double_colon_at(s: Seq<char>, k: int) -> bool {
    0 <= k && k + 1 < s.len() && s[k] == ':' && s[k + 1] == ':'
}

pub open spec fn first_double_colon(s: Seq<char>, k: int) -> bool {
    double_colon_at(s, k) && forall|j: int| 0 <= j < k ==> !double_colon_at(s, j)
}

/// The colon-separated pieces of one side of a `::`, none where it is empty.
pub open spec fn colon_pieces(s: Seq<char>) -> Seq<Seq<char>> {
    if s.len() == 0 {
        Seq::empty()
    } else {
        split_on(s, ':')
    }
}

pub open spec fn zero_groups(n: nat) -> Seq<u16> {
    Seq::new(n, |i: int| 0u16)
}

/// The eight groups of an IPv6 address, if `s` is one: either eight groups
/// in full, or the groups before and after the first `::` with at least one
/// zero group in between; only the last piece may be an embedded IPv4 address.
pub open spec fn spec_parse_ipv6(s: Seq<char>) -> Option<Seq<u16>> {
    if exists|k: int| first_double_colon(s, k) {
        let k = choose|k: int| first_double_colon(s, k);
        let head = groups_of(colon_pieces(s.take(k)), false);
        let tail = groups_of(colon_pieces(s.skip(k + 2)), true);
        if head is Some && tail is Some && head.unwrap().len() + tail.unwrap().len() <= 7 {
            Some(
                head.unwrap() + zero_groups((8 - head.unwrap().len() - tail.unwrap().len()) as nat)
                    + tail.unwrap(),
            )
        } else {
            None
        }
    } else {
        match groups_of(split_on(s, ':'), true) {
            Some(g) => if g.len() == 8 {
                Some(g)
            } else {
                None
            },
            None => None,
        }
    }
}

/// `s.parse::<IpAddr>()`: an IPv4 address where `s` is one, else an IPv6 address.
pub open spec fn spec_parse_ip(s: Seq<char>) -> Option<IpAddress> {
    match spec_parse_ipv4(s) {
        Some(o) => Some(v4_address(o)),
        None => match spec_parse_ipv6(s) {
            Some(g) => Some(v6_address(g)),
            None => None,
        },
    }
}

// ---------------------------------------------------------------------------
// Parsing
// ---------------------------------------------------------------------------

fn ascii_digit_value(c: char) -> (r: Option<u32>)
    ensures
        r is Some <==> is_ascii_digit(c),
        r is Some ==> r.unwrap() as int == digit_value(c) && r.unwrap() < 10,
{
    if '0' <= c && c <= '9' {
        Some((c as u32) - ('0' as u32))
    } else {
        None
    }
}

fn hex_digit(c: char) -> (r: Option<u32>)
    ensures
        r is Some <==> is_hex_digit(c),
        r is Some ==> r.unwrap() as int == hex_digit_value(c) && r.unwrap() < 16,
{
    if '0' <= c && c <= '9' {
        Some((c as u32) - ('0' as u32))
    } else if 'a' <= c && c <= 'f' {
        Some((c as u32) - ('a' as u32) + 10)
    } else if 'A' <= c && c <= 'F' {
        Some((c as u32) - ('A' as u32) + 10)
    } else {
        None
    }
}

/// One IPv4 octet in `chars[lo..hi]`.
fn parse_octet(chars: &Vec<char>, lo: usize, hi: usize) -> (r: Option<u8>)
    requires
        lo <= hi <= chars.len(),
    ensures
        r is Some <==> is_octet_text(chars@.subrange(lo as int, hi as int)),
        r is Some ==> r.unwrap() as int == decimal_value(chars@.subrange(lo as int, hi as int)),
{
    let ghost s = chars@.subrange(lo as int, hi as int);
    if hi - lo < 1 || hi - lo > 3 {
        return None;
    }
    if hi - lo > 1 && chars[lo] == '0' {
        assert(s[0] == '0');
        return None;
    }
    let mut v: u32 = 0;
    let mut i: usize = lo;
    while i < hi
        invariant
            lo <= i <= hi <= chars.len(),
            1 <= hi - lo <= 3,
            s == chars@.subrange(lo as int, hi as int),
            v as int == decimal_value(chars@.subrange(lo as int, i as int)),
            all_ascii_digits(chars@.subrange(lo as int, i as int)),
            i - lo == 0 ==> v == 0,
            i - lo == 1 ==> v < 10,
            i - lo == 2 ==> v < 100,
            v < 1000,
        decreases hi - i,
    {
        let d = ascii_digit_value(chars[i]);
        match d {
            None => {
                assert(s[i - lo] == chars@[i as int]);
                return None;
            },
            Some(d) => {
                assert(chars@.subrange(lo as int, i + 1).drop_last() =~= chars@.subrange(
                    lo as int,
                    i as int,
                ));
                v = v * 10 + d;
                i = i + 1;
            },
        }
    }
    assert(chars@.subrange(lo as int, i as int) == s);
    if v > 255 {
        None
    } else {
        Some(v as u8)
    }
}

/// One IPv6 group in `chars[lo..hi]`.
fn parse_group(chars: &Vec<char>, lo: usize, hi: usize) -> (r: Option<u16>)
    requires
        lo <= hi <= chars.len(),
    ensures
        r is Some <==> is_group_text(chars@.subrange(lo as int, hi as int)),
        r is Some ==> r.unwrap() as int == hex_value(chars@.subrange(lo as int, hi as int)),
{
    let ghost s = chars@.subrange(lo as int, hi as int);
    if hi - lo < 1 || hi - lo > 4 {
        return None;
    }
    let mut v: u32 = 0;
    let mut i: usize = lo;
    while i < hi
        invariant
            lo <= i <= hi <= chars.len(),
            1 <= hi - lo <= 4,
            s == chars@.subrange(lo as int, hi as int),
            v as int == hex_value(chars@.subrange(lo as int, i as int)),
            forall|j: int| lo <= j < i ==> is_hex_digit(#[trigger] chars@[j]),
            i - lo == 0 ==> v == 0,
            i - lo == 1 ==> v < 16,
            i - lo == 2 ==> v < 256,
            i - lo == 3 ==> v < 4096,
            v < 65536,
        decreases hi - i,
    {
        let d = hex_digit(chars[i]);
        match d {
            None => {
                assert(s[i - lo] == chars@[i as int]);
                return None;
            },
            Some(d) => {
                assert(chars@.subrange(lo as int, i + 1).drop_last() =~= chars@.subrange(
                    lo as int,
                    i as int,
                ));
                v = v * 16 + d;
                i = i + 1;
            },
        }
    }
    assert(chars@.subrange(lo as int, i as int) == s);
    assert forall|j: int| 0 <= j < s.len() implies is_hex_digit(#[trigger] s[j]) by {
        assert(s[j] == chars@[lo + j]);
    }
    Some(v as u16)
}

/// The pieces of `chars` that a list of ranges marks out.
pub open spec fn range_pieces(chars: Seq<char>, ranges: Seq<(usize, usize)>) -> Seq<Seq<char>> {
    Seq::new(ranges.len(), |i: int| chars.subrange(ranges[i].0 as int, ranges[i].1 as int))
}

proof fn lemma_ranges_hold_pieces(chars: Seq<char>, ranges: Seq<(usize, usize)>, pieces: Seq<Seq<char>>)
    requires
        ranges_hold(chars, ranges, pieces),
    ensures
        range_pieces(chars, ranges) == pieces,
{
    assert(range_pieces(chars, ranges) =~= pieces);
}

/// A dotted-quad IPv4 address in `chars[lo..hi]`.
fn parse_ipv4_range(chars: &Vec<char>, lo: usize, hi: usize) -> (r: Option<Vec<u8>>)
    requires
        lo <= hi <= chars.len(),
    ensures
        r is Some <==> spec_parse_ipv4(chars@.subrange(lo as int, hi as int)) is Some,
        r is Some ==> r.unwrap()@ == spec_parse_ipv4(chars@.subrange(lo as int, hi as int)).unwrap(),
{
    let ghost s = chars@.subrange(lo as int, hi as int);
    let ghost parts = split_on(s, '.');
    let ranges = split_ranges(chars, lo, hi, '.');
    if ranges.len() != 4 {
        return None;
    }
    let mut octets: Vec<u8> = Vec::new();
    let mut i: usize = 0;
    while i < 4
        invariant
            ranges@.len() == 4,
            s == chars@.subrange(lo as int, hi as int),
            parts == split_on(s, '.'),
            ranges_hold(chars@, ranges@, parts),
            i <= 4,
            octets@.len() == i,
            forall|j: int| 0 <= j < i ==> is_octet_text(#[trigger] parts[j]),
            forall|j: int| 0 <= j < i ==> octets@[j] as int == decimal_value(#[trigger] parts[j]),
        decreases 4 - i,
    {
        let (a, b) = ranges[i];
        assert(chars@.subrange(a as int, b as int) == parts[i as int]);
        match parse_octet(chars, a, b) {
            None => {
                assert(!is_octet_text(parts[i as int]));
                return None;
            },
            Some(o) => {
                octets.push(o);
            },
        }
        i = i + 1;
    }
    assert(octets@ =~= Seq::new(4, |j: int| decimal_value(parts[j]) as u8));
    Some(octets)
}

proof fn lemma_groups_prefix_none(pieces: Seq<Seq<char>>, k: int, m: int, flag: bool)
    requires
        0 <= k <= m <= pieces.len(),
        k < m || !flag,
        groups_of(pieces.take(k), false) is None,
    ensures
        groups_of(pieces.take(m), flag) is None,
    decreases m - k,
{
    if m == k {
    } else {
        lemma_groups_prefix_none(pieces, k, m - 1, false);
        assert(pieces.take(m).drop_last() =~= pieces.take(m - 1));
    }
}

/// The groups of the pieces that `ranges` marks out in `chars`.
fn groups_of_ranges(chars: &Vec<char>, ranges: &Vec<(usize, usize)>, v4_last: bool) -> (r: Option<Vec<u16>>)
    requires
        forall|i: int|
            0 <= i < ranges@.len() ==> (#[trigger] ranges@[i]).0 <= ranges@[i].1 <= chars@.len(),
    ensures
        r is Some <==> groups_of(range_pieces(chars@, ranges@), v4_last) is Some,
        r is Some ==> r.unwrap()@ == groups_of(range_pieces(chars@, ranges@), v4_last).unwrap(),
{
    let ghost p = range_pieces(chars@, ranges@);
    let n = ranges.len();
    let mut out: Vec<u16> = Vec::new();
    let mut i: usize = 0;
    while i < n
        invariant
            n == ranges@.len(),
            p == range_pieces(chars@, ranges@),
            forall|j: int|
                0 <= j < ranges@.len() ==> (#[trigger] ranges@[j]).0 <= ranges@[j].1 <= chars@.len(),
            i <= n,
            groups_of(p.take(i as int), false) == Some(out@),
            i > 0 ==> is_group_text(p[i - 1]),
        decreases n - i,
    {
        let (a, b) = ranges[i];
        assert(p[i as int] == chars@.subrange(a as int, b as int));
        assert(p.take(i + 1).drop_last() =~= p.take(i as int));
        assert(p.take(i + 1).last() == p[i as int]);
        match parse_group(chars, a, b) {
            Some(g) => {
                out.push(g);
            },
            None => {
                if v4_last && i + 1 == n {
                    match parse_ipv4_range(chars, a, b) {
                        Some(o) => {
                            assert(p.take(n as int) =~= p);
                            let g0: u16 = (o[0] as u16) * 256 + (o[1] as u16);
                            let g1: u16 = (o[2] as u16) * 256 + (o[3] as u16);
                            out.push(g0);
                            out.push(g1);
                            assert(out@ =~= groups_of(p, v4_last).unwrap());
                            return Some(out);
                        },
                        None => {
                            assert(p.take(n as int) =~= p);
                            assert(p.drop_last() =~= p.take(i as int));
                            return None;
                        },
                    }
                } else {
                    proof {
                        lemma_groups_prefix_none(p, i + 1, n as int, v4_last);
                        assert(p.take(n as int) =~= p);
                    }
                    return None;
                }
            },
        }
        i = i + 1;
    }
    assert(p.take(n as int) =~= p);
    if n > 0 {
        assert(p.drop_last() =~= p.take(n - 1));
    }
    Some(out)
}

proof fn lemma_first_double_colon_unique(s: Seq<char>, k1: int, k2: int)
    requires
        first_double_colon(s, k1),
        first_double_colon(s, k2),
    ensures
        k1 == k2,
{
}

/// Ranges of the colon-separated pieces of `chars[lo..hi]`, none where it is empty.
fn colon_piece_ranges(chars: &Vec<char>, lo: usize, hi: usize) -> (ranges: Vec<(usize, usize)>)
    requires
        lo <= hi <= chars.len(),
    ensures
        forall|i: int|
            0 <= i < ranges@.len() ==> (#[trigger] ranges@[i]).0 <= ranges@[i].1 <= chars@.len(),
        range_pieces(chars@, ranges@) == colon_pieces(chars@.subrange(lo as int, hi as int)),
{
    if lo == hi {
        let ranges: Vec<(usize, usize)> = Vec::new();
        assert(range_pieces(chars@, ranges@) =~= Seq::<Seq<char>>::empty());
        ranges
    } else {
        let ranges = split_ranges(chars, lo, hi, ':');
        proof {
            lemma_ranges_hold_pieces(chars@, ranges@, split_on(chars@.subrange(lo as int, hi as int), ':'));
        }
        ranges
    }
}

/// An IPv6 address in `chars[lo..hi]`.
fn parse_ipv6_range(chars: &Vec<char>, lo: usize, hi: usize) -> (r: Option<Vec<u16>>)
    requires
        lo <= hi <= chars.len(),
    ensures
        r is Some <==> spec_parse_ipv6(chars@.subrange(lo as int, hi as int)) is Some,
        r is Some ==> r.unwrap()@ == spec_parse_ipv6(chars@.subrange(lo as int, hi as int)).unwrap(),
{
    let ghost s = chars@.subrange(lo as int, hi as int);
    let mut k: usize = lo;
    let mut found = false;
    while !found && hi - k >= 2
        invariant
            lo <= k <= hi <= chars.len(),
            s == chars@.subrange(lo as int, hi as int),
            forall|j: int| 0 <= j < k - lo ==> !double_colon_at(s, j),
            found ==> k + 1 < hi && chars@[k as int] == ':' && chars@[k + 1] == ':',
        decreases (hi - k) * 2 + (if found { 0int } else { 1int }),
    {
        if chars[k] == ':' && chars[k + 1] == ':' {
            found = true;
        } else {
            k = k + 1;
        }
    }
    if found {
        assert(double_colon_at(s, k - lo));
        assert(first_double_colon(s, k - lo));
        let ghost kk = choose|k: int| first_double_colon(s, k);
        proof {
            lemma_first_double_colon_unique(s, kk, k - lo);
        }
        assert(s.take(k - lo) =~= chars@.subrange(lo as int, k as int));
        assert(s.skip(k - lo + 2) =~= chars@.subrange(k + 2, hi as int));
        let head_ranges = colon_piece_ranges(chars, lo, k);
        let tail_ranges = colon_piece_ranges(chars, k + 2, hi);
        let head = groups_of_ranges(chars, &head_ranges, false);
        let tail = groups_of_ranges(chars, &tail_ranges, true);
        match (head, tail) {
            (Some(h), Some(t)) => {
                if h.len() > 7 || t.len() > 7 - h.len() {
                    return None;
                }
                let mut out: Vec<u16> = Vec::new();
                let mut i: usize = 0;
                while i < h.len()
                    invariant
                        i <= h@.len(),
                        out@ == h@.take(i as int),
                    decreases h@.len() - i,
                {
                    out.push(h[i]);
                    assert(h@.take(i + 1) =~= h@.take(i as int).push(h@[i as int]));
                    i = i + 1;
                }
                let zeros: usize = 8 - h.len() - t.len();
                let mut z: usize = 0;
                while z < zeros
                    invariant
                        z <= zeros,
                        out@ == h@ + zero_groups(z as nat),
                    decreases zeros - z,
                {
                    out.push(0u16);
                    assert(h@ + zero_groups((z + 1) as nat) =~= (h@ + zero_groups(z as nat)).push(0u16));
                    z = z + 1;
                }
                let mut j: usize = 0;
                while j < t.len()
                    invariant
                        j <= t@.len(),
                        out@ == h@ + zero_groups(zeros as nat) + t@.take(j as int),
                    decreases t@.len() - j,
                {
                    out.push(t[j]);
                    assert(t@.take(j + 1) =~= t@.take(j as int).push(t@[j as int]));
                    assert(h@ + zero_groups(zeros as nat) + t@.take(j + 1) =~= (h@ + zero_groups(
                        zeros as nat,
                    ) + t@.take(j as int)).push(t@[j as int]));
                    j = j + 1;
                }
                assert(t@.take(t@.len() as int) =~= t@);
                Some(out)
            },
            _ => None,
        }
    } else {
        assert forall|j: int| !first_double_colon(s, j) by {
            if first_double_colon(s, j) {
                assert(j < k - lo);
            }
        }
        let ranges = split_ranges(chars, lo, hi, ':');
        proof {
            lemma_ranges_hold_pieces(chars@, ranges@, split_on(s, ':'));
        }
        match groups_of_ranges(chars, &ranges, true) {
            Some(g) => {
                if g.len() == 8 {
                    Some(g)
                } else {
                    None
                }
            },
            None => None,
        }
    }
}

/// An IP address in `chars[lo..hi]`.
fn parse_ip_range(chars: &Vec<char>, lo: usize, hi: usize) -> (r: Option<IpAddress>)
    requires
        lo <= hi <= chars.len(),
    ensures
        r == spec_parse_ip(chars@.subrange(lo as int, hi as int)),
{
    match parse_ipv4_range(chars, lo, hi) {
        Some(o) => Some(IpAddress::V4(o[0], o[1], o[2], o[3])),
        None => match parse_ipv6_range(chars, lo, hi) {
            Some(g) => Some(IpAddress::V6(g[0], g[1], g[2], g[3], g[4], g[5], g[6], g[7])),
            None => None,
        },
    }
}

impl IpAddress {
    /// Parses an IPv4 or IPv6 address, as `str::parse::<IpAddr>` does.
    pub fn parse(s: &str) -> (r: Option<IpAddress>)
        ensures
            r == spec_parse_ip(s@),
    {
        let chars = chars_of(s);
        assert(chars@.subrange(0, chars@.len() as int) =~= s@);
        parse_ip_range(&chars, 0, chars.len())
    }
}

/// An IP address in `chars[lo..hi]`, for the crate's other parsers.
pub fn parse_ip_in(chars: &Vec<char>, lo: usize, hi: usize) -> (r: Option<IpAddress>)
    requires
        lo <= hi <= chars.len(),
    ensures
        r == spec_parse_ip(chars@.subrange(lo as int, hi as int)),
{
    parse_ip_range(chars, lo, hi)
}

// ---------------------------------------------------------------------------
// Display
// ---------------------------------------------------------------------------

pub open spec fn hex_char(d: nat) -> char {
    if d < 10 {
        crate::text::digit_char(d)
    } else if d == 10 {
        'a'
    } else if d == 11 {
        'b'
    } else if d == 12 {
        'c'
    } else if d == 13 {
        'd'
    } else if d == 14 {
        'e'
    } else {
        'f'
    }
}

/// The shortest lower-case hexadecimal rendering of `n`, as `{:x}` prints it.
pub open spec fn hex_text(n: nat) -> Seq<char>
    decreases n,
{
    if n < 16 {
        seq![hex_char(n)]
    } else {
        hex_text(n / 16).push(hex_char(n % 16))
    }
}

/// Dotted-quad text of four octets.
pub open spec fn ipv4_text(o: Seq<u8>) -> Seq<char> {
    decimal_text(o[0] as nat) + seq!['.'] + decimal_text(o[1] as nat) + seq!['.'] + decimal_text(
        o[2] as nat,
    ) + seq!['.'] + decimal_text(o[3] as nat)
}

/// Groups in hexadecimal, separated by colons.
pub open spec fn groups_text(g: Seq<u16>) -> Seq<char> {
    join_with(g.map_values(|x: u16| hex_text(x as nat)), seq![':'])
}

/// The number of zero groups from index `i` on, up to the first non-zero one.
pub open spec fn zero_run(g: Seq<u16>, i: int) -> nat
    decreases g.len() - i,
{
    if 0 <= i < g.len() && g[i] == 0 {
        1 + zero_run(g, i + 1)
    } else {
        0
    }
}

/// `s` starts the first of the longest runs of zero groups.
pub open spec fn is_first_longest_zero_run(g: Seq<u16>, s: int) -> bool {
    &&& 0 <= s < g.len()
    &&& forall|i: int| 0 <= i < g.len() ==> zero_run(g, i) <= zero_run(g, s)
    &&& forall|i: int| 0 <= i < s ==> zero_run(g, i) < zero_run(g, s)
}

/// An IPv4-mapped IPv6 address, `::ffff:a.b.c.d`.
pub open spec fn is_ipv4_mapped(g: Seq<u16>) -> bool {
    g[0] == 0 && g[1] == 0 && g[2] == 0 && g[3] == 0 && g[4] == 0 && g[5] == 0xffff
}

pub open spec fn mapped_octets(g: Seq<u16>) -> Seq<u8> {
    seq![(g[6] / 256) as u8, (g[6] % 256) as u8, (g[7] / 256) as u8, (g[7] % 256) as u8]
}

/// The text that `Display` gives an IPv6 address: an IPv4-mapped address as
/// `::ffff:` and its dotted quad; otherwise the groups in hexadecimal with the
/// first of the longest runs of two or more zero groups written as `::`.
pub open spec fn ipv6_text(g: Seq<u16>) -> Seq<char> {
    if is_ipv4_mapped(g) {
        seq![':', ':', 'f', 'f', 'f', 'f', ':'] + ipv4_text(mapped_octets(g))
    } else {
        let s = choose|s: int| is_first_longest_zero_run(g, s);
        let l = zero_run(g, s);
        if l > 1 {
            groups_text(g.take(s)) + seq![':', ':'] + groups_text(g.skip(s + l))
        } else {
            groups_text(g)
        }
    }
}

pub open spec fn ip_groups(ip: IpAddress) -> Seq<u16> {
    match ip {
        IpAddress::V6(a, b, c, d, e, f, g, h) => seq![a, b, c, d, e, f, g, h],
        IpAddress::V4(..) => Seq::empty(),
    }
}

pub open spec fn ip_octets(ip: IpAddress) -> Seq<u8> {
    match ip {
        IpAddress::V4(a, b, c, d) => seq![a, b, c, d],
        IpAddress::V6(..) => Seq::empty(),
    }
}

/// The text that `Display` gives an IP address.
pub open spec fn ip_text(ip: IpAddress) -> Seq<char> {
    match ip {
        IpAddress::V4(..) => ipv4_text(ip_octets(ip)),
        IpAddress::V6(..) => ipv6_text(ip_groups(ip)),
    }
}

fn hex_char_exec(d: u64) -> (c: char)
    requires
        d < 16,
    ensures
        c == hex_char(d as nat),
{
    if d < 10 {
        crate::text::digit_char_exec(d)
    } else if d == 10 {
        'a'
    } else if d == 11 {
        'b'
    } else if d == 12 {
        'c'
    } else if d == 13 {
        'd'
    } else if d == 14 {
        'e'
    } else {
        'f'
    }
}

fn push_hex(out: &mut String, n: u64)
    ensures
        final(out)@ == old(out)@ + hex_text(n as nat),
    decreases n,
{
    if n < 16 {
        push_char(out, hex_char_exec(n));
        assert(old(out)@.push(hex_char(n as nat)) =~= old(out)@ + seq![hex_char(n as nat)]);
    } else {
        push_hex(out, n / 16);
        push_char(out, hex_char_exec(n % 16));
        assert(old(out)@ + hex_text((n / 16) as nat).push(hex_char((n % 16) as nat)) =~= (old(
            out,
        )@ + hex_text((n / 16) as nat)).push(hex_char((n % 16) as nat)));
    }
}

fn push_ipv4(out: &mut String, a: u8, b: u8, c: u8, d: u8)
    ensures
        final(out)@ == old(out)@ + ipv4_text(seq![a, b, c, d]),
{
    push_decimal(out, a as u64);
    push_char(out, '.');
    push_decimal(out, b as u64);
    push_char(out, '.');
    push_decimal(out, c as u64);
    push_char(out, '.');
    push_decimal(out, d as u64);
    let ghost o = seq![a, b, c, d];
    assert(o[0] == a && o[1] == b && o[2] == c && o[3] == d);
    assert(out@ =~= old(out)@ + ipv4_text(o));
}

/// Appends the groups `g[lo..hi]` in hexadecimal, separated by colons.
fn push_groups(out: &mut String, g: &Vec<u16>, lo: usize, hi: usize)
    requires
        lo <= hi <= g.len(),
    ensures
        final(out)@ == old(out)@ + groups_text(g@.subrange(lo as int, hi as int)),
{
    let ghost views = g@.subrange(lo as int, hi as int).map_values(|x: u16| hex_text(x as nat));
    let mut i: usize = lo;
    while i < hi
        invariant
            lo <= i <= hi <= g.len(),
            views == g@.subrange(lo as int, hi as int).map_values(|x: u16| hex_text(x as nat)),
            out@ == old(out)@ + join_with(views.take(i - lo), seq![':']),
        decreases hi - i,
    {
        if i > lo {
            push_char(out, ':');
        }
        push_hex(out, g[i] as u64);
        assert(views.take(i + 1 - lo).drop_last() =~= views.take(i - lo));
        assert(views[i - lo] == hex_text(g@[i as int] as nat));
        if i == lo {
            assert(views.take(1) =~= seq![views[0]]);
        }
        assert(out@ =~= old(out)@ + join_with(views.take(i + 1 - lo), seq![':']));
        i = i + 1;
    }
    assert(views.take(hi - lo) =~= views);
}

proof fn lemma_first_longest_unique(g: Seq<u16>, s1: int, s2: int)
    requires
        is_first_longest_zero_run(g, s1),
        is_first_longest_zero_run(g, s2),
    ensures
        s1 == s2,
{
    if s1 < s2 {
        assert(zero_run(g, s1) < zero_run(g, s2));
    } else if s2 < s1 {
        assert(zero_run(g, s2) < zero_run(g, s1));
    }
}

/// Appends the `Display` text of the IPv6 address with groups `g`.
fn push_ipv6(out: &mut String, g: &Vec<u16>)
    requires
        g.len() == 8,
    ensures
        final(out)@ == old(out)@ + ipv6_text(g@),
{
    if g[0] == 0 && g[1] == 0 && g[2] == 0 && g[3] == 0 && g[4] == 0 && g[5] == 0xffff {
        out.append("::ffff:");
        proof {
            reveal_strlit("::ffff:");
        }
        push_ipv4(out, (g[6] / 256) as u8, (g[6] % 256) as u8, (g[7] / 256) as u8, (g[7] % 256) as u8);
        assert(seq![(g@[6] / 256) as u8, (g@[6] % 256) as u8, (g@[7] / 256) as u8, (g@[7] % 256) as u8]
            =~= mapped_octets(g@));
        assert(out@ =~= old(out)@ + ipv6_text(g@));
        return ;
    }
    // runs[i] is the length of the run of zero groups starting at i.

    let mut runs: Vec<usize> = Vec::new();
    let mut k: usize = 0;
    while k < 8
        invariant
            g.len() == 8,
            k <= 8,
            runs@.len() == k,
            forall|i: int| 0 <= i < k ==> (#[trigger] runs@[i]) as nat == zero_run(g@, 8 - 1 - i),
            forall|i: int| 0 <= i < k ==> (#[trigger] runs@[i]) <= i + 1,
        decreases 8 - k,
    {
        let idx = 7 - k;
        let r: usize = if g[idx] == 0 {
            if k == 0 {
                1
            } else {
                runs[k - 1] + 1
            }
        } else {
            0
        };
        proof {
            if k == 0 {
                assert(zero_run(g@, 8) == 0);
            }
        }
        runs.push(r);
        k = k + 1;
    }
    // runs is stored back to front; find the first longest run.

    let mut best: usize = 0;
    let mut i: usize = 1;
    while i < 8
        invariant
            g.len() == 8,
            runs@.len() == 8,
            forall|j: int| 0 <= j < 8 ==> (#[trigger] runs@[j]) as nat == zero_run(g@, 8 - 1 - j),
            1 <= i <= 8,
            best < i,
            forall|j: int| 0 <= j < i ==> zero_run(g@, j) <= zero_run(g@, best as int),
            forall|j: int| 0 <= j < best ==> zero_run(g@, j) < zero_run(g@, best as int),
        decreases 8 - i,
    {
        assert(runs@[7 - i as int] as nat == zero_run(g@, i as int));
        assert(runs@[7 - best as int] as nat == zero_run(g@, best as int));
        if runs[7 - i] > runs[7 - best] {
            best = i;
        }
        i = i + 1;
    }
    assert(runs@[7 - best as int] as nat == zero_run(g@, best as int));
    let len = runs[7 - best];
    proof {
        assert(is_first_longest_zero_run(g@, best as int));
        let s = choose|s: int| is_first_longest_zero_run(g@, s);
        lemma_first_longest_unique(g@, s, best as int);
    }
    if len > 1 {
        proof {
            lemma_zero_run_bound(g@, best as int);
        }
        push_groups(out, g, 0, best);
        out.append("::");
        proof {
            reveal_strlit("::");
        }
        push_groups(out, g, best + len, 8);
        assert(g@.subrange(0, best as int) =~= g@.take(best as int));
        assert(g@.subrange(best + len, 8) =~= g@.skip(best + len));
        assert(out@ =~= old(out)@ + ipv6_text(g@));
    } else {
        push_groups(out, g, 0, 8);
        assert(g@.subrange(0, 8) =~= g@);
    }
}

proof fn lemma_zero_run_bound(g: Seq<u16>, i: int)
    requires
        0 <= i <= g.len(),
    ensures
        i + zero_run(g, i) <= g.len(),
    decreases g.len() - i,
{
    if i < g.len() && g[i] == 0 {
        lemma_zero_run_bound(g, i + 1);
    }
}

impl IpAddress {
    /// The text that `Display` gives this address.
    pub fn to_string(&self) -> (s: String)
        ensures
            s@ == ip_text(*self),
    {
        let mut out = String::new();
        match *self {
            IpAddress::V4(a, b, c, d) => {
                push_ipv4(&mut out, a, b, c, d);
            },
            IpAddress::V6(a, b, c, d, e, f, g, h) => {
                let groups: Vec<u16> = vec![a, b, c, d, e, f, g, h];
                push_ipv6(&mut out, &groups);
                assert(groups@ =~= ip_groups(*self));
            },
        }
        assert(out@ =~= ip_text(*self));
        out
    }
}

/// Appends the `Display` text of `ip` to `out`.
pub fn push_ip(out: &mut String, ip: IpAddress)
    ensures
        final(out)@ == old(out)@ + ip_text(ip),
{
    let t = ip.to_string();
    out.append(t.as_str());
}


// ---------------------------------------------------------------------------
// The displayed text parses back
// ---------------------------------------------------------------------------

/// A character that the text of an address may hold.
pub open spec fn is_address_char(c: char) -> bool {
    is_hex_digit(c) || c == ':' || c == '.'
}

proof fn lemma_hex_char(d: nat)
    requires
        d < 16,
    ensures
        is_hex_digit(hex_char(d)),
        hex_digit_value(hex_char(d)) == d,
{
    if d < 10 {
        lemma_digit_char(d);
    }
}

proof fn lemma_hex_text(n: nat)
    ensures
        hex_text(n).len() >= 1,
        forall|i: int| 0 <= i < hex_text(n).len() ==> is_hex_digit(#[trigger] hex_text(n)[i]),
        hex_value(hex_text(n)) == n,
        n < 16 ==> hex_text(n).len() == 1,
        n < 256 ==> hex_text(n).len() <= 2,
        n < 4096 ==> hex_text(n).len() <= 3,
        n < 65536 ==> hex_text(n).len() <= 4,
    decreases n,
{
    if n < 16 {
        lemma_hex_char(n);
        assert(hex_text(n) =~= seq![hex_char(n)]);
        assert(seq![hex_char(n)].drop_last() =~= Seq::<char>::empty());
        assert(hex_value(Seq::<char>::empty()) == 0);
        assert(hex_value(seq![hex_char(n)]) == hex_digit_value(hex_char(n)));
    } else {
        lemma_hex_text(n / 16);
        lemma_hex_char(n % 16);
        let t = hex_text(n / 16);
        assert(hex_text(n) == t.push(hex_char(n % 16)));
        assert(t.push(hex_char(n % 16)).drop_last() =~= t);
        assert(hex_value(hex_text(n)) == hex_value(t) * 16 + hex_digit_value(hex_char(n % 16)));
        assert(n == (n / 16) * 16 + n % 16);
        assert forall|i: int| 0 <= i < hex_text(n).len() implies is_hex_digit(#[trigger] hex_text(n)[i]) by {
            if i < t.len() {
                assert(hex_text(n)[i] == t[i]);
            }
        }
    }
}

/// The hexadecimal text of every group, in order.
pub open spec fn group_texts(g: Seq<u16>) -> Seq<Seq<char>> {
    g.map_values(|x: u16| hex_text(x as nat))
}

proof fn lemma_group_texts(g: Seq<u16>)
    ensures
        forall|k: int| 0 <= k < g.len() ==> is_group_text(#[trigger] group_texts(g)[k]),
        forall|k: int, i: int|
            0 <= k < g.len() && 0 <= i < group_texts(g)[k].len() ==> is_hex_digit(#[trigger] group_texts(g)[k][i]),
{
    assert forall|k: int| 0 <= k < g.len() implies is_group_text(#[trigger] group_texts(g)[k]) by {
        lemma_hex_text(g[k] as nat);
    }
    assert forall|k: int, i: int|
        0 <= k < g.len() && 0 <= i < group_texts(g)[k].len() implies is_hex_digit(#[trigger] group_texts(g)[k][i]) by {
        lemma_hex_text(g[k] as nat);
    }
}

proof fn lemma_groups_of_texts(g: Seq<u16>, v4_last: bool)
    ensures
        groups_of(group_texts(g), v4_last) == Some(g),
    decreases g.len(),
{
    if g.len() == 0 {
        assert(group_texts(g) =~= Seq::<Seq<char>>::empty());
        assert(g =~= Seq::<u16>::empty());
    } else {
        let front = g.drop_last();
        lemma_groups_of_texts(front, false);
        assert(group_texts(g).drop_last() =~= group_texts(front));
        lemma_hex_text(g.last() as nat);
        assert(group_texts(g).last() == hex_text(g.last() as nat));
        assert(front.push(g.last()) =~= g);
    }
}

/// The text of one or more groups neither starts nor ends with a colon,
/// holds no dot, and no two colons in a row.
proof fn lemma_groups_text_shape(g: Seq<u16>)
    requires
        g.len() >= 1,
    ensures
        groups_text(g).len() > 0,
        groups_text(g)[0] != ':',
        groups_text(g).last() != ':',
        forall|i: int| 0 <= i < groups_text(g).len() ==> #[trigger] groups_text(g)[i] != '.',
        forall|i: int| 0 <= i < groups_text(g).len() ==> is_address_char(#[trigger] groups_text(g)[i]),
        forall|k: int| !double_colon_at(groups_text(g), k),
    decreases g.len(),
{
    lemma_group_texts(g);
    let t = groups_text(g);
    if g.len() == 1 {
        assert(t == group_texts(g)[0]);
        assert forall|i: int| 0 <= i < t.len() implies t[i] != '.' && t[i] != ':' && is_hex_digit(t[i]) by {
            assert(is_hex_digit(group_texts(g)[0][i]));
        }
        assert forall|k: int| !double_colon_at(t, k) by {
            if double_colon_at(t, k) {
                assert(t[k] != ':');
            }
        }
    } else {
        let front = g.drop_last();
        lemma_groups_text_shape(front);
        assert(group_texts(g).drop_last() =~= group_texts(front));
        let j = groups_text(front);
        let last = group_texts(g).last();
        assert(t == j + seq![':'] + last);
        assert(is_group_text(group_texts(g)[g.len() - 1]));
        assert forall|i: int| 0 <= i < last.len() implies last[i] != '.' && last[i] != ':' && is_hex_digit(last[i]) by {
            assert(is_hex_digit(group_texts(g)[g.len() - 1][i]));
        }
        assert(t[0] == j[0]);
        assert(t.last() == last.last());
        assert forall|i: int| 0 <= i < t.len() implies #[trigger] t[i] != '.' && is_address_char(t[i]) by {
            if i < j.len() {
                assert(t[i] == j[i]);
            } else if i > j.len() {
                assert(t[i] == last[i - j.len() - 1]);
            }
        }
        assert forall|k: int| !double_colon_at(t, k) by {
            if double_colon_at(t, k) {
                if k + 1 < j.len() {
                    assert(t[k] == j[k] && t[k + 1] == j[k + 1]);
                    assert(double_colon_at(j, k));
                } else if k + 1 == j.len() {
                    assert(t[k] == j.last());
                } else if k == j.len() {
                    assert(t[k + 1] == last[0]);
                } else {
                    assert(t[k] == last[k - j.len() - 1]);
                }
            }
        }
    }
}

/// Splitting the text of one or more groups at the colons gives the
/// groups' texts back.
proof fn lemma_split_groups_text(g: Seq<u16>)
    requires
        g.len() >= 1,
    ensures
        split_on(groups_text(g), ':') == group_texts(g),
        colon_pieces(groups_text(g)) == group_texts(g),
{
    lemma_group_texts(g);
    lemma_groups_text_shape(g);
    assert forall|k: int, i: int|
        0 <= k < group_texts(g).len() && 0 <= i < group_texts(g)[k].len() implies #[trigger] group_texts(g)[k][i]
            != ':' by {
        assert(is_hex_digit(group_texts(g)[k][i]));
    }
    lemma_split_join(group_texts(g), ':');
}

/// The groups that the text of a possibly empty list of groups gives back.
proof fn lemma_groups_text_parses(g: Seq<u16>, v4_last: bool)
    ensures
        groups_of(colon_pieces(groups_text(g)), v4_last) == Some(g),
{
    if g.len() == 0 {
        assert(group_texts(g) =~= Seq::<Seq<char>>::empty());
        assert(groups_text(g) =~= Seq::<char>::empty());
        assert(colon_pieces(groups_text(g)) =~= Seq::<Seq<char>>::empty());
        assert(g =~= Seq::<u16>::empty());
    } else {
        lemma_split_groups_text(g);
        lemma_groups_of_texts(g, v4_last);
    }
}

/// The dotted-quad text of four octets parses back to them, is at least
/// seven characters long, and holds no colon.
proof fn lemma_ipv4_text_parses(o: Seq<u8>)
    requires
        o.len() == 4,
    ensures
        spec_parse_ipv4(ipv4_text(o)) == Some(o),
        ipv4_text(o).len() >= 7,
        forall|i: int| 0 <= i < ipv4_text(o).len() ==> #[trigger] ipv4_text(o)[i] != ':',
        forall|i: int| 0 <= i < ipv4_text(o).len() ==> is_address_char(#[trigger] ipv4_text(o)[i]),
{
    let d0 = decimal_text(o[0] as nat);
    let d1 = decimal_text(o[1] as nat);
    let d2 = decimal_text(o[2] as nat);
    let d3 = decimal_text(o[3] as nat);
    lemma_decimal_text(o[0] as nat);
    lemma_decimal_text(o[1] as nat);
    lemma_decimal_text(o[2] as nat);
    lemma_decimal_text(o[3] as nat);
    let ds = seq![d0, d1, d2, d3];
    assert forall|k: int, i: int| 0 <= k < 4 && 0 <= i < ds[k].len() implies #[trigger] ds[k][i] != '.'
        && ds[k][i] != ':' by {
        assert(is_ascii_digit(ds[k][i]));
    }
    assert forall|i: int| 0 <= i < d0.len() implies d0[i] != '.' by { assert(ds[0][i] != '.'); }
    assert forall|i: int| 0 <= i < d1.len() implies d1[i] != '.' by { assert(ds[1][i] != '.'); }
    assert forall|i: int| 0 <= i < d2.len() implies d2[i] != '.' by { assert(ds[2][i] != '.'); }
    assert forall|i: int| 0 <= i < d3.len() implies d3[i] != '.' by { assert(ds[3][i] != '.'); }
    lemma_split_without_sep(d0, '.');
    lemma_split_without_sep(d1, '.');
    lemma_split_without_sep(d2, '.');
    lemma_split_without_sep(d3, '.');
    lemma_split_concat(d0, d1, '.');
    lemma_split_concat(d0 + seq!['.'] + d1, d2, '.');
    lemma_split_concat(d0 + seq!['.'] + d1 + seq!['.'] + d2, d3, '.');
    let t = ipv4_text(o);
    let parts = split_on(t, '.');
    assert(parts =~= ds);
    assert forall|i: int| 0 <= i < 4 implies is_octet_text(#[trigger] parts[i]) by {
        assert(parts[i] == ds[i]);
        lemma_decimal_text(o[i] as nat);
    }
    assert(Seq::new(4, |i: int| decimal_value(parts[i]) as u8) =~= o);
    assert forall|i: int| 0 <= i < t.len() implies #[trigger] t[i] != ':' && is_address_char(t[i]) by {
        let a = d0.len();
        let b = a + 1 + d1.len();
        let c = b + 1 + d2.len();
        if i < a {
            assert(t[i] == ds[0][i]);
        } else if a < i < b {
            assert(t[i] == ds[1][i - a - 1]);
        } else if b < i < c {
            assert(t[i] == ds[2][i - b - 1]);
        } else if c < i {
            assert(t[i] == ds[3][i - c - 1]);
        }
    }
}


/// `b` starts the first of the longest runs of zero groups among the
/// first `n` positions.
pub open spec fn first_longest_below(g: Seq<u16>, n: int, b: int) -> bool {
    &&& 0 <= b < n
    &&& forall|i: int| 0 <= i < n ==> zero_run(g, i) <= zero_run(g, b)
    &&& forall|i: int| 0 <= i < b ==> zero_run(g, i) < zero_run(g, b)
}

proof fn lemma_first_longest_below_exists(g: Seq<u16>, n: int)
    requires
        1 <= n,
    ensures
        exists|b: int| #[trigger] first_longest_below(g, n, b),
    decreases n,
{
    if n == 1 {
        assert(first_longest_below(g, 1, 0));
    } else {
        lemma_first_longest_below_exists(g, n - 1);
        let b = choose|b: int| #[trigger] first_longest_below(g, n - 1, b);
        if zero_run(g, n - 1) > zero_run(g, b) {
            assert(first_longest_below(g, n, n - 1));
        } else {
            assert(first_longest_below(g, n, b));
        }
    }
}

proof fn lemma_first_longest_exists(g: Seq<u16>)
    requires
        g.len() >= 1,
    ensures
        exists|s: int| is_first_longest_zero_run(g, s),
{
    lemma_first_longest_below_exists(g, g.len() as int);
    let b = choose|b: int| #[trigger] first_longest_below(g, g.len() as int, b);
    assert(is_first_longest_zero_run(g, b));
}

proof fn lemma_zero_run_zeros(g: Seq<u16>, i: int)
    requires
        0 <= i <= g.len(),
    ensures
        i + zero_run(g, i) <= g.len(),
        forall|j: int| i <= j < i + zero_run(g, i) ==> g[j] == 0,
    decreases g.len() - i,
{
    if i < g.len() && g[i] == 0 {
        lemma_zero_run_zeros(g, i + 1);
    }
}

/// Text with a first `::` at `k` splits there into head and tail.
proof fn lemma_first_double_colon_at(s: Seq<char>, k: int)
    requires
        first_double_colon(s, k),
    ensures
        exists|j: int| first_double_colon(s, j),
        (choose|j: int| first_double_colon(s, j)) == k,
{
    let j = choose|j: int| first_double_colon(s, j);
    lemma_first_double_colon_unique(s, j, k);
}

/// The text of an IPv4-mapped address parses back to its groups, and not as
/// an IPv4 address.
proof fn lemma_mapped_text_parses(g: Seq<u16>)
    requires
        g.len() == 8,
        is_ipv4_mapped(g),
    ensures
        spec_parse_ipv6(ipv6_text(g)) == Some(g),
        spec_parse_ipv4(ipv6_text(g)) is None,
{
    let o = mapped_octets(g);
    let v = ipv4_text(o);
    let p = seq![':', ':', 'f', 'f', 'f', 'f', ':'];
    let t = p + v;
    assert(ipv6_text(g) == t);
    assert(spec_parse_ipv4(v) == Some(o) && v.len() >= 7 && forall|i: int| 0 <= i < v.len() ==> #[trigger] v[i]
        != ':') by {
        lemma_ipv4_text_parses(o);
    }
    // The text has its first `::` at the start.
    assert(first_double_colon(t, 0));
    lemma_first_double_colon_at(t, 0);
    assert(t.take(0) =~= Seq::<char>::empty());
    assert(colon_pieces(t.take(0)) =~= Seq::<Seq<char>>::empty());
    assert(groups_of(colon_pieces(t.take(0)), false) == Some(Seq::<u16>::empty()));
    let f = seq!['f', 'f', 'f', 'f'];
    assert(t.skip(2) =~= f + seq![':'] + v);
    lemma_split_concat(f, v, ':');
    lemma_split_without_sep(f, ':');
    lemma_split_without_sep(v, ':');
    let pieces = colon_pieces(t.skip(2));
    assert(pieces =~= seq![f, v]);
    assert(hex_value(f) == 65535) by {
        reveal_with_fuel(hex_value, 5);
        assert(f.drop_last() =~= seq!['f', 'f', 'f']);
        assert(f.drop_last().drop_last() =~= seq!['f', 'f']);
        assert(f.drop_last().drop_last().drop_last() =~= seq!['f']);
        assert(seq!['f'].drop_last() =~= Seq::<char>::empty());
    }
    assert(is_group_text(f));
    assert(pieces.drop_last() =~= seq![f]);
    assert(seq![f].drop_last() =~= Seq::<Seq<char>>::empty());
    assert(groups_of(seq![f], false) == Some(seq![65535u16])) by {
        assert(groups_of(Seq::<Seq<char>>::empty(), false) == Some(Seq::<u16>::empty()));
        assert(Seq::<u16>::empty().push(65535u16) =~= seq![65535u16]);
    }
    assert(!is_group_text(v));
    let tail = seq![65535u16] + v4_groups(o);
    assert(groups_of(pieces, true) == Some(tail));
    // The octets recombine into the last two groups.
    assert(g[6] == (g[6] / 256) * 256 + g[6] % 256);
    assert(g[7] == (g[7] / 256) * 256 + g[7] % 256);
    assert(v4_groups(o) =~= seq![g[6], g[7]]);
    assert(zero_groups(5) + tail =~= g);
    // Split at the dots, the first piece starts with a colon.
    let d0 = decimal_text(o[0] as nat);
    let rest = decimal_text(o[1] as nat) + seq!['.'] + decimal_text(o[2] as nat) + seq!['.']
        + decimal_text(o[3] as nat);
    assert(t =~= (p + d0) + seq!['.'] + rest);
    lemma_split_on_nonempty(rest, '.');
    lemma_split_concat(p + d0, rest, '.');
    lemma_decimal_text(o[0] as nat);
    assert forall|i: int| 0 <= i < (p + d0).len() implies (p + d0)[i] != '.' by {
        if i >= 7 {
            assert((p + d0)[i] == d0[i - 7]);
        }
    }
    lemma_split_without_sep(p + d0, '.');
    let parts = split_on(t, '.');
    assert(parts[0] == p + d0);
    assert(!is_octet_text(parts[0])) by {
        assert(parts[0][0] == ':');
    }
}


/// The text of an address that is not IPv4-mapped parses back to its
/// groups, and not as an IPv4 address.
proof fn lemma_unmapped_text_parses(g: Seq<u16>)
    requires
        g.len() == 8,
        !is_ipv4_mapped(g),
    ensures
        spec_parse_ipv6(ipv6_text(g)) == Some(g),
        spec_parse_ipv4(ipv6_text(g)) is None,
{
    lemma_first_longest_exists(g);
    let s = choose|s: int| is_first_longest_zero_run(g, s);
    let l = zero_run(g, s);
    lemma_zero_run_zeros(g, s);
    let t = ipv6_text(g);
    if l > 1 {
        let head = g.take(s);
        let tail = g.skip(s + l);
        let h = groups_text(head);
        let r = groups_text(tail);
        assert(t == h + seq![':', ':'] + r);
        if head.len() > 0 {
            lemma_groups_text_shape(head);
        } else {
            assert(group_texts(head) =~= Seq::<Seq<char>>::empty());
            assert(h =~= Seq::<char>::empty());
        }
        if tail.len() > 0 {
            lemma_groups_text_shape(tail);
        } else {
            assert(group_texts(tail) =~= Seq::<Seq<char>>::empty());
            assert(r =~= Seq::<char>::empty());
        }
        // The first `::` is the one between head and tail.
        let k = h.len() as int;
        assert(first_double_colon(t, k)) by {
            assert forall|j: int| 0 <= j < k implies !double_colon_at(t, j) by {
                if double_colon_at(t, j) {
                    if j + 1 < k {
                        assert(t[j] == h[j] && t[j + 1] == h[j + 1]);
                        assert(double_colon_at(h, j));
                    } else {
                        assert(t[j] == h.last());
                    }
                }
            }
        }
        lemma_first_double_colon_at(t, k);
        assert(t.take(k) =~= h);
        assert(t.skip(k + 2) =~= r);
        lemma_groups_text_parses(head, false);
        lemma_groups_text_parses(tail, true);
        assert(head + zero_groups((8 - head.len() - tail.len()) as nat) + tail =~= g);
        // No dot anywhere: a single piece.
        assert forall|i: int| 0 <= i < t.len() implies t[i] != '.' by {
            if i < k {
                assert(t[i] == h[i]);
            } else if i >= k + 2 {
                assert(t[i] == r[i - k - 2]);
            }
        }
    } else {
        assert(t == groups_text(g));
        lemma_groups_text_shape(g);
        assert(!exists|k: int| first_double_colon(t, k));
        lemma_split_groups_text(g);
        lemma_groups_of_texts(g, true);
    }
    lemma_split_without_sep(t, '.');
}

/// Display, then parse: the text that `Display` gives an address is parsed
/// back as that same address.
pub proof fn law_displayed_address_parses_back(ip: IpAddress)
    ensures
        spec_parse_ip(ip_text(ip)) == Some(ip),
{
    match ip {
        IpAddress::V4(a, b, c, d) => {
            lemma_ipv4_text_parses(ip_octets(ip));
        },
        IpAddress::V6(..) => {
            let g = ip_groups(ip);
            if is_ipv4_mapped(g) {
                lemma_mapped_text_parses(g);
            } else {
                lemma_unmapped_text_parses(g);
            }
        },
    }
}


/// The text of an address is not empty and holds only hexadecimal digits,
/// colons and dots.
pub proof fn lemma_ip_text_chars(ip: IpAddress)
    ensures
        ip_text(ip).len() > 0,
        forall|i: int| 0 <= i < ip_text(ip).len() ==> is_address_char(#[trigger] ip_text(ip)[i]),
{
    match ip {
        IpAddress::V4(..) => {
            lemma_ipv4_text_parses(ip_octets(ip));
        },
        IpAddress::V6(..) => {
            let g = ip_groups(ip);
            let t = ipv6_text(g);
            if is_ipv4_mapped(g) {
                let o = mapped_octets(g);
                lemma_ipv4_text_parses(o);
                let p = seq![':', ':', 'f', 'f', 'f', 'f', ':'];
                assert(t == p + ipv4_text(o));
                assert forall|i: int| 0 <= i < t.len() implies is_address_char(#[trigger] t[i]) by {
                    if i >= 7 {
                        assert(t[i] == ipv4_text(o)[i - 7]);
                    }
                }
            } else {
                lemma_first_longest_exists(g);
                let s = choose|s: int| is_first_longest_zero_run(g, s);
                let l = zero_run(g, s);
                lemma_zero_run_zeros(g, s);
                if l > 1 {
                    let head = g.take(s);
                    let tail = g.skip(s + l);
                    let h = groups_text(head);
                    let r = groups_text(tail);
                    assert(t == h + seq![':', ':'] + r);
                    if head.len() > 0 {
                        lemma_groups_text_shape(head);
                    }
                    if tail.len() > 0 {
                        lemma_groups_text_shape(tail);
                    } else {
                        assert(group_texts(tail) =~= Seq::<Seq<char>>::empty());
                        assert(r =~= Seq::<char>::empty());
                    }
                    if head.len() == 0 {
                        assert(group_texts(head) =~= Seq::<Seq<char>>::empty());
                        assert(h =~= Seq::<char>::empty());
                    }
                    assert forall|i: int| 0 <= i < t.len() implies is_address_char(#[trigger] t[i]) by {
                        if i < h.len() {
                            assert(t[i] == h[i]);
                        } else if i >= h.len() + 2 {
                            assert(t[i] == r[i - h.len() - 2]);
                        }
                    }
                } else {
                    lemma_groups_text_shape(g);
                }
            }
        },
    }
}

} // verus!
