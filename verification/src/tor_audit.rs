//! The privacy audit made through the Tor network: the request to the IP
//! echo service, the reading of its reply, and the decisions of the audit
//! as a state machine that the caller drives through the network steps.

use vstd::prelude::*;

use crate::ip::{ip_text, push_ip, IpAddress};
use crate::model::{error_text, Error, ExitNode, PrivacyReport};
use crate::text::{chars_of, string_of_range, string_views, trim, trim_range};

verus! {

// ---------------------------------------------------------------------------
// The IP echo service
// ---------------------------------------------------------------------------

/// The port of the IP echo service.
pub const IP_ECHO_PORT: u16 = 80;

pub open spec fn ip_echo_host_text() -> Seq<char> {
    "ifconfig.me"@
}

/// The host of the IP echo service that reports the external address.
pub fn ip_echo_host() -> (h: &'static str)
    ensures
        h@ == ip_echo_host_text(),
{
    "ifconfig.me"
}

pub open spec fn echo_request_text() -> Seq<char> {
    "GET / HTTP/1.1\r\nHost: ifconfig.me\r\nConnection: close\r\n\r\n"@
}

/// The minimal HTTP/1.1 request sent to the IP echo service.
pub fn echo_request() -> (r: String)
    ensures
        r@ == echo_request_text(),
{
    String::from_str("GET / HTTP/1.1\r\nHost: ifconfig.me\r\nConnection: close\r\n\r\n")
}

/// The text that `String::from_utf8_lossy` makes of a byte sequence.
pub uninterp spec fn utf8_lossy(bytes: Seq<u8>) -> Seq<char>;

/// Calls `String::from_utf8_lossy`, which decodes UTF-8 and replaces each
/// invalid sequence by U+FFFD; where the bytes are valid UTF-8 the text is
/// their decoding. How invalid sequences are replaced is left unstated.
#[verifier::external_body]
fn lossy_text(bytes: &[u8]) -> (s: String)
    ensures
        s@ == utf8_lossy(bytes@),
        vstd::utf8::valid_utf8(bytes@) ==> s@ == vstd::utf8::decode_utf8(bytes@),
{
    String::from_utf8_lossy(bytes).into_owned()
}

/// `pat` occurs in `s` at index `i`.
pub open spec fn occurs_at(s: Seq<char>, pat: Seq<char>, i: int) -> bool {
    0 <= i && i + pat.len() <= s.len() && s.subrange(i, i + pat.len()) == pat
}

/// `i` is the first index at which `pat` occurs in `s`.
pub open spec fn first_occurrence(s: Seq<char>, pat: Seq<char>, i: int) -> bool {
    occurs_at(s, pat, i) && forall|j: int| 0 <= j < i ==> !occurs_at(s, pat, j)
}

/// `s` up to the first occurrence of `pat`, or all of `s`.
pub open spec fn before_first(s: Seq<char>, pat: Seq<char>) -> Seq<char> {
    if exists|i: int| first_occurrence(s, pat, i) {
        s.take(choose|i: int| first_occurrence(s, pat, i))
    } else {
        s
    }
}

/// `s.split(pat).nth(1)`: the text between the first and the second
/// occurrence of `pat` (or the end), `None` where `pat` does not occur.
pub open spec fn second_piece(s: Seq<char>, pat: Seq<char>) -> Option<Seq<char>> {
    if exists|i: int| first_occurrence(s, pat, i) {
        let i = choose|i: int| first_occurrence(s, pat, i);
        Some(before_first(s.skip(i + pat.len()), pat))
    } else {
        None
    }
}

pub open spec fn header_end() -> Seq<char> {
    seq!['\r', '\n', '\r', '\n']
}

/// The body of a decoded echo reply: the text after the first blank line
/// (up to a second one), trimmed; empty where there is no blank line.
pub open spec fn echo_text_body(text: Seq<char>) -> Seq<char> {
    match second_piece(text, header_end()) {
        Some(b) => trim(b),
        None => Seq::empty(),
    }
}

/// The body of the echo reply as it reads in bytes.
pub open spec fn echo_body(response: Seq<u8>) -> Seq<char> {
    echo_text_body(utf8_lossy(response))
}

pub open spec fn empty_echo_text() -> Seq<char> {
    "empty response body from IP echo service"@
}

proof fn lemma_first_occurrence_unique(s: Seq<char>, pat: Seq<char>, i: int, j: int)
    requires
        first_occurrence(s, pat, i),
        first_occurrence(s, pat, j),
    ensures
        i == j,
{
}

/// The first index at or after `from` at which `\r\n\r\n` occurs in `chars`.
fn find_header_end(chars: &Vec<char>, from: usize) -> (r: Option<usize>)
    requires
        from <= chars.len(),
    ensures
        r matches Some(i) ==> from <= i && first_occurrence(
            chars@.skip(from as int),
            header_end(),
            i - from,
        ),
        r is None ==> forall|k: int| !first_occurrence(chars@.skip(from as int), header_end(), k),
{
    let ghost s = chars@.skip(from as int);
    let mut i: usize = from;
    while i < chars.len() && chars.len() - i >= 4
        invariant
            from <= i <= chars.len(),
            s == chars@.skip(from as int),
            forall|k: int| 0 <= k < i - from ==> !occurs_at(s, header_end(), k),
        decreases chars.len() - i,
    {
        if chars[i] == '\r' && chars[i + 1] == '\n' && chars[i + 2] == '\r' && chars[i + 3] == '\n' {
            assert(s.subrange(i - from, i - from + 4) =~= header_end());
            return Some(i);
        }
        assert(!occurs_at(s, header_end(), i - from)) by {
            if occurs_at(s, header_end(), i - from) {
                assert(s.subrange(i - from, i - from + 4)[0] == chars@[i as int]);
                assert(s.subrange(i - from, i - from + 4)[1] == chars@[i + 1]);
                assert(s.subrange(i - from, i - from + 4)[2] == chars@[i + 2]);
                assert(s.subrange(i - from, i - from + 4)[3] == chars@[i + 3]);
            }
        }
        i = i + 1;
    }
    assert forall|k: int| !first_occurrence(s, header_end(), k) by {
        if first_occurrence(s, header_end(), k) {
            assert(k >= i - from);
        }
    }
    None
}

/// Reads the external address from the echo service's reply: the body after
/// the header, trimmed; an error where it is empty.
pub fn extract_echo_body(response: &[u8]) -> (r: Result<String, Error>)
    ensures
        echo_body(response@).len() > 0 ==> (r matches Ok(s) && s@ == echo_body(response@)),
        echo_body(response@).len() == 0 ==> (r matches Err(Error::Parse(m)) && m@ == empty_echo_text()),
{
    let text = lossy_text(response);
    echo_body_of(text.as_str())
}

/// Reads the external address from the decoded text of the echo service's
/// reply: the text after the first blank line (up to a second one),
/// trimmed; an error where it is empty.
pub fn echo_body_of(text: &str) -> (r: Result<String, Error>)
    ensures
        echo_text_body(text@).len() > 0 ==> (r matches Ok(s) && s@ == echo_text_body(text@)),
        echo_text_body(text@).len() == 0 ==> (r matches Err(Error::Parse(m)) && m@ == empty_echo_text()),
{
    let chars = chars_of(text);
    let ghost s = chars@;
    let n = chars.len();
    let (lo, hi): (usize, usize) = match find_header_end(&chars, 0) {
        None => {
            assert(s.skip(0) =~= s);
            (0, 0)
        },
        Some(i) => {
            assert(s.skip(0) =~= s);
            let ghost ii = choose|k: int| first_occurrence(s, header_end(), k);
            proof {
                lemma_first_occurrence_unique(s, header_end(), ii, i as int);
            }
            let start = i + 4;
            let ghost rest = s.skip(start as int);
            match find_header_end(&chars, start) {
                None => {
                    assert(rest =~= chars@.subrange(start as int, n as int));
                    (start, n)
                },
                Some(j) => {
                    let ghost jj = choose|k: int| first_occurrence(rest, header_end(), k);
                    proof {
                        lemma_first_occurrence_unique(rest, header_end(), jj, j - start);
                    }
                    assert(rest.take(j - start) =~= chars@.subrange(start as int, j as int));
                    (start, j)
                },
            }
        },
    };
    assert(chars@.subrange(0, 0) =~= Seq::<char>::empty());
    assert(trim(Seq::<char>::empty()) =~= Seq::<char>::empty());
    let (a, b) = trim_range(&chars, lo, hi);
    if a == b {
        Err(Error::Parse(String::from_str("empty response body from IP echo service")))
    } else {
        Ok(string_of_range(&chars, a, b))
    }
}

// ---------------------------------------------------------------------------
// The audit
// ---------------------------------------------------------------------------

pub open spec fn not_ready_text() -> Seq<char> {
    "Tor transport is not ready — bootstrap may still be in progress"@
}

pub open spec fn no_external_ip_text(e: Error) -> Seq<char> {
    "Could not determine external IP through Tor: "@ + error_text(e)
}

pub open spec fn invalid_echo_ip_text(s: Seq<char>) -> Seq<char> {
    "invalid IP from echo service: "@ + s + ": invalid IP address syntax"@
}

pub open spec fn routing_text(ip: IpAddress, is_exit: bool) -> Seq<char> {
    if !is_exit {
        "DNS leak detected: external IP "@ + ip_text(ip)
            + " is not a known Tor exit node — DNS queries may be leaking outside the Tor circuit"@
    } else {
        "External IP "@ + ip_text(ip) + " is a known Tor exit — traffic is properly routed"@
    }
}

pub open spec fn fingerprint_text(fp: Seq<char>) -> Seq<char> {
    "Exit node fingerprint: "@ + fp
}

pub open spec fn cli_webrtc_text() -> Seq<char> {
    "WebRTC leak check: not applicable in CLI context — disable WebRTC in browsers"@
}

pub open spec fn hidden_ip_text() -> Seq<char> {
    "IP exposure: Tor is active, real IP should be hidden from destination servers"@
}

/// `k` is the first exit node listed with address `ip`.
pub open spec fn is_first_exit_at(exits: Seq<ExitNode>, ip: IpAddress, k: int) -> bool {
    &&& 0 <= k < exits.len()
    &&& exits[k].address == ip
    &&& forall|j: int| 0 <= j < k ==> exits[j].address != ip
}

/// The fingerprint of the first exit node with address `ip`, where it has
/// a non-empty one.
pub open spec fn exit_fingerprint_for(exits: Seq<ExitNode>, ip: IpAddress) -> Option<String> {
    if exists|k: int| is_first_exit_at(exits, ip, k) {
        let k = choose|k: int| is_first_exit_at(exits, ip, k);
        if exits[k].fingerprint@.len() > 0 {
            Some(exits[k].fingerprint)
        } else {
            None
        }
    } else {
        None
    }
}

/// The recommendations of a completed audit.
pub open spec fn completed_recommendations(ip: IpAddress, is_exit: bool, fp: Option<String>) -> Seq<Seq<char>> {
    seq![routing_text(ip, is_exit)] + match fp {
        Some(f) => seq![fingerprint_text(f@)],
        None => Seq::empty(),
    } + seq![cli_webrtc_text()] + if is_exit {
        seq![hidden_ip_text()]
    } else {
        Seq::empty()
    }
}

/// `report` is the outcome of an audit whose external address is `ip`,
/// which the exit check did (or did not) find among the exits, with
/// `exits` the exit nodes listed.
pub open spec fn is_completed_report(report: PrivacyReport, ip: IpAddress, is_exit: bool, exits: Seq<ExitNode>) -> bool {
    &&& report.dns_leak == !is_exit
    &&& !report.webrtc_leak
    &&& !report.ip_exposed
    &&& report.tor_detected == is_exit
    &&& report.exit_fingerprint == exit_fingerprint_for(exits, ip)
    &&& string_views(report.recommendations@) == completed_recommendations(
        ip,
        is_exit,
        report.exit_fingerprint,
    )
}

/// A report with no findings and the given recommendations.
pub open spec fn is_plain_report(report: PrivacyReport, tor_detected: bool, rec: Seq<char>) -> bool {
    &&& !report.dns_leak
    &&& !report.webrtc_leak
    &&& !report.ip_exposed
    &&& report.tor_detected == tor_detected
    &&& report.exit_fingerprint is None
    &&& string_views(report.recommendations@) == seq![rec]
}

/// Where an audit through Tor stands.
pub enum TorAudit {
    /// It waits to hear whether the transport is ready.
    AwaitingTransport,
    /// It waits for the external address that the echo service reports.
    AwaitingExternalIp,
    /// It waits to hear whether the external address is a known exit.
    AwaitingExitCheck { external_ip: IpAddress },
    /// It waits for the list of exit nodes.
    AwaitingExitList { external_ip: IpAddress, is_exit: bool },
    /// It has reported.
    Finished,
}

/// What the caller does next for the audit.
pub enum TorAuditAction {
    /// Ask whether the Tor transport is bootstrapped.
    CheckTransportReady,
    /// Fetch the external address through Tor.
    FetchExternalIp,
    /// Ask the exit detector whether the address is a known exit.
    CheckIsExit(IpAddress),
    /// Ask the exit detector for its list of exit nodes.
    ListExits,
    /// The audit is over with this outcome.
    Report(Result<PrivacyReport, Error>),
}

/// What the caller learnt from the last action.
pub enum TorAuditEvent {
    TransportReady(bool),
    ExternalIp(Result<String, Error>),
    IsExit(Result<bool, Error>),
    Exits(Result<Vec<ExitNode>, Error>),
}

/// The event answers the action that the state asked for.
pub open spec fn answers(state: TorAudit, event: TorAuditEvent) -> bool {
    match (state, event) {
        (TorAudit::AwaitingTransport, TorAuditEvent::TransportReady(_)) => true,
        (TorAudit::AwaitingExternalIp, TorAuditEvent::ExternalIp(_)) => true,
        (TorAudit::AwaitingExitCheck { .. }, TorAuditEvent::IsExit(_)) => true,
        (TorAudit::AwaitingExitList { .. }, TorAuditEvent::Exits(_)) => true,
        _ => false,
    }
}

fn plain_report(tor_detected: bool, rec: String) -> (report: PrivacyReport)
    ensures
        is_plain_report(report, tor_detected, rec@),
{
    let mut recommendations: Vec<String> = Vec::new();
    recommendations.push(rec);
    assert(string_views(recommendations@) =~= seq![rec@]);
    PrivacyReport {
        dns_leak: false,
        webrtc_leak: false,
        ip_exposed: false,
        tor_detected,
        exit_fingerprint: None,
        recommendations,
    }
}

fn exit_fingerprint_of(exits: &Vec<ExitNode>, ip: IpAddress) -> (fp: Option<String>)
    ensures
        fp == exit_fingerprint_for(exits@, ip),
{
    let mut i: usize = 0;
    while i < exits.len()
        invariant
            i <= exits.len(),
            forall|j: int| 0 <= j < i ==> exits@[j].address != ip,
        decreases exits.len() - i,
    {
        if exits[i].address == ip {
            assert(is_first_exit_at(exits@, ip, i as int));
            let ghost k = choose|k: int| is_first_exit_at(exits@, ip, k);
            assert(k == i as int) by {
                if k < i {
                } else if k > i {
                    assert(exits@[i as int].address != ip);
                }
            }
            if exits[i].fingerprint.as_str().is_empty() {
                return None;
            } else {
                return Some(exits[i].fingerprint.clone());
            }
        }
        i = i + 1;
    }
    assert forall|k: int| !is_first_exit_at(exits@, ip, k) by {}
    None
}

fn routing_recommendation(ip: IpAddress, is_exit: bool) -> (s: String)
    ensures
        s@ == routing_text(ip, is_exit),
{
    if !is_exit {
        let mut s = String::from_str("DNS leak detected: external IP ");
        push_ip(&mut s, ip);
        s.append(" is not a known Tor exit node — DNS queries may be leaking outside the Tor circuit");
        s
    } else {
        let mut s = String::from_str("External IP ");
        push_ip(&mut s, ip);
        s.append(" is a known Tor exit — traffic is properly routed");
        s
    }
}

fn completed_report(ip: IpAddress, is_exit: bool, exits: &Vec<ExitNode>) -> (report: PrivacyReport)
    ensures
        is_completed_report(report, ip, is_exit, exits@),
{
    let mut recommendations: Vec<String> = Vec::new();
    recommendations.push(routing_recommendation(ip, is_exit));
    let exit_fingerprint = exit_fingerprint_of(exits, ip);
    match &exit_fingerprint {
        Some(fp) => {
            let mut s = String::from_str("Exit node fingerprint: ");
            s.append(fp.as_str());
            recommendations.push(s);
        },
        None => {},
    }
    recommendations.push(
        String::from_str("WebRTC leak check: not applicable in CLI context — disable WebRTC in browsers"),
    );
    if is_exit {
        recommendations.push(
            String::from_str("IP exposure: Tor is active, real IP should be hidden from destination servers"),
        );
    }
    assert(string_views(recommendations@) =~= completed_recommendations(ip, is_exit, exit_fingerprint));
    PrivacyReport {
        dns_leak: !is_exit,
        webrtc_leak: false,
        ip_exposed: false,
        tor_detected: is_exit,
        exit_fingerprint,
        recommendations,
    }
}

/// How many more answers the audit waits for at most.
pub open spec fn steps_left(state: TorAudit) -> nat {
    match state {
        TorAudit::AwaitingTransport => 4,
        TorAudit::AwaitingExternalIp => 3,
        TorAudit::AwaitingExitCheck { .. } => 2,
        TorAudit::AwaitingExitList { .. } => 1,
        TorAudit::Finished => 0,
    }
}

/// The exit nodes that a listing gave, none where it failed.
pub open spec fn exits_or_none(r: Result<Vec<ExitNode>, Error>) -> Seq<ExitNode> {
    match r {
        Ok(v) => v@,
        Err(_) => Seq::empty(),
    }
}

impl TorAudit {
    /// An audit begins by asking whether the transport is ready.
    pub fn start() -> (r: (TorAudit, TorAuditAction))
        ensures
            r.0 is AwaitingTransport,
            r.1 is CheckTransportReady,
            steps_left(r.0) == 4,
    {
        (TorAudit::AwaitingTransport, TorAuditAction::CheckTransportReady)
    }

    /// Takes in the answer to the last action and tells the next one.
    ///
    /// - A transport that is not ready ends the audit with a report that
    ///   finds nothing and says so.
    /// - Where the external address cannot be fetched, the audit ends with a
    ///   report that finds Tor but nothing else, and names the error.
    /// - An external address that does not read as an IP address ends the
    ///   audit with a parse error.
    /// - A failed exit check counts as "not an exit", and a failed listing
    ///   as an empty list.
    /// - The completed report finds a DNS leak exactly where the address is
    ///   no known exit, and Tor exactly where it is one.
    ///
    /// Every step brings the audit closer to its end, so that it reports
    /// after at most four answers, and it reports exactly when it finishes.
    pub fn step(self, event: TorAuditEvent) -> (r: (TorAudit, TorAuditAction))
        requires
            answers(self, event),
        ensures
            steps_left(r.0) < steps_left(self),
            (r.0 is Finished) == (r.1 is Report),
            (self, event) matches (TorAudit::AwaitingTransport, TorAuditEvent::TransportReady(ready))
                ==> if ready {
                r.0 is AwaitingExternalIp && r.1 is FetchExternalIp
            } else {
                r.0 is Finished && (r.1 matches TorAuditAction::Report(Ok(report)) && is_plain_report(
                    report,
                    false,
                    not_ready_text(),
                ))
            },
            (self, event) matches (TorAudit::AwaitingExternalIp, TorAuditEvent::ExternalIp(Err(e)))
                ==> r.0 is Finished && (r.1 matches TorAuditAction::Report(Ok(report)) && is_plain_report(
                report,
                true,
                no_external_ip_text(e),
            )),
            (self, event) matches (TorAudit::AwaitingExternalIp, TorAuditEvent::ExternalIp(Ok(s))) ==> match
            crate::ip::spec_parse_ip(s@) {
                Some(ip) => r.0 == (TorAudit::AwaitingExitCheck { external_ip: ip }) && r.1
                    == TorAuditAction::CheckIsExit(ip),
                None => r.0 is Finished && (r.1 matches TorAuditAction::Report(Err(Error::Parse(m)))
                    && m@ == invalid_echo_ip_text(s@)),
            },
            (self, event) matches (TorAudit::AwaitingExitCheck { external_ip }, TorAuditEvent::IsExit(found))
                ==> r.0 == (TorAudit::AwaitingExitList {
                external_ip,
                is_exit: found matches Ok(true),
            }) && r.1 is ListExits,
            (self, event) matches (
                TorAudit::AwaitingExitList { external_ip, is_exit },
                TorAuditEvent::Exits(exits),
            ) ==> r.0 is Finished && (r.1 matches TorAuditAction::Report(Ok(report)) && is_completed_report(
                report,
                external_ip,
                is_exit,
                exits_or_none(exits),
            )),
    {
        match (self, event) {
            (TorAudit::AwaitingTransport, TorAuditEvent::TransportReady(ready)) => {
                if ready {
                    (TorAudit::AwaitingExternalIp, TorAuditAction::FetchExternalIp)
                } else {
                    let rec = String::from_str("Tor transport is not ready — bootstrap may still be in progress");
                    (TorAudit::Finished, TorAuditAction::Report(Ok(plain_report(false, rec))))
                }
            },
            (TorAudit::AwaitingExternalIp, TorAuditEvent::ExternalIp(Err(e))) => {
                let mut rec = String::from_str("Could not determine external IP through Tor: ");
                let m = e.message();
                rec.append(m.as_str());
                (TorAudit::Finished, TorAuditAction::Report(Ok(plain_report(true, rec))))
            },
            (TorAudit::AwaitingExternalIp, TorAuditEvent::ExternalIp(Ok(s))) => {
                match IpAddress::parse(s.as_str()) {
                    Some(ip) => (
                        TorAudit::AwaitingExitCheck { external_ip: ip },
                        TorAuditAction::CheckIsExit(ip),
                    ),
                    None => {
                        let mut m = String::from_str("invalid IP from echo service: ");
                        m.append(s.as_str());
                        m.append(": invalid IP address syntax");
                        (TorAudit::Finished, TorAuditAction::Report(Err(Error::Parse(m))))
                    },
                }
            },
            (TorAudit::AwaitingExitCheck { external_ip }, TorAuditEvent::IsExit(found)) => {
                let is_exit = match found {
                    Ok(b) => b,
                    Err(_) => false,
                };
                (TorAudit::AwaitingExitList { external_ip, is_exit }, TorAuditAction::ListExits)
            },
            (TorAudit::AwaitingExitList { external_ip, is_exit }, TorAuditEvent::Exits(exits)) => {
                let exits: Vec<ExitNode> = match exits {
                    Ok(v) => v,
                    Err(_) => Vec::new(),
                };
                let report = completed_report(external_ip, is_exit, &exits);
                (TorAudit::Finished, TorAuditAction::Report(Ok(report)))
            },
            (state, _) => {
                proof {
                    assert(false);
                }
                (state, TorAuditAction::ListExits)
            },
        }
    }
}


/// A completed audit through Tor finds a DNS leak exactly where it does not
/// find Tor, never finds a WebRTC leak or an exposed address, and gives two
/// to four recommendations; an exit fingerprint it names belongs to an exit
/// node listed with the external address.
pub proof fn law_completed_report_findings(report: PrivacyReport, ip: IpAddress, is_exit: bool, exits: Seq<ExitNode>)
    requires
        is_completed_report(report, ip, is_exit, exits),
    ensures
        report.dns_leak != report.tor_detected,
        !report.webrtc_leak,
        !report.ip_exposed,
        2 <= report.recommendations.len() <= 4,
        report.exit_fingerprint matches Some(fp) ==> exists|k: int|
            0 <= k < exits.len() && (#[trigger] exits[k]).address == ip && exits[k].fingerprint == fp
                && fp@.len() > 0,
{
    let recs = completed_recommendations(ip, is_exit, report.exit_fingerprint);
    assert(string_views(report.recommendations@).len() == recs.len());
    if exists|k: int| is_first_exit_at(exits, ip, k) {
        let k = choose|k: int| is_first_exit_at(exits, ip, k);
        assert(exits[k].address == ip);
    }
}

} // verus!
