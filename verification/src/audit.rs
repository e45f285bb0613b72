//! The basic privacy audit: leak checks against the known exit nodes and
//! the recommendations that follow from their findings.

use vstd::prelude::*;

use crate::exits::is_exit_address;
use crate::ip::IpAddress;
use crate::model::{Error, ExitNode, PrivacyReport};
use crate::text::{contains_text, lemma_contains_text_needs_char, occurs_in_at, starts_with, string_views};

verus! {

/// DNS may leak where the external address is known, exit nodes are known,
/// and the address is not one of them.
pub open spec fn spec_dns_leak(exits: Seq<IpAddress>, external_ip: Option<IpAddress>) -> bool {
    match external_ip {
        None => false,
        Some(ip) => exits.len() > 0 && !exits.contains(ip),
    }
}

/// Checks whether the observed external address is missing from the exit
/// list, which suggests that DNS resolution leaks outside the Tor circuit.
/// Where the address is unknown or no exits are known, no leak is reported.
pub fn check_dns_leak(exits: &Vec<IpAddress>, external_ip: Option<IpAddress>) -> (leak: bool)
    ensures
        leak == spec_dns_leak(exits@, external_ip),
{
    match external_ip {
        None => false,
        Some(ip) => {
            if exits.len() == 0 {
                return false;
            }
            !is_exit_address(exits, ip)
        },
    }
}

/// The real address is exposed where the external address is known and is
/// one of the local interface addresses.
pub open spec fn spec_ip_exposed(external_ip: Option<IpAddress>, local_addrs: Seq<IpAddress>) -> bool {
    match external_ip {
        None => false,
        Some(ip) => local_addrs.contains(ip),
    }
}

/// Checks whether the external address matches a local interface address.
pub fn check_ip_exposed(external_ip: Option<IpAddress>, local_addrs: &Vec<IpAddress>) -> (exposed: bool)
    ensures
        exposed == spec_ip_exposed(external_ip, local_addrs@),
{
    match external_ip {
        None => false,
        Some(ip) => is_exit_address(local_addrs, ip),
    }
}

pub open spec fn dns_recommendation(dns_leak: bool) -> Seq<char> {
    if dns_leak {
        "DNS leak detected: configure your system to route DNS queries through Tor (e.g., set DNS to 127.0.0.1:5353 with a Tor DNS proxy)"@
    } else {
        "DNS leak check: no leak detected"@
    }
}

pub open spec fn webrtc_recommendation(webrtc_leak: bool) -> Seq<char> {
    if webrtc_leak {
        "WebRTC leak detected: disable WebRTC in your browser (about:config → media.peerconnection.enabled = false)"@
    } else {
        "WebRTC leak check: not yet implemented — disable WebRTC in browser settings as a precaution"@
    }
}

pub open spec fn exposure_recommendation(ip_exposed: bool) -> Seq<char> {
    if ip_exposed {
        "IP exposed: your real IP is visible externally — ensure all traffic is routed through Tor or a VPN"@
    } else {
        "IP exposure check: real IP does not appear to be exposed"@
    }
}

pub open spec fn tor_recommendation(tor_detected: bool) -> Seq<char> {
    if !tor_detected {
        "No Tor exit nodes detected — you may not be connected to Tor. Verify your Tor daemon is running and circuits are established"@
    } else {
        "Tor connection: exit nodes detected, Tor appears active"@
    }
}

/// One recommendation for each finding, in the order DNS, WebRTC, IP
/// exposure, Tor connection.
pub open spec fn recommendation_texts(dns_leak: bool, webrtc_leak: bool, ip_exposed: bool, tor_detected: bool) -> Seq<Seq<char>> {
    seq![
        dns_recommendation(dns_leak),
        webrtc_recommendation(webrtc_leak),
        exposure_recommendation(ip_exposed),
        tor_recommendation(tor_detected),
    ]
}

/// Builds the recommendations that follow from the audit's findings.
pub fn build_recommendations(dns_leak: bool, webrtc_leak: bool, ip_exposed: bool, tor_detected: bool) -> (recs: Vec<String>)
    ensures
        string_views(recs@) == recommendation_texts(dns_leak, webrtc_leak, ip_exposed, tor_detected),
{
    let mut recs: Vec<String> = Vec::new();
    if dns_leak {
        recs.push(
            String::from_str(
                "DNS leak detected: configure your system to route DNS queries through Tor (e.g., set DNS to 127.0.0.1:5353 with a Tor DNS proxy)",
            ),
        );
    } else {
        recs.push(String::from_str("DNS leak check: no leak detected"));
    }
    if webrtc_leak {
        recs.push(
            String::from_str(
                "WebRTC leak detected: disable WebRTC in your browser (about:config → media.peerconnection.enabled = false)",
            ),
        );
    } else {
        recs.push(
            String::from_str(
                "WebRTC leak check: not yet implemented — disable WebRTC in browser settings as a precaution",
            ),
        );
    }
    if ip_exposed {
        recs.push(
            String::from_str(
                "IP exposed: your real IP is visible externally — ensure all traffic is routed through Tor or a VPN",
            ),
        );
    } else {
        recs.push(String::from_str("IP exposure check: real IP does not appear to be exposed"));
    }
    if !tor_detected {
        recs.push(
            String::from_str(
                "No Tor exit nodes detected — you may not be connected to Tor. Verify your Tor daemon is running and circuits are established",
            ),
        );
    } else {
        recs.push(String::from_str("Tor connection: exit nodes detected, Tor appears active"));
    }
    assert(string_views(recs@) =~= recommendation_texts(dns_leak, webrtc_leak, ip_exposed, tor_detected));
    recs
}

/// The exit nodes that a listing gave, none where it failed.
pub open spec fn listed_exits(exits: Result<Vec<ExitNode>, Error>) -> Seq<ExitNode> {
    match exits {
        Ok(v) => v@,
        Err(_) => Seq::empty(),
    }
}

pub open spec fn exit_addresses(exits: Seq<ExitNode>) -> Seq<IpAddress> {
    exits.map_values(|e: ExitNode| e.address)
}

/// The fingerprint of the first exit node, where it has a non-empty one.
pub open spec fn first_exit_fingerprint(exits: Seq<ExitNode>) -> Option<String> {
    if exits.len() > 0 && exits[0].fingerprint@.len() > 0 {
        Some(exits[0].fingerprint)
    } else {
        None
    }
}

/// `report` is what the audit finds from the listed exits, the external
/// address and the local interface addresses.
pub open spec fn is_audit_report(
    report: PrivacyReport,
    exits: Seq<ExitNode>,
    external_ip: Option<IpAddress>,
    local_addrs: Seq<IpAddress>,
) -> bool {
    &&& report.tor_detected == (exits.len() > 0)
    &&& report.exit_fingerprint == first_exit_fingerprint(exits)
    &&& report.dns_leak == spec_dns_leak(exit_addresses(exits), external_ip)
    &&& !report.webrtc_leak
    &&& report.ip_exposed == spec_ip_exposed(external_ip, local_addrs)
    &&& string_views(report.recommendations@) == recommendation_texts(
        report.dns_leak,
        report.webrtc_leak,
        report.ip_exposed,
        report.tor_detected,
    )
}

fn addresses_of(exits: &Vec<ExitNode>) -> (addrs: Vec<IpAddress>)
    ensures
        addrs@ == exit_addresses(exits@),
{
    let mut addrs: Vec<IpAddress> = Vec::new();
    let mut i: usize = 0;
    while i < exits.len()
        invariant
            i <= exits.len(),
            addrs@ == exit_addresses(exits@.take(i as int)),
        decreases exits.len() - i,
    {
        addrs.push(exits[i].address);
        assert(exit_addresses(exits@.take(i + 1)) =~= exit_addresses(exits@.take(i as int)).push(
            exits@[i as int].address,
        ));
        i = i + 1;
    }
    assert(exits@.take(i as int) =~= exits@);
    addrs
}

/// Audits the connection from the exit nodes that a listing gave (none
/// where it failed), the observed external address, and the local
/// interface addresses. WebRTC cannot be checked here and counts as no leak.
pub fn audit_report(
    exits: Result<Vec<ExitNode>, Error>,
    external_ip: Option<IpAddress>,
    local_addrs: &Vec<IpAddress>,
) -> (report: PrivacyReport)
    ensures
        is_audit_report(report, listed_exits(exits), external_ip, local_addrs@),
{
    let exits: Vec<ExitNode> = match exits {
        Ok(v) => v,
        Err(_) => Vec::new(),
    };
    let exit_addresses = addresses_of(&exits);
    let tor_detected = exits.len() > 0;
    let exit_fingerprint = if exits.len() > 0 && !exits[0].fingerprint.as_str().is_empty() {
        Some(exits[0].fingerprint.clone())
    } else {
        None
    };
    let dns_leak = check_dns_leak(&exit_addresses, external_ip);
    let webrtc_leak = false;
    let ip_exposed = check_ip_exposed(external_ip, local_addrs);
    let recommendations = build_recommendations(dns_leak, webrtc_leak, ip_exposed, tor_detected);
    PrivacyReport { dns_leak, webrtc_leak, ip_exposed, tor_detected, exit_fingerprint, recommendations }
}

/// The basic auditor's report: it makes no network requests of its own, so
/// the external address is unknown and no local addresses are known; the
/// DNS leak and exposure checks then report nothing.
pub fn basic_audit_report(exits: Result<Vec<ExitNode>, Error>) -> (report: PrivacyReport)
    ensures
        is_audit_report(report, listed_exits(exits), None, Seq::empty()),
        !report.dns_leak && !report.ip_exposed && !report.webrtc_leak,
{
    let local: Vec<IpAddress> = Vec::new();
    audit_report(exits, None, &local)
}


/// Every audit report carries four recommendations, one per check; it
/// never finds a WebRTC leak; and it finds a DNS leak, or names an exit
/// fingerprint, only where exit nodes were listed and Tor is detected.
pub proof fn law_audit_report_findings(
    report: PrivacyReport,
    exits: Seq<ExitNode>,
    external_ip: Option<IpAddress>,
    local_addrs: Seq<IpAddress>,
)
    requires
        is_audit_report(report, exits, external_ip, local_addrs),
    ensures
        report.recommendations.len() == 4,
        !report.webrtc_leak,
        report.dns_leak ==> report.tor_detected,
        report.exit_fingerprint is Some ==> report.tor_detected,
        external_ip is None ==> !report.dns_leak && !report.ip_exposed,
{
    assert(string_views(report.recommendations@).len() == 4);
}


/// Four recommendations, the i-th of which depends on the i-th finding
/// alone: the first begins with "DNS leak detected" exactly where DNS
/// leaks, the second with "WebRTC leak detected" exactly where WebRTC
/// leaks, the third with "IP exposed" exactly where the address is
/// exposed, and the fourth warns that the connection may "not be connected
/// to Tor" exactly where Tor was not detected, and says Tor "appears
/// active" exactly where it was.
pub proof fn law_recommendation_texts(dns_leak: bool, webrtc_leak: bool, ip_exposed: bool, tor_detected: bool)
    ensures
        recommendation_texts(dns_leak, webrtc_leak, ip_exposed, tor_detected).len() == 4,
        recommendation_texts(dns_leak, webrtc_leak, ip_exposed, tor_detected)[0] == dns_recommendation(dns_leak),
        recommendation_texts(dns_leak, webrtc_leak, ip_exposed, tor_detected)[1] == webrtc_recommendation(
            webrtc_leak,
        ),
        recommendation_texts(dns_leak, webrtc_leak, ip_exposed, tor_detected)[2] == exposure_recommendation(
            ip_exposed,
        ),
        recommendation_texts(dns_leak, webrtc_leak, ip_exposed, tor_detected)[3] == tor_recommendation(
            tor_detected,
        ),
        starts_with(dns_recommendation(dns_leak), "DNS leak detected"@) == dns_leak,
        starts_with(webrtc_recommendation(webrtc_leak), "WebRTC leak detected"@) == webrtc_leak,
        starts_with(exposure_recommendation(ip_exposed), "IP exposed"@) == ip_exposed,
        contains_text(tor_recommendation(tor_detected), "not be connected to Tor"@) == !tor_detected,
        contains_text(tor_recommendation(tor_detected), "appears active"@) == tor_detected,
{
    reveal_strlit("DNS leak detected: configure your system to route DNS queries through Tor (e.g., set DNS to 127.0.0.1:5353 with a Tor DNS proxy)");
    reveal_strlit("DNS leak check: no leak detected");
    reveal_strlit("DNS leak detected");
    reveal_strlit("WebRTC leak detected: disable WebRTC in your browser (about:config → media.peerconnection.enabled = false)");
    reveal_strlit("WebRTC leak check: not yet implemented — disable WebRTC in browser settings as a precaution");
    reveal_strlit("WebRTC leak detected");
    reveal_strlit("IP exposed: your real IP is visible externally — ensure all traffic is routed through Tor or a VPN");
    reveal_strlit("IP exposure check: real IP does not appear to be exposed");
    reveal_strlit("IP exposed");
    reveal_strlit("No Tor exit nodes detected — you may not be connected to Tor. Verify your Tor daemon is running and circuits are established");
    reveal_strlit("Tor connection: exit nodes detected, Tor appears active");
    reveal_strlit("not be connected to Tor");
    reveal_strlit("appears active");
    let r = recommendation_texts(dns_leak, webrtc_leak, ip_exposed, tor_detected);
    assert(r.len() == 4);
    if dns_leak {
        assert(dns_recommendation(dns_leak).take(17) =~= "DNS leak detected"@);
    } else {
        assert(dns_recommendation(dns_leak).take(17)[9] != "DNS leak detected"@[9]);
    }
    if webrtc_leak {
        assert(webrtc_recommendation(webrtc_leak).take(20) =~= "WebRTC leak detected"@);
    } else {
        assert(webrtc_recommendation(webrtc_leak).take(20)[12] != "WebRTC leak detected"@[12]);
    }
    if ip_exposed {
        assert(exposure_recommendation(ip_exposed).take(10) =~= "IP exposed"@);
    } else {
        assert(exposure_recommendation(ip_exposed).take(10)[9] != "IP exposed"@[9]);
    }
    let t = tor_recommendation(tor_detected);
    if tor_detected {
        assert(occurs_in_at(t, "appears active"@, 41)) by {
            assert(t.subrange(41, 55) =~= "appears active"@);
        }
        assert("not be connected to Tor"@[4] == 'b');
        assert forall|i: int| 0 <= i < t.len() implies t[i] != 'b' by {}
        lemma_contains_text_needs_char(t, "not be connected to Tor"@, 4);
    } else {
        assert(occurs_in_at(t, "not be connected to Tor"@, 37)) by {
            assert(t.subrange(37, 60) =~= "not be connected to Tor"@);
        }
        assert("appears active"@[12] == 'v');
        assert forall|i: int| 0 <= i < t.len() implies t[i] != 'v' by {}
        lemma_contains_text_needs_char(t, "appears active"@, 12);
    }
}


/// No DNS leak is found for an external address that is one of the listed
/// exits, at whatever position; a leak is found exactly where exits are
/// listed and the address equals none of them; without an external address
/// no leak is found.
pub proof fn law_dns_leak_only_off_the_exit_list(exits: Seq<IpAddress>, ip: IpAddress)
    ensures
        (exists|i: int| 0 <= i < exits.len() && exits[i] == ip) ==> !spec_dns_leak(exits, Some(ip)),
        spec_dns_leak(exits, Some(ip)) <==> exits.len() > 0 && forall|i: int| 0 <= i < exits.len() ==> exits[i] != ip,
        !spec_dns_leak(exits, None),
{
    if exists|i: int| 0 <= i < exits.len() && exits[i] == ip {
        let i = choose|i: int| 0 <= i < exits.len() && exits[i] == ip;
        assert(exits.contains(ip));
    }
    if exits.contains(ip) {
        let i = choose|i: int| 0 <= i < exits.len() && exits[i] == ip;
        assert(exits[i] == ip);
    }
}

/// An audit whose external address is the address of any listed exit node
/// finds no DNS leak.
pub proof fn law_audit_no_leak_through_listed_exit(
    report: PrivacyReport,
    exits: Seq<ExitNode>,
    ip: IpAddress,
    local_addrs: Seq<IpAddress>,
    k: int,
)
    requires
        is_audit_report(report, exits, Some(ip), local_addrs),
        0 <= k < exits.len(),
        exits[k].address == ip,
    ensures
        !report.dns_leak,
        report.tor_detected,
{
    assert(exit_addresses(exits)[k] == ip);
    law_dns_leak_only_off_the_exit_list(exit_addresses(exits), ip);
}

} // verus!
