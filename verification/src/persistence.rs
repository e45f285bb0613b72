//! The rows in which relay and exit node snapshots are stored: one row of
//! the `relay_snapshots` table per relay entry, one row of the
//! `exit_snapshots` table per exit node.

use vstd::prelude::*;

use crate::ip::{ip_text, law_displayed_address_parses_back, spec_parse_ip};
use crate::model::{ExitNode, RelayEntry, RelayFlag};
use crate::onionoo::{clone_opt_string, flag_name};
use crate::text::join_with;

verus! {

/// The columns of a `relay_snapshots` row, without its generated id.
#[derive(Clone, Debug, PartialEq, Eq)]
pub struct RelaySnapshotRow {
    pub fingerprint: String,
    pub nickname: String,
    pub address: String,
    pub or_port: i32,
    pub dir_port: i32,
    pub flags: String,
    pub bandwidth: i64,
    pub country: Option<String>,
    pub captured_at: String,
}

/// The columns of an `exit_snapshots` row, without its generated id.
#[derive(Clone, Debug, PartialEq, Eq)]
pub struct ExitSnapshotRow {
    pub fingerprint: String,
    pub address: String,
    pub exit_policy: String,
    pub country: Option<String>,
    pub bandwidth: i64,
    pub captured_at: String,
}

pub open spec fn quoted(s: Seq<char>) -> Seq<char> {
    seq!['"'] + s + seq!['"']
}

/// The flags as a JSON array of their names, as serde_json writes it.
pub open spec fn flags_json(flags: Seq<RelayFlag>) -> Seq<char> {
    seq!['['] + join_with(flags.map_values(|f: RelayFlag| quoted(flag_name(f))), seq![',']) + seq![']']
}

fn push_flag_name(out: &mut String, f: RelayFlag)
    ensures
        final(out)@ == old(out)@ + flag_name(f),
{
    let name = match f {
        RelayFlag::Authority => "Authority",
        RelayFlag::BadExit => "BadExit",
        RelayFlag::Exit => "Exit",
        RelayFlag::Fast => "Fast",
        RelayFlag::Guard => "Guard",
        RelayFlag::HSDir => "HSDir",
        RelayFlag::Running => "Running",
        RelayFlag::Stable => "Stable",
        RelayFlag::StaleDesc => "StaleDesc",
        RelayFlag::V2Dir => "V2Dir",
        RelayFlag::Valid => "Valid",
    };
    out.append(name);
}

/// Writes the flags as a JSON array of their names.
pub fn flags_to_json(flags: &Vec<RelayFlag>) -> (s: String)
    ensures
        s@ == flags_json(flags@),
{
    let ghost items = flags@.map_values(|f: RelayFlag| quoted(flag_name(f)));
    let mut s = String::new();
    crate::text::push_char(&mut s, '[');
    let mut i: usize = 0;
    while i < flags.len()
        invariant
            i <= flags.len(),
            items == flags@.map_values(|f: RelayFlag| quoted(flag_name(f))),
            s@ == seq!['['] + join_with(items.take(i as int), seq![',']),
        decreases flags.len() - i,
    {
        if i > 0 {
            crate::text::push_char(&mut s, ',');
        }
        crate::text::push_char(&mut s, '"');
        push_flag_name(&mut s, flags[i]);
        crate::text::push_char(&mut s, '"');
        assert(items.take(i + 1).drop_last() =~= items.take(i as int));
        assert(items[i as int] == quoted(flag_name(flags@[i as int])));
        if i == 0 {
            assert(items.take(1) =~= seq![items[0]]);
        }
        assert(s@ =~= seq!['['] + join_with(items.take(i + 1), seq![',']));
        i = i + 1;
    }
    crate::text::push_char(&mut s, ']');
    assert(items.take(i as int) =~= items);
    assert(s@ =~= flags_json(flags@));
    s
}

/// The row that stores a snapshot of `relay` taken at `captured_at`: the
/// address in its display form (which reads back as the same address), the flags as JSON, the bandwidth as a
/// signed 64-bit number (wrapping as `as` does), and no country.
pub fn relay_snapshot_row(relay: &RelayEntry, captured_at: &str) -> (row: RelaySnapshotRow)
    ensures
        row.fingerprint@ == relay.fingerprint@,
        row.nickname@ == relay.nickname@,
        row.address@ == ip_text(relay.address),
        spec_parse_ip(row.address@) == Some(relay.address),
        row.or_port == relay.or_port as i32,
        row.dir_port == relay.dir_port as i32,
        row.flags@ == flags_json(relay.flags@),
        row.bandwidth == relay.bandwidth as i64,
        row.country is None,
        row.captured_at@ == captured_at@,
{
    proof {
        law_displayed_address_parses_back(relay.address);
    }
    RelaySnapshotRow {
        fingerprint: relay.fingerprint.clone(),
        nickname: relay.nickname.clone(),
        address: relay.address.to_string(),
        or_port: relay.or_port as i32,
        dir_port: relay.dir_port as i32,
        flags: flags_to_json(&relay.flags),
        bandwidth: relay.bandwidth as i64,
        country: None,
        captured_at: String::from_str(captured_at),
    }
}

/// The row that stores a snapshot of `exit` taken at `captured_at`.
pub fn exit_snapshot_row(exit: &ExitNode, captured_at: &str) -> (row: ExitSnapshotRow)
    ensures
        row.fingerprint@ == exit.fingerprint@,
        row.address@ == ip_text(exit.address),
        spec_parse_ip(row.address@) == Some(exit.address),
        row.exit_policy@ == exit.exit_policy_summary@,
        row.country == exit.country,
        row.bandwidth == exit.bandwidth as i64,
        row.captured_at@ == captured_at@,
{
    proof {
        law_displayed_address_parses_back(exit.address);
    }
    ExitSnapshotRow {
        fingerprint: exit.fingerprint.clone(),
        address: exit.address.to_string(),
        exit_policy: exit.exit_policy_summary.clone(),
        country: clone_opt_string(&exit.country),
        bandwidth: exit.bandwidth as i64,
        captured_at: String::from_str(captured_at),
    }
}


/// The flags' JSON: `[]` for none, `["Name"]` for one, and each further
/// flag adds a comma and its quoted name before the closing bracket, so
/// that the array holds one quoted name per flag, in order.
pub proof fn law_flags_json_appends(fs: Seq<RelayFlag>, f: RelayFlag)
    ensures
        flags_json(Seq::empty()) == seq!['[', ']'],
        flags_json(seq![f]) == seq!['[', '"'] + flag_name(f) + seq!['"', ']'],
        fs.len() > 0 ==> flags_json(fs.push(f)) == flags_json(fs).drop_last() + seq![',', '"'] + flag_name(f)
            + seq!['"', ']'],
{
    let q = |x: RelayFlag| quoted(flag_name(x));
    assert(Seq::<RelayFlag>::empty().map_values(q) =~= Seq::<Seq<char>>::empty());
    assert(flags_json(Seq::empty()) =~= seq!['[', ']']);
    assert(seq![f].map_values(q) =~= seq![quoted(flag_name(f))]);
    assert(flags_json(seq![f]) =~= seq!['[', '"'] + flag_name(f) + seq!['"', ']']);
    if fs.len() > 0 {
        let m = fs.push(f).map_values(q);
        assert(m.drop_last() =~= fs.map_values(q));
        assert(m.last() == quoted(flag_name(f)));
        let j = join_with(fs.map_values(q), seq![',']);
        assert((seq!['['] + j + seq![']']).drop_last() =~= seq!['['] + j);
        assert(flags_json(fs.push(f)) =~= flags_json(fs).drop_last() + seq![',', '"'] + flag_name(f) + seq![
            '"',
            ']',
        ]);
    }
}

} // verus!
