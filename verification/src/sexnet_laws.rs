//! What sexnet's and sex-debug's decisions mean, stated from the bytes and values
//! they read: the earliest rule a trace breaks, the A records a DNS response caches,
//! the status code of an HTTP status line, the VPN switch, and the SYN-ACK check.
use vstd::prelude::*;
use crate::debug::{first_violation_from, spec_analyze, violation_between, Finding, RootCause, TraceEvent};
use crate::dns::{
    answer_name_end, be16_at, be32_at, cache_insert, insert_slot_from, parse_answers, skip_labels, spec_dns_response,
};
use crate::frames::{tcp_event, TcpConn, TcpEvent};
use crate::netproto::spec_status_line;
use crate::sexnet::{spec_call, DnsEntry, SexnetView, VpnState};

verus! {

proof fn lemma_first_violation(e: Seq<TraceEvent>, j: int, i: int, c: RootCause)
    requires
        0 <= j <= i,
        i + 1 < e.len(),
        violation_between(e[i], e[i + 1]) == Some(c),
        forall|k: int| 0 <= k < i ==> (#[trigger] violation_between(e[k], e[k + 1])) is None,
    ensures
        first_violation_from(e, j) == Some((i, c)),
    decreases i - j,
{
    if j < i {
        lemma_first_violation(e, j + 1, i, c);
    }
}

proof fn lemma_no_violation(e: Seq<TraceEvent>, j: int)
    requires
        0 <= j,
        forall|k: int| 0 <= k && k + 1 < e.len() ==> (#[trigger] violation_between(e[k], e[k + 1])) is None,
    ensures
        first_violation_from(e, j) is None,
    decreases e.len() - j,
{
    if j + 1 < e.len() {
        lemma_no_violation(e, j + 1);
    }
}

/// A diagnosis reports the earliest step of the trace that breaks a rule: when the
/// step from sample `i` to sample `i + 1` breaks rule `c` and no earlier step breaks
/// any, the cause is `c` and the first bad sample is `i + 1`.
pub proof fn law_analyze_reports_earliest_violation(e: Seq<TraceEvent>, i: int, c: RootCause)
    requires
        0 <= i,
        i + 1 < e.len(),
        e.len() <= usize::MAX,
        violation_between(e[i], e[i + 1]) == Some(c),
        forall|k: int| 0 <= k < i ==> (#[trigger] violation_between(e[k], e[k + 1])) is None,
    ensures
        spec_analyze(e) == (Finding { cause: c, first_bad_index: (i + 1) as usize }),
{
    lemma_first_violation(e, 0, i, c);
}

/// A trace none of whose steps breaks a rule is diagnosed clean, pointing at its last
/// sample; an empty trace is diagnosed empty.
pub proof fn law_analyze_clean_trace(e: Seq<TraceEvent>)
    requires
        e.len() <= usize::MAX,
        forall|k: int| 0 <= k && k + 1 < e.len() ==> (#[trigger] violation_between(e[k], e[k + 1])) is None,
    ensures
        e.len() == 0 ==> spec_analyze(e) == (Finding { cause: RootCause::EmptyTrace, first_bad_index: 0 }),
        e.len() > 0 ==> spec_analyze(e) == (Finding {
            cause: RootCause::NoViolations,
            first_bad_index: (e.len() - 1) as usize,
        }),
{
    lemma_no_violation(e, 0);
}

/// An A/IN answer with a compressed name and four bytes of address at `a`.
pub open spec fn is_pointer_a_record(p: Seq<u8>, a: int) -> bool {
    &&& p[a] & 0xC0 == 0xC0
    &&& be16_at(p, a + 2) == 1
    &&& be16_at(p, a + 4) == 1
    &&& be16_at(p, a + 10) == 4
}

/// A DNS response to the query (from 10.0.2.3 port 53, ID 0x1234, a response with
/// RCODE 0, at least two answers) whose question ends at `q` and whose first two
/// answers are A/IN records with compressed names is accepted, and both addresses are
/// cached, with their TTLs, in the first two free entries of a cache whose first two
/// entries are free.
pub proof fn law_dns_caches_both_answers(p: Seq<u8>, rx_len: int, c: Seq<DnsEntry>, q: int)
    requires
        rx_len >= 54,
        p[12] == 8 && p[13] == 0,
        p[14] & 0x0F == 5,
        p[23] == 17,
        p[26] == 10 && p[27] == 0 && p[28] == 2 && p[29] == 3,
        be16_at(p, 34) == 53,
        be16_at(p, 38) >= 20,
        34 + be16_at(p, 38) <= rx_len,
        be16_at(p, 42) == 0x1234,
        be16_at(p, 44) & 0x8000 != 0,
        be16_at(p, 44) & 0x000F == 0,
        be16_at(p, 46) == 0 ==> q == 54,
        be16_at(p, 46) > 0 ==> skip_labels(p, 54, 34 + be16_at(p, 38), 0) == Some(q - 4),
        be16_at(p, 48) >= 2,
        is_pointer_a_record(p, q),
        is_pointer_a_record(p, q + 16),
        q + 32 <= 34 + be16_at(p, 38),
        c.len() >= 2,
        c[0].valid == 0,
        c[1].valid == 0,
    ensures
        spec_dns_response(p, rx_len, c).0 == 1,
        spec_dns_response(p, rx_len, c).1[0] == (DnsEntry { ip: be32_at(p, q + 12), valid: 1, ttl: be32_at(p, q + 6) }),
        spec_dns_response(p, rx_len, c).1[1] == (DnsEntry {
            ip: be32_at(p, q + 28),
            valid: 1,
            ttl: be32_at(p, q + 22),
        }),
{
    let end = 34 + be16_at(p, 38);
    let anc = be16_at(p, 48);
    let e0 = DnsEntry { ip: be32_at(p, q + 12), valid: 1, ttl: be32_at(p, q + 6) };
    let e1 = DnsEntry { ip: be32_at(p, q + 28), valid: 1, ttl: be32_at(p, q + 22) };
    let c1 = c.update(0, e0);
    let c2 = c1.update(1, e1);
    assert(insert_slot_from(c, 0) == 0);
    assert(cache_insert(c, be32_at(p, q + 12), be32_at(p, q + 6)) == c1);
    assert(insert_slot_from(c1, 1) == 1);
    assert(insert_slot_from(c1, 0) == 1);
    assert(cache_insert(c1, be32_at(p, q + 28), be32_at(p, q + 22)) == c2);
    assert(answer_name_end(p, q, end) == Some(q + 2));
    assert(answer_name_end(p, q + 16, end) == Some(q + 18));
    assert(parse_answers(p, q + 32, end, 2, anc, c2) == (true, c2));
    assert(parse_answers(p, q + 16, end, 1, anc, c1) == (true, c2));
    assert(parse_answers(p, q, end, 0, anc, c) == (true, c2));
    assert((p[14] & 0x0F) * 4 == 20);
    assert(spec_dns_response(p, rx_len, c) == (1u32, c2));
}

/// The status code of an accepted status line (no error reason) is the decimal number
/// its three digits after `HTTP/1.x ` write.
pub proof fn law_status_code_is_decimal(b: Seq<u8>, len: int)
    requires
        spec_status_line(b, len).3 == Seq::<char>::empty(),
    ensures
        spec_status_line(b, len).0 as int == (b[9] - 48) * 100 + (b[10] - 48) * 10 + (b[11] - 48),
        48 <= b[9] <= 57 && 48 <= b[10] <= 57 && 48 <= b[11] <= 57,
        b[0] == 72 && b[1] == 84 && b[2] == 84 && b[3] == 80 && b[4] == 47 && b[5] == 49 && b[6] == 46,
{
    reveal_strlit("empty");
    reveal_strlit("status_line_too_long");
    reveal_strlit("missing_line_ending");
    reveal_strlit("status_line_too_short");
    reveal_strlit("bad_http_prefix");
    reveal_strlit("unsupported_http_version");
    reveal_strlit("missing_status_space");
    reveal_strlit("status_digits_invalid");
    reveal_strlit("missing_reason_separator");
    assert("empty"@.len() == 5);
    assert("missing_reason_separator"@.len() > 0);
    let r = spec_status_line(b, len);
    assert(r.3.len() == 0);
}

/// VPN down turns the VPN off whatever the state, answers 0, and leaves the link,
/// its speed and the address as they were.
pub proof fn law_vpn_down(v: SexnetView, arg0: u64, arg1: u64)
    ensures
        spec_call(v, 0x205, arg0, arg1).0.vpn == VpnState::Down,
        spec_call(v, 0x205, arg0, arg1).0.wifi == v.state.wifi,
        spec_call(v, 0x205, arg0, arg1).0.link_speed_mbps == v.state.link_speed_mbps,
        spec_call(v, 0x205, arg0, arg1).0.ipv4 == v.state.ipv4,
        spec_call(v, 0x205, arg0, arg1).1 == 0,
{
}

/// VPN up then VPN down leaves the VPN down and the rest of the state as it was.
pub proof fn law_vpn_up_then_down(v: SexnetView, a: u64, b: u64, c: u64, d: u64)
    ensures
        ({
            let s1 = spec_call(v, 0x204, a, b).0;
            let s2 = spec_call(SexnetView { state: s1, ..v }, 0x205, c, d).0;
            s2.vpn == VpnState::Down && s2.wifi == v.state.wifi && s2.link_speed_mbps == v.state.link_speed_mbps
                && s2.ipv4 == v.state.ipv4
        }),
{
}

/// An accepted SYN-ACK (SYN and ACK set, RST clear) acknowledges the guest's SYN
/// exactly when its acknowledgment number is the guest's initial sequence number plus
/// one, modulo 2^32.
pub proof fn law_synack_ack_check(c: TcpConn, flags: u8, ack: u32)
    requires
        (flags >> 2u8) & 1 == 0,
        (flags >> 1u8) & 1 == 1,
        (flags >> 4u8) & 1 == 1,
    ensures
        tcp_event(c, flags, ack) == (TcpEvent::SynAck { ack_ok: ack as int == (c.local_seq + 1) % 0x1_0000_0000 }),
{
}

} // verus!
