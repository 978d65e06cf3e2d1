//! The sexnet server's request dispatch: link/VPN state, packed status text and body
//! chunks, and DNS resolution from the A-record cache.
use vstd::prelude::*;
use vstd::string::StringSliceAdditionalSpecFns;
use crate::netproto::push_all;
use crate::text::{dec, push_decimal};

verus! {

pub const SEXNET_GET_STATUS: u64 = 0x200;
pub const SEXNET_SCAN_WIFI: u64 = 0x201;
pub const SEXNET_CONNECT: u64 = 0x202;
pub const SEXNET_DISCONNECT: u64 = 0x203;
pub const SEXNET_VPN_UP: u64 = 0x204;
pub const SEXNET_VPN_DOWN: u64 = 0x205;
pub const SEXNET_GET_IP: u64 = 0x206;
pub const SEXNET_HTTP_PROOF_LEN: u64 = 0x207;
pub const SEXNET_HTTP_PROOF_CHUNK: u64 = 0x208;
pub const SEXNET_HTTP_BODY_LEN: u64 = 0x209;
pub const SEXNET_HTTP_BODY_CHUNK: u64 = 0x20A;
pub const SEXNET_DNS_RESOLVE: u64 = 0x20B;
/// Number of access points the scan table holds.
pub const MOCK_AP_COUNT: u64 = 3;
/// Capacity of the status text.
pub const PROOF_BUF_CAP: usize = 32;
/// Address a successful connect assigns: 192.168.1.100.
pub const CONNECTED_IPV4: u32 = 0xC0A8_0164;

#[derive(Clone, Copy, Debug, PartialEq, Eq, Structural)]
pub enum WifiState {
    Disconnected,
    Connected,
}

#[derive(Clone, Copy, Debug, PartialEq, Eq, Structural)]
pub enum VpnState {
    Down,
    Up,
}

#[derive(Clone, Copy, Debug, PartialEq, Eq, Structural)]
pub struct NetState {
    pub wifi: WifiState,
    pub vpn: VpnState,
    pub link_speed_mbps: u16,
    pub ipv4: u32,
}

/// One DNS A-record cache entry.
#[derive(Clone, Copy, Debug, PartialEq, Eq, Structural)]
pub struct DnsEntry {
    pub ip: u32,
    pub valid: u8,
    pub ttl: u32,
}

/// The body text served when no HTTP body has been received.
pub open spec fn default_body() -> Seq<u8> {
    "Hello SexOS HTTP OK".spec_bytes()
}

/// Little-endian packing of the first `k` bytes of `s`.
pub open spec fn pack_prefix(s: Seq<u8>, k: nat) -> u64
    decreases k,
{
    if k == 0 {
        0
    } else {
        pack_prefix(s, (k - 1) as nat) | ((s[k - 1] as u64) << (((k - 1) * 8) as u64))
    }
}

/// Chunk `idx` (8 bytes, little-endian) of `buf`, or `u64::MAX` past the end.
pub open spec fn chunk_of(buf: Seq<u8>, idx: u64) -> u64 {
    let start = if idx * 8 > u64::MAX { u64::MAX as int } else { idx * 8 };
    if start >= buf.len() {
        u64::MAX
    } else {
        let end = if buf.len() - start > 8 { start + 8 } else { buf.len() as int };
        pack_prefix(buf.subrange(start, end), (end - start) as nat)
    }
}

/// Pack chunk `idx` of `buf`.
pub fn pack_chunk(buf: &[u8], idx: u64) -> (r: u64)
    ensures
        r == chunk_of(buf@, idx),
{
    let start = match idx.checked_mul(8) {
        Some(v) => v,
        None => u64::MAX,
    };
    if start >= buf.len() as u64 {
        return u64::MAX;
    }
    let start = start as usize;
    let end = if buf.len() - start > 8 {
        start + 8
    } else {
        buf.len()
    };
    let bytes = end - start;
    let ghost sub = buf@.subrange(start as int, end as int);
    let mut packed: u64 = 0;
    let mut i: usize = 0;
    while i < bytes
        invariant
            bytes == end - start,
            bytes <= 8,
            end <= buf@.len(),
            sub == buf@.subrange(start as int, end as int),
            i <= bytes,
            packed == pack_prefix(sub, i as nat),
        decreases bytes - i,
    {
        let b = buf[start + i];
        packed = packed | ((b as u64) << ((i * 8) as u64));
        i += 1;
    }
    packed
}

/// The abstract state of the server.
pub struct SexnetView {
    pub state: NetState,
    pub proof: Seq<u8>,
    pub body: Seq<u8>,
    pub dns: Seq<DnsEntry>,
}

/// Reply to DNS_RESOLVE: the first usable cached A record (big-endian packed address).
pub open spec fn resolve_from(dns: Seq<DnsEntry>, i: int) -> u64
    decreases dns.len() - i,
{
    if i < 0 || i >= dns.len() {
        0
    } else if dns[i].valid != 0 && dns[i].ttl != 0 {
        dns[i].ip as u64
    } else {
        resolve_from(dns, i + 1)
    }
}

/// Link state word: link speed in bits 16.., bit 0 Wi-Fi connected, bit 1 VPN up.
pub open spec fn status_word(s: NetState) -> u64 {
    ((s.link_speed_mbps as u64) * 65536 + (if s.wifi == WifiState::Connected { 1u64 } else { 0 })
        + (if s.vpn == VpnState::Up { 2u64 } else { 0 })) as u64
}

/// Server state after a call and its reply.
pub open spec fn spec_call(v: SexnetView, id: u64, arg0: u64, arg1: u64) -> (NetState, u64) {
    let s = v.state;
    if id == 0x200 {
        if arg0 == 0x207 {
            (s, v.proof.len() as u64)
        } else if arg0 == 0x208 {
            (s, chunk_of(v.proof, arg1))
        } else if arg0 == 0x209 {
            (s, if v.body.len() > 0 { v.body.len() as u64 } else { default_body().len() as u64 })
        } else if arg0 == 0x20A {
            (s, if v.body.len() > 0 { chunk_of(v.body, arg1) } else { chunk_of(default_body(), arg1) })
        } else {
            (s, status_word(s))
        }
    } else if id == 0x201 {
        (s, if arg0 == 0 || arg1 == 0 { u64::MAX } else if arg1 < 3 { arg1 } else { 3 })
    } else if id == 0x202 {
        if arg0 == 0 || arg1 == 0 || arg1 > 32 {
            (s, 1)
        } else {
            (NetState { wifi: WifiState::Connected, link_speed_mbps: 300, ipv4: 0xC0A8_0164, ..s }, 0)
        }
    } else if id == 0x203 {
        (NetState { wifi: WifiState::Disconnected, link_speed_mbps: 0, ipv4: 0, ..s }, 0)
    } else if id == 0x204 {
        if s.wifi != WifiState::Connected {
            (s, 2)
        } else {
            (NetState { vpn: VpnState::Up, ..s }, 0)
        }
    } else if id == 0x205 {
        (NetState { vpn: VpnState::Down, ..s }, 0)
    } else if id == 0x206 {
        (s, s.ipv4 as u64)
    } else if id == 0x20B {
        (s, if arg0 != 1 { 0 } else { resolve_from(v.dns, 0) })
    } else {
        (s, u64::MAX)
    }
}

/// The sexnet server state.
pub struct SexnetServer {
    pub state: NetState,
    pub proof: Vec<u8>,
    pub body: Vec<u8>,
    pub dns: Vec<DnsEntry>,
}

impl View for SexnetServer {
    type V = SexnetView;

    open spec fn view(&self) -> SexnetView {
        SexnetView { state: self.state, proof: self.proof@, body: self.body@, dns: self.dns@ }
    }
}

impl SexnetServer {
    /// Disconnected, VPN down, no status text, no body, an empty four-entry DNS cache.
    pub fn new() -> (s: SexnetServer)
        ensures
            s.state == (NetState { wifi: WifiState::Disconnected, vpn: VpnState::Down, link_speed_mbps: 0, ipv4: 0 }),
            s.proof@.len() == 0,
            s.body@.len() == 0,
            s.dns@.len() == 4,
            forall|i: int| 0 <= i < 4 ==> #[trigger] s.dns@[i] == (DnsEntry { ip: 0, valid: 0, ttl: 0 }),
    {
        let mut dns: Vec<DnsEntry> = Vec::new();
        let mut i: usize = 0;
        while i < 4
            invariant
                i <= 4,
                dns@.len() == i,
                forall|j: int| 0 <= j < i ==> #[trigger] dns@[j] == (DnsEntry { ip: 0, valid: 0, ttl: 0 }),
            decreases 4 - i,
        {
            dns.push(DnsEntry { ip: 0, valid: 0, ttl: 0 });
            i += 1;
        }
        SexnetServer {
            state: NetState { wifi: WifiState::Disconnected, vpn: VpnState::Down, link_speed_mbps: 0, ipv4: 0 },
            proof: Vec::new(),
            body: Vec::new(),
            dns,
        }
    }

    fn resolve(&self) -> (r: u64)
        ensures
            r == resolve_from(self.dns@, 0),
    {
        let mut idx: usize = 0;
        while idx < self.dns.len()
            invariant
                idx <= self.dns@.len(),
                resolve_from(self.dns@, 0) == resolve_from(self.dns@, idx as int),
            decreases self.dns@.len() - idx,
        {
            let e = self.dns[idx];
            if e.valid != 0 && e.ttl != 0 {
                return e.ip as u64;
            }
            idx += 1;
        }
        0
    }

    /// Handle one call. Only the link/VPN state changes; the access-point table itself
    /// is copied out by the caller for SCAN_WIFI, which returns the count to copy.
    pub fn handle_call(&mut self, syscall_id: u64, arg0: u64, arg1: u64) -> (r: u64)
        ensures
            (final(self).state, r) == spec_call(old(self)@, syscall_id, arg0, arg1),
            final(self).proof@ == old(self).proof@,
            final(self).body@ == old(self).body@,
            final(self).dns@ == old(self).dns@,
    {
        if syscall_id == SEXNET_GET_STATUS {
            if arg0 == SEXNET_HTTP_PROOF_LEN {
                return self.proof.len() as u64;
            }
            if arg0 == SEXNET_HTTP_PROOF_CHUNK {
                return pack_chunk(self.proof.as_slice(), arg1);
            }
            if arg0 == SEXNET_HTTP_BODY_LEN {
                if self.body.len() > 0 {
                    return self.body.len() as u64;
                }
                return "Hello SexOS HTTP OK".as_bytes().len() as u64;
            }
            if arg0 == SEXNET_HTTP_BODY_CHUNK {
                if self.body.len() > 0 {
                    return pack_chunk(self.body.as_slice(), arg1);
                }
                return pack_chunk("Hello SexOS HTTP OK".as_bytes(), arg1);
            }
            let s = self.state;
            let flags: u64 = (if s.wifi == WifiState::Connected { 1 } else { 0 }) + (if s.vpn
                == VpnState::Up {
                2
            } else {
                0
            });
            let speed = s.link_speed_mbps as u64;
            assert((speed << 16u64) | flags == speed * 65536 + flags) by (bit_vector)
                requires
                    speed < 0x1_0000,
                    flags < 4,
            ;
            return (speed << 16u64) | flags;
        }
        if syscall_id == SEXNET_SCAN_WIFI {
            if arg0 == 0 || arg1 == 0 {
                return u64::MAX;
            }
            return if arg1 < MOCK_AP_COUNT {
                arg1
            } else {
                MOCK_AP_COUNT
            };
        }
        if syscall_id == SEXNET_CONNECT {
            if arg0 == 0 || arg1 == 0 || arg1 > 32 {
                return 1;
            }
            self.state.wifi = WifiState::Connected;
            self.state.link_speed_mbps = 300;
            self.state.ipv4 = CONNECTED_IPV4;
            return 0;
        }
        if syscall_id == SEXNET_DISCONNECT {
            self.state.wifi = WifiState::Disconnected;
            self.state.link_speed_mbps = 0;
            self.state.ipv4 = 0;
            return 0;
        }
        if syscall_id == SEXNET_VPN_UP {
            if self.state.wifi != WifiState::Connected {
                return 2;
            }
            self.state.vpn = VpnState::Up;
            return 0;
        }
        if syscall_id == SEXNET_VPN_DOWN {
            self.state.vpn = VpnState::Down;
            return 0;
        }
        if syscall_id == SEXNET_GET_IP {
            return self.state.ipv4 as u64;
        }
        if syscall_id == SEXNET_DNS_RESOLVE {
            if arg0 != 1 {
                return 0;
            }
            return self.resolve();
        }
        u64::MAX
    }

    /// Rebuilds the status text served by the proof chunks:
    /// `HTTP <status> rx=<bytes>b <source>`, where the source is `mock` (1), `real`
    /// (2) or `unset`, cut to the text's capacity.
    pub fn proof_build(&mut self, status: u32, bytes: u16, source: u8)
        ensures
            final(self).proof@ == proof_text(status, bytes, source),
            final(self).state == old(self).state,
            final(self).body@ == old(self).body@,
            final(self).dns@ == old(self).dns@,
    {
        let mut t: Vec<u8> = Vec::new();
        t.push(72u8);
        t.push(84u8);
        t.push(84u8);
        t.push(80u8);
        t.push(32u8);
        push_decimal(&mut t, status as u64);
        t.push(32u8);
        t.push(114u8);
        t.push(120u8);
        t.push(61u8);
        push_decimal(&mut t, bytes as u64);
        t.push(98u8);
        t.push(32u8);
        if source == 1 {
            t.push(109u8);
            t.push(111u8);
            t.push(99u8);
            t.push(107u8);
        } else if source == 2 {
            t.push(114u8);
            t.push(101u8);
            t.push(97u8);
            t.push(108u8);
        } else {
            t.push(117u8);
            t.push(110u8);
            t.push(115u8);
            t.push(101u8);
            t.push(116u8);
        }
        proof {
            assert(t@ =~= proof_full_text(status, bytes, source));
        }
        t.truncate(PROOF_BUF_CAP);
        self.proof = t;
    }
}

/// The label of an HTTP body source: `mock` (1), `real` (2) or `unset`.
pub open spec fn source_label(source: u8) -> Seq<u8> {
    if source == 1 {
        seq![109u8, 111u8, 99u8, 107u8]
    } else if source == 2 {
        seq![114u8, 101u8, 97u8, 108u8]
    } else {
        seq![117u8, 110u8, 115u8, 101u8, 116u8]
    }
}

/// `HTTP <status> rx=<bytes>b <source>` in full.
pub open spec fn proof_full_text(status: u32, bytes: u16, source: u8) -> Seq<u8> {
    seq![72u8, 84u8, 84u8, 80u8, 32u8] + dec(status as nat) + seq![32u8, 114u8, 120u8, 61u8] + dec(
        bytes as nat,
    ) + seq![98u8, 32u8] + source_label(source)
}

/// The status text: the full text cut to the capacity of the text buffer.
pub open spec fn proof_text(status: u32, bytes: u16, source: u8) -> Seq<u8> {
    let full = proof_full_text(status, bytes, source);
    if full.len() > PROOF_BUF_CAP {
        full.take(PROOF_BUF_CAP as int)
    } else {
        full
    }
}

} // verus!
