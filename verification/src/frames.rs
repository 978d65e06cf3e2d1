//! The frames of sexnet's own network stack on the e1000: the NIC's MAC address, the
//! Internet checksum, ARP requests and replies, IPv4 acceptance, the ICMP and UDP
//! echo replies, the TCP handshake and its segments, the HTTP response reassembly,
//! and the transmit descriptors.
use vstd::prelude::*;
use crate::dns::{be16_at, be32_at};
use crate::netproto::{be_word_sum, fold_carries};

verus! {

// ---------------------------------------------------------------------------
// Bytes
// ---------------------------------------------------------------------------

/// The guest's address, 10.0.2.15.
pub open spec fn guest_ip() -> Seq<u8> {
    seq![10u8, 0u8, 2u8, 15u8]
}

/// High byte of a 16-bit field.
pub open spec fn hi8(x: u16) -> u8 {
    ((x >> 8u16) & 0xFF) as u8
}

/// Low byte of a 16-bit field.
pub open spec fn lo8(x: u16) -> u8 {
    (x & 0xFF) as u8
}

/// A 16-bit field in network order.
pub open spec fn be16(x: u16) -> Seq<u8> {
    seq![hi8(x), lo8(x)]
}

/// A 32-bit field in network order.
pub open spec fn be32(x: u32) -> Seq<u8> {
    seq![((x >> 24u32) & 0xFF) as u8, ((x >> 16u32) & 0xFF) as u8, ((x >> 8u32) & 0xFF) as u8, (x & 0xFF) as u8]
}

/// `n` zero bytes.
pub open spec fn zeros(n: nat) -> Seq<u8> {
    Seq::new(n, |i: int| 0u8)
}

fn push_be16(v: &mut Vec<u8>, x: u16)
    ensures
        final(v)@ == old(v)@ + be16(x),
{
    v.push(((x >> 8u16) & 0xFF) as u8);
    v.push((x & 0xFF) as u8);
    proof {
        assert(final(v)@ =~= old(v)@ + be16(x));
    }
}

fn push_be32(v: &mut Vec<u8>, x: u32)
    ensures
        final(v)@ == old(v)@ + be32(x),
{
    v.push(((x >> 24u32) & 0xFF) as u8);
    v.push(((x >> 16u32) & 0xFF) as u8);
    v.push(((x >> 8u32) & 0xFF) as u8);
    v.push((x & 0xFF) as u8);
    proof {
        assert(final(v)@ =~= old(v)@ + be32(x));
    }
}

fn push_slice(v: &mut Vec<u8>, s: &[u8])
    ensures
        final(v)@ == old(v)@ + s@,
{
    let mut i: usize = 0;
    while i < s.len()
        invariant
            i <= s@.len(),
            v@ == old(v)@ + s@.take(i as int),
        decreases s@.len() - i,
    {
        v.push(s[i]);
        proof {
            assert(s@.take(i + 1) == s@.take(i as int).push(s@[i as int]));
        }
        i += 1;
    }
    proof {
        assert(s@.take(s@.len() as int) == s@);
    }
}

fn push_range(v: &mut Vec<u8>, s: &[u8], a: usize, b: usize)
    requires
        a <= b <= s@.len(),
    ensures
        final(v)@ == old(v)@ + s@.subrange(a as int, b as int),
{
    let mut i: usize = a;
    while i < b
        invariant
            a <= i <= b,
            b <= s@.len(),
            v@ == old(v)@ + s@.subrange(a as int, i as int),
        decreases b - i,
    {
        v.push(s[i]);
        proof {
            assert(s@.subrange(a as int, i + 1) == s@.subrange(a as int, i as int).push(s@[i as int]));
        }
        i += 1;
    }
}

fn push_zeros(v: &mut Vec<u8>, n: usize)
    ensures
        final(v)@ == old(v)@ + zeros(n as nat),
{
    let mut i: usize = 0;
    while i < n
        invariant
            i <= n,
            v@ == old(v)@ + zeros(i as nat),
        decreases n - i,
    {
        v.push(0u8);
        proof {
            assert(zeros((i + 1) as nat) == zeros(i as nat).push(0u8));
        }
        i += 1;
    }
}

/// The NIC's MAC address from its receive-address registers RAL and RAH.
pub open spec fn spec_nic_mac(ral: u32, rah: u32) -> Seq<u8> {
    seq![
        (ral & 0xFF) as u8,
        ((ral >> 8u32) & 0xFF) as u8,
        ((ral >> 16u32) & 0xFF) as u8,
        ((ral >> 24u32) & 0xFF) as u8,
        (rah & 0xFF) as u8,
        ((rah >> 8u32) & 0xFF) as u8,
    ]
}

/// The NIC's MAC address from RAL and RAH, low byte first.
pub fn nic_mac(ral: u32, rah: u32) -> (m: [u8; 6])
    ensures
        m@ == spec_nic_mac(ral, rah),
{
    let m: [u8; 6] = [
        (ral & 0xFF) as u8,
        ((ral >> 8u32) & 0xFF) as u8,
        ((ral >> 16u32) & 0xFF) as u8,
        ((ral >> 24u32) & 0xFF) as u8,
        (rah & 0xFF) as u8,
        ((rah >> 8u32) & 0xFF) as u8,
    ];
    proof {
        assert(m@ =~= spec_nic_mac(ral, rah));
    }
    m
}

// ---------------------------------------------------------------------------
// The Internet checksum
// ---------------------------------------------------------------------------

/// Sum of the big-endian 16-bit words of `s`, an odd last byte counting as the high
/// byte of a word.
pub open spec fn word_sum(s: Seq<u8>) -> nat {
    be_word_sum(s, s.len() / 2) + if s.len() % 2 == 1 {
        (s[s.len() - 1] as nat) * 256
    } else {
        0
    }
}

/// The one's-complement sum of `init` and the words of `s`, carries folded back in.
pub open spec fn folded_sum(init: nat, s: Seq<u8>) -> u16 {
    fold_carries(#[verifier::truncate] ((init + word_sum(s)) as u32)) as u16
}

/// The checksum field that makes the one's-complement sum of `init` and `s` all ones.
pub open spec fn inet_checksum(init: nat, s: Seq<u8>) -> u16 {
    !folded_sum(init, s)
}

proof fn lemma_be_word_sum_bound(s: Seq<u8>, n: nat)
    requires
        2 * n <= s.len(),
    ensures
        be_word_sum(s, n) <= 65535 * n,
    decreases n,
{
    if n > 0 {
        lemma_be_word_sum_bound(s, (n - 1) as nat);
    }
}

proof fn lemma_fold_u16(s: u32)
    ensures
        fold_carries(s) < 0x10000,
    decreases s,
{
    if s >> 16u32 != 0 {
        assert((s & 0xFFFF) + (s >> 16u32) < s) by (bit_vector)
            requires
                s >> 16u32 != 0,
        ;
        lemma_fold_u16(((s & 0xFFFF) + (s >> 16u32)) as u32);
    } else {
        assert(s >> 16u32 == 0 ==> s < 0x10000) by (bit_vector);
    }
}

/// The folded one's-complement sum of `init` and the words of `b[off..off + len]`.
fn sum_words(b: &[u8], off: usize, len: usize, init: u32) -> (r: u16)
    requires
        off + len <= b@.len(),
        len <= 65536,
        init <= 0x10_0000,
    ensures
        r == folded_sum(init as nat, b@.subrange(off as int, off + len)),
{
    let ghost s = b@.subrange(off as int, off + len);
    let n: usize = b.len();
    let mut sum: u32 = init;
    let mut w: usize = 0;
    let half: usize = len / 2;
    while w < half
        invariant
            w <= half,
            half == len / 2,
            2 * half <= len,
            n == b@.len(),
            s == b@.subrange(off as int, off + len),
            off + len <= b@.len(),
            len <= 65536,
            init <= 0x10_0000,
            sum == init + be_word_sum(s, w as nat),
            be_word_sum(s, w as nat) <= 65535 * w,
        decreases half - w,
    {
        let hi = b[off + 2 * w] as u16;
        let lo = b[off + 2 * w + 1] as u16;
        assert((hi << 8u16) | lo == hi * 256 + lo) by (bit_vector)
            requires
                hi < 256,
                lo < 256,
        ;
        assert(s[2 * w as int] == hi && s[2 * w + 1] == lo);
        sum = sum + ((hi << 8u16) | lo) as u32;
        w += 1;
    }
    if len % 2 == 1 {
        let last = b[off + len - 1] as u16;
        assert(last << 8u16 == last * 256) by (bit_vector)
            requires
                last < 256,
        ;
        assert(s[s.len() - 1] == last);
        sum = sum + (last << 8u16) as u32;
    }
    assert(sum == init + word_sum(s));
    while (sum >> 16u32) != 0
        invariant
            fold_carries(sum) == fold_carries(#[verifier::truncate] ((init + word_sum(s)) as u32)),
        decreases sum,
    {
        assert((sum >> 16u32) != 0 ==> (sum & 0xFFFF) + (sum >> 16u32) < sum) by (bit_vector);
        sum = (sum & 0xFFFF) + (sum >> 16u32);
    }
    assert(sum >> 16u32 == 0 ==> sum < 0x10000) by (bit_vector);
    sum as u16
}

// ---------------------------------------------------------------------------
// Owning the NIC
// ---------------------------------------------------------------------------

/// The HAL's diagnostics own the ring.
pub const NIC_OWNER_HAL_DIAG: u8 = 0;
/// sexnet owns the receive ring.
pub const NIC_OWNER_SEXNET_RX: u8 = 1;
/// sexnet owns the transmit ring.
pub const NIC_OWNER_SEXNET_TX: u8 = 2;
/// sexnet owns both rings.
pub const NIC_OWNER_SEXNET_FULL: u8 = 3;
/// RCTL: receiver enabled, unicast and multicast promiscuous, strip the CRC.
pub const RCTL_INIT: u32 = 0x0400_001A;
/// TCTL: transmitter enabled, pad short packets, collision threshold 0x10.
pub const TCTL_INIT: u32 = 0x0004_0102;
/// Bytes of a descriptor ring of eight 16-byte descriptors.
pub const RING_BYTES: u32 = 128;

/// The low and high halves of a ring's physical address, for its base registers.
pub fn ring_base(phys: u64) -> (r: (u32, u32))
    ensures
        r.0 == phys % 0x1_0000_0000,
        r.1 == phys / 0x1_0000_0000,
{
    assert(phys & 0xFFFF_FFFF == phys % 0x1_0000_0000 && phys >> 32u64 == phys / 0x1_0000_0000) by (bit_vector);
    ((phys & 0xFFFF_FFFF) as u32, (phys >> 32u64) as u32)
}

/// A programmed ring reads back its base address (low half) and the enable bit (bit 1)
/// of its control register.
pub fn ring_programmed(base_lo: u32, control: u32, phys: u64) -> (ok: bool)
    ensures
        ok == (base_lo == phys % 0x1_0000_0000 && control & 2 != 0),
{
    assert(phys & 0xFFFF_FFFF == phys % 0x1_0000_0000) by (bit_vector);
    base_lo == (phys & 0xFFFF_FFFF) as u32 && control & 2 != 0
}

/// Who owns the NIC's receive and transmit rings.
#[derive(Debug, Clone, Copy, PartialEq, Eq, Structural)]
pub struct NicOwnership {
    pub rx: u8,
    pub tx: u8,
}

impl NicOwnership {
    /// Both rings owned together or neither: sexnet has full ownership of one exactly
    /// when it has it of the other.
    pub open spec fn wf(&self) -> bool {
        (self.rx == NIC_OWNER_SEXNET_FULL) == (self.tx == NIC_OWNER_SEXNET_FULL)
    }

    /// At boot the HAL's diagnostics own both rings.
    pub fn new() -> (o: Self)
        ensures
            o.wf(),
            o.rx == NIC_OWNER_HAL_DIAG,
            o.tx == NIC_OWNER_HAL_DIAG,
    {
        NicOwnership { rx: NIC_OWNER_HAL_DIAG, tx: NIC_OWNER_HAL_DIAG }
    }

    /// Takes the receive ring once sexnet's own ring is programmed; true when it owns
    /// the receive ring and the ring is good.
    pub fn claim_rx(&mut self, ring_ok: bool) -> (claimed: bool)
        requires
            old(self).wf(),
            old(self).rx != NIC_OWNER_SEXNET_FULL,
        ensures
            final(self).wf(),
            final(self).tx == old(self).tx,
            final(self).rx == (if ring_ok { NIC_OWNER_SEXNET_RX } else { old(self).rx }),
            claimed == (ring_ok && final(self).rx == NIC_OWNER_SEXNET_RX),
    {
        if ring_ok {
            self.rx = NIC_OWNER_SEXNET_RX;
        }
        ring_ok && self.rx == NIC_OWNER_SEXNET_RX
    }

    /// Takes the transmit ring once its ring is programmed and a probe frame went
    /// out (`probe_sent`); with the receive ring already taken, sexnet then owns both
    /// fully. True when the transmit claim held.
    pub fn claim_tx(&mut self, ring_ok: bool, probe_sent: bool) -> (claimed: bool)
        requires
            old(self).wf(),
            old(self).tx != NIC_OWNER_SEXNET_FULL,
        ensures
            final(self).wf(),
            claimed == (ring_ok && (probe_sent || old(self).tx == NIC_OWNER_SEXNET_TX)),
            claimed && old(self).rx == NIC_OWNER_SEXNET_RX ==> final(self).rx == NIC_OWNER_SEXNET_FULL
                && final(self).tx == NIC_OWNER_SEXNET_FULL,
            !(claimed && old(self).rx == NIC_OWNER_SEXNET_RX) ==> final(self).rx == old(self).rx
                && final(self).tx == (if ring_ok && probe_sent { NIC_OWNER_SEXNET_TX } else { old(self).tx }),
    {
        if ring_ok && probe_sent {
            self.tx = NIC_OWNER_SEXNET_TX;
        }
        let claimed = self.tx == NIC_OWNER_SEXNET_TX && ring_ok;
        if claimed && self.rx == NIC_OWNER_SEXNET_RX {
            self.rx = NIC_OWNER_SEXNET_FULL;
            self.tx = NIC_OWNER_SEXNET_FULL;
        }
        claimed
    }

    /// Whether sexnet owns both rings, which every protocol phase needs.
    pub fn full(&self) -> (b: bool)
        ensures
            b == (self.rx == NIC_OWNER_SEXNET_FULL && self.tx == NIC_OWNER_SEXNET_FULL),
    {
        self.rx == NIC_OWNER_SEXNET_FULL && self.tx == NIC_OWNER_SEXNET_FULL
    }
}

// ---------------------------------------------------------------------------
// Ethernet and ARP
// ---------------------------------------------------------------------------

/// What a received frame carries, by its ethertype.
#[derive(Debug, Clone, Copy, PartialEq, Eq, Structural)]
pub enum EtherClass {
    Arp,
    Ipv4,
    Other(u16),
}

/// The class of a frame with ethertype `t`.
pub open spec fn spec_ether_class(t: u16) -> EtherClass {
    if t == 0x0806 {
        EtherClass::Arp
    } else if t == 0x0800 {
        EtherClass::Ipv4
    } else {
        EtherClass::Other(t)
    }
}

/// The class of a received frame, from its ethertype.
pub fn classify_frame(frame: &[u8]) -> (c: EtherClass)
    requires
        frame@.len() >= 14,
    ensures
        c == spec_ether_class(be16_at(frame@, 12)),
{
    let t: u16 = ((frame[12] as u16) << 8u16) | (frame[13] as u16);
    if t == 0x0806 {
        EtherClass::Arp
    } else if t == 0x0800 {
        EtherClass::Ipv4
    } else {
        EtherClass::Other(t)
    }
}

/// A frame is an ARP request (Ethernet hardware, IPv4 protocol, six- and four-byte
/// addresses) whose target is the guest.
pub open spec fn is_arp_request_for_guest(f: Seq<u8>) -> bool {
    &&& be16_at(f, 12) == 0x0806
    &&& be16_at(f, 14) == 1
    &&& be16_at(f, 16) == 0x0800
    &&& f[18] == 6
    &&& f[19] == 4
    &&& be16_at(f, 20) == 1
    &&& f.subrange(38, 42) == guest_ip()
}

/// The hardware and protocol address of an ARP peer.
#[derive(Debug, Clone, Copy, PartialEq, Eq)]
pub struct ArpPeer {
    pub mac: [u8; 6],
    pub ip: [u8; 4],
}

/// The sender of an ARP request for the guest, if the frame is one.
pub fn parse_arp_request(frame: &[u8]) -> (r: Option<ArpPeer>)
    requires
        frame@.len() >= 42,
    ensures
        is_arp_request_for_guest(frame@) ==> (r matches Some(p) && p.mac@ == frame@.subrange(22, 28)
            && p.ip@ == frame@.subrange(28, 32)),
        !is_arp_request_for_guest(frame@) ==> r is None,
{
    let ethertype: u16 = ((frame[12] as u16) << 8u16) | (frame[13] as u16);
    let htype: u16 = ((frame[14] as u16) << 8u16) | (frame[15] as u16);
    let ptype: u16 = ((frame[16] as u16) << 8u16) | (frame[17] as u16);
    let oper: u16 = ((frame[20] as u16) << 8u16) | (frame[21] as u16);
    let tpa_match = frame[38] == 10 && frame[39] == 0 && frame[40] == 2 && frame[41] == 15;
    proof {
        if frame@.subrange(38, 42) == guest_ip() {
            assert(frame@.subrange(38, 42)[0] == frame@[38]);
            assert(frame@.subrange(38, 42)[1] == frame@[39]);
            assert(frame@.subrange(38, 42)[2] == frame@[40]);
            assert(frame@.subrange(38, 42)[3] == frame@[41]);
        }
        if tpa_match {
            assert(frame@.subrange(38, 42) =~= guest_ip());
        }
    }
    if ethertype == 0x0806 && htype == 1 && ptype == 0x0800 && frame[18] == 6 && frame[19] == 4 && oper
        == 1 && tpa_match {
        let mac: [u8; 6] = [frame[22], frame[23], frame[24], frame[25], frame[26], frame[27]];
        let ip: [u8; 4] = [frame[28], frame[29], frame[30], frame[31]];
        proof {
            assert(mac@ =~= frame@.subrange(22, 28));
            assert(ip@ =~= frame@.subrange(28, 32));
        }
        Some(ArpPeer { mac, ip })
    } else {
        None
    }
}

/// The ARP reply that tells `peer` the guest's address is at `nic`, padded to the
/// 60-byte minimum frame.
pub open spec fn arp_reply_frame(peer_mac: Seq<u8>, peer_ip: Seq<u8>, nic: Seq<u8>) -> Seq<u8> {
    peer_mac + nic + seq![8u8, 6u8, 0u8, 1u8, 8u8, 0u8, 6u8, 4u8, 0u8, 2u8] + nic + guest_ip() + peer_mac
        + peer_ip + zeros(18)
}

/// The ARP reply to `peer` from the NIC at `nic`.
pub fn arp_reply(peer: &ArpPeer, nic: &[u8; 6]) -> (f: Vec<u8>)
    ensures
        f@ == arp_reply_frame(peer.mac@, peer.ip@, nic@),
        f@.len() == 60,
{
    let mut f: Vec<u8> = Vec::new();
    push_slice(&mut f, peer.mac.as_slice());
    push_slice(&mut f, nic.as_slice());
    let head: [u8; 10] = [8u8, 6u8, 0u8, 1u8, 8u8, 0u8, 6u8, 4u8, 0u8, 2u8];
    push_slice(&mut f, head.as_slice());
    push_slice(&mut f, nic.as_slice());
    let guest: [u8; 4] = [10u8, 0u8, 2u8, 15u8];
    push_slice(&mut f, guest.as_slice());
    push_slice(&mut f, peer.mac.as_slice());
    push_slice(&mut f, peer.ip.as_slice());
    push_zeros(&mut f, 18);
    proof {
        assert(head@ =~= seq![8u8, 6u8, 0u8, 1u8, 8u8, 0u8, 6u8, 4u8, 0u8, 2u8]);
        assert(guest@ =~= guest_ip());
    }
    f
}

/// What the guest remembers of the gateway's ARP reply.
#[derive(Debug, Clone, Copy, PartialEq, Eq)]
pub struct ArpCache {
    pub mac: [u8; 6],
    pub ip: [u8; 4],
    pub valid: bool,
}

impl ArpCache {
    /// An empty cache.
    pub fn new() -> (c: Self)
        ensures
            !c.valid,
            c.mac@ == zeros(6),
            c.ip@ == zeros(4),
    {
        let c = ArpCache { mac: [0u8; 6], ip: [0u8; 4], valid: false };
        proof {
            assert(c.mac@ =~= zeros(6));
            assert(c.ip@ =~= zeros(4));
        }
        c
    }

    /// Remembers the peer of an ARP request for the guest.
    pub fn learn(&mut self, peer: &ArpPeer)
        ensures
            final(self).valid,
            final(self).mac == peer.mac,
            final(self).ip == peer.ip,
    {
        self.mac = peer.mac;
        self.ip = peer.ip;
        self.valid = true;
    }
}

/// The MAC address of SLiRP's gateway 10.0.2.2 in QEMU user networking.
pub open spec fn slirp_gateway_mac() -> Seq<u8> {
    seq![0x52u8, 0x55u8, 0x0Au8, 0x00u8, 0x02u8, 0x02u8]
}

/// Where frames for `remote` go: the cached gateway, else SLiRP's gateway for
/// 10.0.2.2, else broadcast.
pub open spec fn spec_gateway_mac(cache: ArpCache, remote: Seq<u8>) -> Seq<u8> {
    if cache.valid {
        cache.mac@
    } else if remote == seq![10u8, 0u8, 2u8, 2u8] {
        slirp_gateway_mac()
    } else {
        seq![0xFFu8, 0xFFu8, 0xFFu8, 0xFFu8, 0xFFu8, 0xFFu8]
    }
}

/// The destination MAC address of frames for `remote`.
pub fn gateway_mac(cache: &ArpCache, remote: &[u8; 4]) -> (m: [u8; 6])
    ensures
        m@ == spec_gateway_mac(*cache, remote@),
{
    let is_slirp = remote[0] == 10 && remote[1] == 0 && remote[2] == 2 && remote[3] == 2;
    proof {
        if remote@ == seq![10u8, 0u8, 2u8, 2u8] {
            assert(remote@[0] == 10 && remote@[1] == 0 && remote@[2] == 2 && remote@[3] == 2);
        }
        if is_slirp {
            assert(remote@ =~= seq![10u8, 0u8, 2u8, 2u8]);
        }
    }
    if cache.valid {
        cache.mac
    } else if is_slirp {
        let m: [u8; 6] = [0x52u8, 0x55u8, 0x0Au8, 0x00u8, 0x02u8, 0x02u8];
        proof {
            assert(m@ =~= slirp_gateway_mac());
        }
        m
    } else {
        let m: [u8; 6] = [0xFFu8; 6];
        proof {
            assert(m@ =~= seq![0xFFu8, 0xFFu8, 0xFFu8, 0xFFu8, 0xFFu8, 0xFFu8]);
        }
        m
    }
}

// ---------------------------------------------------------------------------
// IPv4
// ---------------------------------------------------------------------------

/// Why a received IPv4 packet is dropped.
#[derive(Debug, Clone, Copy, PartialEq, Eq, Structural)]
pub enum Ipv4Reject {
    /// The frame is too short for an IPv4 header.
    Short,
    Version,
    /// The header has options.
    Ihl,
    TotalLenMin,
    /// The packet claims more bytes than the frame holds.
    TotalLenMax,
    Fragmented,
    /// The packet is not addressed to the guest.
    Dst,
    Checksum,
}

/// The fields of an accepted IPv4 packet that its handlers use.
#[derive(Debug, Clone, Copy, PartialEq, Eq)]
pub struct Ipv4Packet {
    pub total_len: u16,
    pub proto: u8,
    pub ttl: u8,
    pub src: [u8; 4],
}

/// The acceptance of the IPv4 packet in a frame of `pkt_len` bytes: the first rule it
/// breaks, or none.
pub open spec fn ipv4_reject(f: Seq<u8>, pkt_len: int) -> Option<Ipv4Reject> {
    if pkt_len < 34 {
        Some(Ipv4Reject::Short)
    } else if (f[14] >> 4u8) & 0x0F != 4 {
        Some(Ipv4Reject::Version)
    } else if f[14] & 0x0F != 5 {
        Some(Ipv4Reject::Ihl)
    } else if be16_at(f, 16) < 20 {
        Some(Ipv4Reject::TotalLenMin)
    } else if be16_at(f, 16) > pkt_len - 14 {
        Some(Ipv4Reject::TotalLenMax)
    } else if be16_at(f, 20) & 0x3FFF != 0 {
        Some(Ipv4Reject::Fragmented)
    } else if f.subrange(30, 34) != guest_ip() {
        Some(Ipv4Reject::Dst)
    } else if folded_sum(0, f.subrange(14, 34)) != 0xFFFF {
        Some(Ipv4Reject::Checksum)
    } else {
        None
    }
}

/// Checks the IPv4 packet of a received frame of `pkt_len` bytes (the frame's buffer
/// `frame` holds at least that many): its header fields when it is for the guest.
#[verifier::spinoff_prover]
pub fn parse_ipv4(frame: &[u8], pkt_len: usize) -> (r: Result<Ipv4Packet, Ipv4Reject>)
    requires
        pkt_len <= frame@.len(),
    ensures
        match ipv4_reject(frame@, pkt_len as int) {
            Some(e) => r == Err::<Ipv4Packet, Ipv4Reject>(e),
            None => r matches Ok(p) && p.total_len == be16_at(frame@, 16) && p.proto == frame@[23]
                && p.ttl == frame@[22] && p.src@ == frame@.subrange(26, 30),
        },
{
    if pkt_len < 34 {
        return Err(Ipv4Reject::Short);
    }
    let vihl = frame[14];
    let total_len: u16 = ((frame[16] as u16) << 8u16) | (frame[17] as u16);
    let flags_frag: u16 = ((frame[20] as u16) << 8u16) | (frame[21] as u16);
    if (vihl >> 4u8) & 0x0F != 4 {
        return Err(Ipv4Reject::Version);
    }
    if vihl & 0x0F != 5 {
        return Err(Ipv4Reject::Ihl);
    }
    if total_len < 20 {
        return Err(Ipv4Reject::TotalLenMin);
    }
    if total_len as usize > pkt_len - 14 {
        return Err(Ipv4Reject::TotalLenMax);
    }
    if flags_frag & 0x3FFF != 0 {
        return Err(Ipv4Reject::Fragmented);
    }
    let dst_ok = frame[30] == 10 && frame[31] == 0 && frame[32] == 2 && frame[33] == 15;
    proof {
        if frame@.subrange(30, 34) == guest_ip() {
            assert(frame@.subrange(30, 34)[0] == frame@[30]);
            assert(frame@.subrange(30, 34)[1] == frame@[31]);
            assert(frame@.subrange(30, 34)[2] == frame@[32]);
            assert(frame@.subrange(30, 34)[3] == frame@[33]);
        }
        if dst_ok {
            assert(frame@.subrange(30, 34) =~= guest_ip());
        }
    }
    if !dst_ok {
        return Err(Ipv4Reject::Dst);
    }
    if sum_words(frame, 14, 20, 0) != 0xFFFF {
        return Err(Ipv4Reject::Checksum);
    }
    let src: [u8; 4] = [frame[26], frame[27], frame[28], frame[29]];
    proof {
        assert(src@ =~= frame@.subrange(26, 30));
    }
    Ok(Ipv4Packet { total_len, proto: frame[23], ttl: frame[22], src })
}

/// An outgoing IPv4 header (no options, TTL 64, not fragmented) with its checksum.
pub open spec fn ipv4_header(total_len: u16, id: u16, proto: u8, src: Seq<u8>, dst: Seq<u8>) -> Seq<u8> {
    let h = seq![0x45u8, 0u8] + be16(total_len) + be16(id) + seq![0u8, 0u8, 64u8, proto, 0u8, 0u8] + src
        + dst;
    let ck = inet_checksum(0, h);
    h.update(10, hi8(ck)).update(11, lo8(ck))
}

/// The Ethernet header of an IPv4 frame from `src` to `dst`.
pub open spec fn ipv4_ether(dst: Seq<u8>, src: Seq<u8>) -> Seq<u8> {
    dst + src + seq![8u8, 0u8]
}

/// A frame padded with zeros to the 60-byte minimum.
pub open spec fn pad60(f: Seq<u8>) -> Seq<u8> {
    if f.len() < 60 {
        f + zeros((60 - f.len()) as nat)
    } else {
        f
    }
}

/// Appends the Ethernet header and the IPv4 header from the guest to `dst_ip`.
fn push_ipv4_headers(
    f: &mut Vec<u8>,
    dst_mac: &[u8],
    nic: &[u8],
    total_len: u16,
    id: u16,
    proto: u8,
    src_ip: &[u8],
    dst_ip: &[u8],
)
    requires
        old(f)@.len() == 0,
        dst_mac@.len() == 6,
        nic@.len() == 6,
        src_ip@.len() == 4,
        dst_ip@.len() == 4,
    ensures
        final(f)@ == ipv4_ether(dst_mac@, nic@) + ipv4_header(total_len, id, proto, src_ip@, dst_ip@),
{
    push_slice(f, dst_mac);
    push_slice(f, nic);
    f.push(8u8);
    f.push(0u8);
    let ghost eth = f@;
    f.push(0x45u8);
    f.push(0u8);
    push_be16(f, total_len);
    push_be16(f, id);
    f.push(0u8);
    f.push(0u8);
    f.push(64u8);
    f.push(proto);
    f.push(0u8);
    f.push(0u8);
    push_slice(f, src_ip);
    push_slice(f, dst_ip);
    let ghost h = seq![0x45u8, 0u8] + be16(total_len) + be16(id) + seq![0u8, 0u8, 64u8, proto, 0u8, 0u8]
        + src_ip@ + dst_ip@;
    proof {
        assert(eth =~= ipv4_ether(dst_mac@, nic@));
        assert(f@ =~= eth + h);
        assert(f@.subrange(14, 34) =~= h);
    }
    let ck: u16 = !sum_words(f.as_slice(), 14, 20, 0);
    f.set(24, ((ck >> 8u16) & 0xFF) as u8);
    f.set(25, (ck & 0xFF) as u8);
    proof {
        assert(f@ =~= eth + h.update(10, hi8(ck)).update(11, lo8(ck)));
    }
}

/// Appends `f` with zeros up to the 60-byte minimum frame.
fn pad_frame(f: &mut Vec<u8>)
    ensures
        final(f)@ == pad60(old(f)@),
{
    if f.len() < 60 {
        let n: usize = 60 - f.len();
        push_zeros(f, n);
    }
}

// ---------------------------------------------------------------------------
// ICMP and UDP echo
// ---------------------------------------------------------------------------

/// The echo reply to the ICMP echo request of `total_len` bytes in `f`: back to the
/// requester's MAC and address, with its identifier, sequence number and payload.
pub open spec fn ping_reply_frame(f: Seq<u8>, total_len: u16, nic: Seq<u8>) -> Seq<u8> {
    let msg0 = seq![0u8, 0u8, 0u8, 0u8] + f.subrange(38, 42) + f.subrange(42, 14 + total_len);
    let ck = inet_checksum(0, msg0);
    pad60(
        ipv4_ether(f.subrange(6, 12), nic) + ipv4_header(total_len, 0, 1, guest_ip(), f.subrange(26, 30))
            + msg0.update(2, hi8(ck)).update(3, lo8(ck)),
    )
}

/// The packet is an ICMP echo request (type 8, code 0) with a whole ICMP header.
pub open spec fn is_ping_request(f: Seq<u8>, p: Ipv4Packet) -> bool {
    p.proto == 1 && p.total_len >= 28 && f[34] == 8 && f[35] == 0
}

/// The reply to an accepted IPv4 packet `p` of `frame` when it is an ICMP echo
/// request.
#[verifier::spinoff_prover]
pub fn ping_reply(frame: &[u8], p: &Ipv4Packet, nic: &[u8; 6]) -> (r: Option<Vec<u8>>)
    requires
        14 + p.total_len <= frame@.len(),
        p.total_len >= 20,
    ensures
        is_ping_request(frame@, *p) ==> (r matches Some(v) && v@ == ping_reply_frame(frame@, p.total_len, nic@)),
        !is_ping_request(frame@, *p) ==> r is None,
{
    if p.proto != 1 || p.total_len < 28 || frame[34] != 8 || frame[35] != 0 {
        return None;
    }
    let total = p.total_len as usize;
    let mut f: Vec<u8> = Vec::new();
    let guest: [u8; 4] = [10u8, 0u8, 2u8, 15u8];
    proof {
        assert(guest@ =~= guest_ip());
    }
    push_ipv4_headers(&mut f, &frame[6..12], nic.as_slice(), p.total_len, 0, 1, guest.as_slice(), &frame[26..30]);
    let ghost head = f@;
    f.push(0u8);
    f.push(0u8);
    f.push(0u8);
    f.push(0u8);
    push_range(&mut f, frame, 38, 42);
    push_range(&mut f, frame, 42, 14 + total);
    let ghost msg0 = seq![0u8, 0u8, 0u8, 0u8] + frame@.subrange(38, 42) + frame@.subrange(42, 14 + total as int);
    proof {
        assert(frame@.subrange(6, 12) == frame@.subrange(6, 12));
        assert(f@ =~= head + msg0);
        assert(f@.subrange(34, 34 + (total - 20)) =~= msg0);
    }
    let ck: u16 = !sum_words(f.as_slice(), 34, total - 20, 0);
    f.set(36, ((ck >> 8u16) & 0xFF) as u8);
    f.set(37, (ck & 0xFF) as u8);
    proof {
        assert(f@ =~= head + msg0.update(2, hi8(ck)).update(3, lo8(ck)));
    }
    pad_frame(&mut f);
    Some(f)
}

/// Why a UDP datagram is dropped.
#[derive(Debug, Clone, Copy, PartialEq, Eq, Structural)]
pub enum UdpReject {
    LenTooSmall,
    LenExceedsPayload,
    Checksum,
}

/// The pseudo-header sum of a UDP or TCP segment of `len` bytes in `f`, between the
/// packet's addresses.
pub open spec fn pseudo_sum(f: Seq<u8>, proto: u8, len: nat) -> nat {
    (be16_at(f, 26) + be16_at(f, 28) + be16_at(f, 30) + be16_at(f, 32) + proto + len) as nat
}

/// The first rule the UDP datagram of an accepted packet of `total_len` bytes breaks:
/// its length must fit the packet, and a non-zero checksum must be right.
pub open spec fn udp_reject(f: Seq<u8>, total_len: u16) -> Option<UdpReject> {
    let udp_len = be16_at(f, 38);
    if udp_len < 8 {
        Some(UdpReject::LenTooSmall)
    } else if udp_len > total_len - 20 {
        Some(UdpReject::LenExceedsPayload)
    } else if be16_at(f, 40) != 0 && folded_sum(pseudo_sum(f, 17, udp_len as nat), f.subrange(34, 34 + udp_len))
        != 0xFFFF {
        Some(UdpReject::Checksum)
    } else {
        None
    }
}

/// The echo of a UDP datagram: ports swapped, the same length and payload, no
/// checksum.
pub open spec fn udp_reply_frame(f: Seq<u8>, nic: Seq<u8>) -> Seq<u8> {
    let udp_len = be16_at(f, 38);
    pad60(
        ipv4_ether(f.subrange(6, 12), nic) + ipv4_header((20 + udp_len) as u16, 0, 17, guest_ip(), f.subrange(26, 30))
            + f.subrange(36, 38) + f.subrange(34, 36) + f.subrange(38, 40) + seq![0u8, 0u8] + f.subrange(42, 34 + udp_len),
    )
}

fn read_be16(b: &[u8], i: usize) -> (r: u16)
    requires
        i + 1 < b@.len(),
    ensures
        r == be16_at(b@, i as int),
{
    ((b[i] as u16) << 8u16) | (b[i + 1] as u16)
}

/// The echo reply to the UDP datagram of an accepted packet `p` (protocol 17, at least
/// a UDP header long), or why it is dropped.
#[verifier::spinoff_prover]
pub fn udp_echo_reply(frame: &[u8], p: &Ipv4Packet, nic: &[u8; 6]) -> (r: Result<Vec<u8>, UdpReject>)
    requires
        p.proto == 17,
        p.total_len >= 28,
        14 + p.total_len <= frame@.len(),
    ensures
        match udp_reject(frame@, p.total_len) {
            Some(e) => r == Err::<Vec<u8>, UdpReject>(e),
            None => r matches Ok(v) && v@ == udp_reply_frame(frame@, nic@),
        },
{
    let udp_len = read_be16(frame, 38);
    let payload = (p.total_len - 20) as usize;
    if (udp_len as usize) < 8 {
        return Err(UdpReject::LenTooSmall);
    }
    if udp_len as usize > payload {
        return Err(UdpReject::LenExceedsPayload);
    }
    let csum = read_be16(frame, 40);
    if csum != 0 {
        let init: u32 = read_be16(frame, 26) as u32 + read_be16(frame, 28) as u32 + read_be16(frame, 30) as u32
            + read_be16(frame, 32) as u32 + 17 + udp_len as u32;
        if sum_words(frame, 34, udp_len as usize, init) != 0xFFFF {
            return Err(UdpReject::Checksum);
        }
    }
    let mut f: Vec<u8> = Vec::new();
    let guest: [u8; 4] = [10u8, 0u8, 2u8, 15u8];
    proof {
        assert(guest@ =~= guest_ip());
    }
    push_ipv4_headers(&mut f, &frame[6..12], nic.as_slice(), 20 + udp_len, 0, 17, guest.as_slice(), &frame[26..30]);
    push_range(&mut f, frame, 36, 38);
    push_range(&mut f, frame, 34, 36);
    push_range(&mut f, frame, 38, 40);
    f.push(0u8);
    f.push(0u8);
    push_range(&mut f, frame, 42, 34 + udp_len as usize);
    proof {
        assert(f@ =~= ipv4_ether(frame@.subrange(6, 12), nic@) + ipv4_header(
            (20 + udp_len) as u16,
            0,
            17,
            guest_ip(),
            frame@.subrange(26, 30),
        ) + frame@.subrange(36, 38) + frame@.subrange(34, 36) + frame@.subrange(38, 40) + seq![0u8, 0u8]
            + frame@.subrange(42, 34 + udp_len));
    }
    pad_frame(&mut f);
    Ok(f)
}

// ---------------------------------------------------------------------------
// TCP
// ---------------------------------------------------------------------------

/// A TCP header without options and with a zero checksum, followed by its payload.
pub open spec fn tcp_segment0(sport: u16, dport: u16, seq: u32, ack: u32, flags: u8, payload: Seq<u8>) -> Seq<u8> {
    be16(sport) + be16(dport) + be32(seq) + be32(ack) + seq![(0x50u8 | (flags & 1u8)), flags & 0x3Fu8]
        + be16(0xFFFF) + seq![0u8, 0u8, 0u8, 0u8] + payload
}

/// A TCP segment from the guest to `dst_ip` in its frame: IPv4 identifier `id`,
/// window 65535, the checksum over the pseudo-header, padded to the minimum frame.
pub open spec fn tcp_frame(
    dst_mac: Seq<u8>,
    nic: Seq<u8>,
    id: u16,
    dst_ip: Seq<u8>,
    sport: u16,
    dport: u16,
    seq: u32,
    ack: u32,
    flags: u8,
    payload: Seq<u8>,
) -> Seq<u8> {
    let t = tcp_segment0(sport, dport, seq, ack, flags, payload);
    let pseudo = (10 * 256 + 0) + (2 * 256 + 15) + be16_at(dst_ip, 0) + be16_at(dst_ip, 2) + 6 + t.len();
    let ck = inet_checksum(pseudo as nat, t);
    pad60(
        ipv4_ether(dst_mac, nic) + ipv4_header((20 + t.len()) as u16, id, 6, guest_ip(), dst_ip) + t.update(
            16,
            hi8(ck),
        ).update(17, lo8(ck)),
    )
}

/// Builds the frame of a TCP segment from the guest.
#[verifier::spinoff_prover]
#[verifier::rlimit(40)]
fn build_tcp_frame(
    dst_mac: &[u8],
    nic: &[u8],
    id: u16,
    dst_ip: &[u8],
    sport: u16,
    dport: u16,
    seq: u32,
    ack: u32,
    flags: u8,
    payload: &[u8],
) -> (f: Vec<u8>)
    requires
        dst_mac@.len() == 6,
        nic@.len() == 6,
        dst_ip@.len() == 4,
        payload@.len() <= 1460,
    ensures
        f@ == tcp_frame(dst_mac@, nic@, id, dst_ip@, sport, dport, seq, ack, flags, payload@),
{
    let seg_len: u16 = 20 + payload.len() as u16;
    let mut f: Vec<u8> = Vec::new();
    let guest: [u8; 4] = [10u8, 0u8, 2u8, 15u8];
    proof {
        assert(guest@ =~= guest_ip());
    }
    push_ipv4_headers(&mut f, dst_mac, nic, 20 + seg_len, id, 6, guest.as_slice(), dst_ip);
    let ghost head = f@;
    push_be16(&mut f, sport);
    push_be16(&mut f, dport);
    push_be32(&mut f, seq);
    push_be32(&mut f, ack);
    f.push(0x50u8 | (flags & 1u8));
    f.push(flags & 0x3Fu8);
    push_be16(&mut f, 0xFFFF);
    f.push(0u8);
    f.push(0u8);
    f.push(0u8);
    f.push(0u8);
    push_slice(&mut f, payload);
    let ghost t = tcp_segment0(sport, dport, seq, ack, flags, payload@);
    proof {
        assert(f@ =~= head + t);
        assert(f@.subrange(34, 34 + seg_len) =~= t);
    }
    let pseudo: u32 = (10 * 256 + 0) + (2 * 256 + 15) + read_be16(dst_ip, 0) as u32 + read_be16(dst_ip, 2) as u32
        + 6 + seg_len as u32;
    let ck: u16 = !sum_words(f.as_slice(), 34, seg_len as usize, pseudo);
    f.set(50, ((ck >> 8u16) & 0xFF) as u8);
    f.set(51, (ck & 0xFF) as u8);
    proof {
        assert(f@ =~= head + t.update(16, hi8(ck)).update(17, lo8(ck)));
    }
    pad_frame(&mut f);
    f
}

/// Where the guest's one TCP connection stands.
#[derive(Debug, Clone, Copy, PartialEq, Eq, Structural)]
pub enum TcpState {
    Closed,
    SynSent,
    Established,
    FailedRst,
    FailedTimeout,
}

/// The guest's TCP connection to the HTTP server behind the gateway.
#[derive(Debug, Clone, Copy, PartialEq, Eq)]
pub struct TcpConn {
    pub state: TcpState,
    pub local_port: u16,
    pub remote_port: u16,
    pub local_seq: u32,
    pub remote_seq: u32,
    pub remote_ip: [u8; 4],
}

/// Why a received TCP segment is dropped.
#[derive(Debug, Clone, Copy, PartialEq, Eq, Structural)]
pub enum TcpReject {
    DataOffsetTooSmall,
    HeaderExceedsPayload,
    DstPortMismatch,
    SrcPortMismatch,
    NotAwaitingResponse,
    Checksum,
}

/// What a received TCP segment did to the connection.
#[derive(Debug, Clone, Copy, PartialEq, Eq, Structural)]
pub enum TcpEvent {
    Rejected(TcpReject),
    /// The peer reset the connection.
    Reset,
    /// The peer's SYN-ACK: the connection is established; `ack_ok` tells whether it
    /// acknowledged the guest's SYN.
    SynAck { ack_ok: bool },
    /// Another accepted segment, which changes nothing.
    Other,
}

/// The first rule a TCP segment of an accepted packet of `total_len` bytes breaks for
/// the connection `c`.
pub open spec fn tcp_reject(f: Seq<u8>, total_len: u16, c: TcpConn) -> Option<TcpReject> {
    let dof = (f[46] >> 4u8) & 0x0F;
    if dof < 5 {
        Some(TcpReject::DataOffsetTooSmall)
    } else if dof * 4 > total_len - 20 {
        Some(TcpReject::HeaderExceedsPayload)
    } else if be16_at(f, 36) != c.local_port {
        Some(TcpReject::DstPortMismatch)
    } else if be16_at(f, 34) != c.remote_port {
        Some(TcpReject::SrcPortMismatch)
    } else if c.state != TcpState::SynSent && c.state != TcpState::Established {
        Some(TcpReject::NotAwaitingResponse)
    } else if folded_sum(pseudo_sum(f, 6, (total_len - 20) as nat), f.subrange(34, 14 + total_len)) != 0xFFFF {
        Some(TcpReject::Checksum)
    } else {
        None
    }
}

/// The connection after an accepted segment with flags byte `flags`, sequence number
/// `seq`: a reset fails it; a SYN-ACK establishes it and records the peer's
/// sequence number.
pub open spec fn tcp_after(c: TcpConn, flags: u8, seq: u32) -> TcpConn {
    if (flags >> 2u8) & 1 == 1 {
        TcpConn { state: TcpState::FailedRst, ..c }
    } else if (flags >> 1u8) & 1 == 1 && (flags >> 4u8) & 1 == 1 {
        TcpConn { state: TcpState::Established, remote_seq: seq, ..c }
    } else {
        c
    }
}

/// The event an accepted segment with flags byte `flags` and acknowledgment `ack`
/// reports.
pub open spec fn tcp_event(c: TcpConn, flags: u8, ack: u32) -> TcpEvent {
    if (flags >> 2u8) & 1 == 1 {
        TcpEvent::Reset
    } else if (flags >> 1u8) & 1 == 1 && (flags >> 4u8) & 1 == 1 {
        TcpEvent::SynAck { ack_ok: ack == c.local_seq.wrapping_add(1) }
    } else {
        TcpEvent::Other
    }
}

impl TcpConn {
    /// The connection before the handshake: port 7777 to 18081 at the gateway
    /// 10.0.2.2, initial sequence number 42.
    pub fn new() -> (c: Self)
        ensures
            c.state == TcpState::Closed,
            c.local_port == 7777,
            c.remote_port == 18081,
            c.local_seq == 42,
            c.remote_seq == 0,
            c.remote_ip@ == seq![10u8, 0u8, 2u8, 2u8],
    {
        let c = TcpConn {
            state: TcpState::Closed,
            local_port: 7777,
            remote_port: 18081,
            local_seq: 42,
            remote_seq: 0,
            remote_ip: [10u8, 0u8, 2u8, 2u8],
        };
        proof {
            assert(c.remote_ip@ =~= seq![10u8, 0u8, 2u8, 2u8]);
        }
        c
    }

    /// The SYN that opens the connection, to the gateway at `dst_mac`.
    pub fn syn_frame(&self, dst_mac: &[u8; 6], nic: &[u8; 6]) -> (f: Vec<u8>)
        ensures
            f@ == tcp_frame(
                dst_mac@,
                nic@,
                0,
                self.remote_ip@,
                self.local_port,
                self.remote_port,
                self.local_seq,
                0,
                0x02,
                Seq::empty(),
            ),
    {
        let empty: [u8; 0] = [];
        proof {
            assert(empty@ =~= Seq::<u8>::empty());
        }
        build_tcp_frame(
            dst_mac.as_slice(),
            nic.as_slice(),
            0,
            self.remote_ip.as_slice(),
            self.local_port,
            self.remote_port,
            self.local_seq,
            0,
            0x02,
            empty.as_slice(),
        )
    }

    /// Records that the SYN went out: the connection waits for the SYN-ACK.
    pub fn syn_sent(&mut self)
        ensures
            *final(self) == (TcpConn { state: TcpState::SynSent, ..*old(self) }),
    {
        self.state = TcpState::SynSent;
    }

    /// Handles the TCP segment of an accepted packet `p` (protocol 6, at least two
    /// headers long) in `frame`.
    #[verifier::spinoff_prover]
    pub fn on_segment(&mut self, frame: &[u8], p: &Ipv4Packet) -> (e: TcpEvent)
        requires
            p.proto == 6,
            p.total_len >= 40,
            14 + p.total_len <= frame@.len(),
        ensures
            match tcp_reject(frame@, p.total_len, *old(self)) {
                Some(r) => e == TcpEvent::Rejected(r) && *final(self) == *old(self),
                None => e == tcp_event(*old(self), frame@[47], be32_at(frame@, 42))
                    && *final(self) == tcp_after(*old(self), frame@[47], be32_at(frame@, 38)),
            },
    {
        let dof: u8 = (frame[46] >> 4u8) & 0x0F;
        let flags: u8 = frame[47];
        let payload_len: usize = (p.total_len - 20) as usize;
        if dof < 5 {
            return TcpEvent::Rejected(TcpReject::DataOffsetTooSmall);
        }
        if (dof as usize) * 4 > payload_len {
            return TcpEvent::Rejected(TcpReject::HeaderExceedsPayload);
        }
        if read_be16(frame, 36) != self.local_port {
            return TcpEvent::Rejected(TcpReject::DstPortMismatch);
        }
        if read_be16(frame, 34) != self.remote_port {
            return TcpEvent::Rejected(TcpReject::SrcPortMismatch);
        }
        if self.state != TcpState::SynSent && self.state != TcpState::Established {
            return TcpEvent::Rejected(TcpReject::NotAwaitingResponse);
        }
        let init: u32 = read_be16(frame, 26) as u32 + read_be16(frame, 28) as u32 + read_be16(frame, 30) as u32
            + read_be16(frame, 32) as u32 + 6 + payload_len as u32;
        if sum_words(frame, 34, payload_len, init) != 0xFFFF {
            return TcpEvent::Rejected(TcpReject::Checksum);
        }
        let seq: u32 = ((frame[38] as u32) << 24u32) | ((frame[39] as u32) << 16u32) | ((frame[40] as u32) << 8u32)
            | (frame[41] as u32);
        let ack: u32 = ((frame[42] as u32) << 24u32) | ((frame[43] as u32) << 16u32) | ((frame[44] as u32) << 8u32)
            | (frame[45] as u32);
        if (flags >> 2u8) & 1 == 1 {
            self.state = TcpState::FailedRst;
            TcpEvent::Reset
        } else if (flags >> 1u8) & 1 == 1 && (flags >> 4u8) & 1 == 1 {
            let ack_ok = ack == self.local_seq.wrapping_add(1);
            self.state = TcpState::Established;
            self.remote_seq = seq;
            TcpEvent::SynAck { ack_ok }
        } else {
            TcpEvent::Other
        }
    }

    /// The ACK that completes the handshake, back to the sender of the SYN-ACK (its
    /// MAC and address): sequence and acknowledgment numbers one past each side's
    /// SYN, modulo 2^32.
    pub fn ack_frame(&self, dst_mac: &[u8; 6], nic: &[u8; 6], dst_ip: &[u8; 4]) -> (f: Vec<u8>)
        ensures
            f@ == tcp_frame(
                dst_mac@,
                nic@,
                1,
                dst_ip@,
                self.local_port,
                self.remote_port,
                self.local_seq.wrapping_add(1),
                self.remote_seq.wrapping_add(1),
                0x10,
                Seq::empty(),
            ),
    {
        let empty: [u8; 0] = [];
        proof {
            assert(empty@ =~= Seq::<u8>::empty());
        }
        build_tcp_frame(
            dst_mac.as_slice(),
            nic.as_slice(),
            1,
            dst_ip.as_slice(),
            self.local_port,
            self.remote_port,
            self.local_seq.wrapping_add(1),
            self.remote_seq.wrapping_add(1),
            0x10,
            empty.as_slice(),
        )
    }

    /// The PSH+ACK segment that carries `payload` (an HTTP request) on the
    /// established connection, to the gateway at `dst_mac`.
    pub fn payload_frame(&self, dst_mac: &[u8; 6], nic: &[u8; 6], payload: &[u8]) -> (f: Vec<u8>)
        requires
            payload@.len() <= 1460,
        ensures
            f@ == tcp_frame(
                dst_mac@,
                nic@,
                2,
                self.remote_ip@,
                self.local_port,
                self.remote_port,
                self.local_seq.wrapping_add(1),
                self.remote_seq.wrapping_add(1),
                0x18,
                payload@,
            ),
    {
        build_tcp_frame(
            dst_mac.as_slice(),
            nic.as_slice(),
            2,
            self.remote_ip.as_slice(),
            self.local_port,
            self.remote_port,
            self.local_seq.wrapping_add(1),
            self.remote_seq.wrapping_add(1),
            0x18,
            payload,
        )
    }
}

// ---------------------------------------------------------------------------
// The HTTP response
// ---------------------------------------------------------------------------

/// Bytes of the HTTP response kept.
pub const RESPONSE_CAP: usize = 512;
/// Bytes of the response body kept.
pub const BODY_CAP: usize = 256;

/// Where the data of a received frame of `rlen` bytes lies when it is a TCP segment
/// from the server's port to the guest's that acknowledges, does not reset, and
/// carries data within the frame: its offset and length.
pub open spec fn response_payload(f: Seq<u8>, rlen: int, remote_port: u16, local_port: u16) -> Option<(int, int)> {
    let ihl = (f[14] & 0x0F) as int * 4;
    let tb = 14 + ihl;
    if rlen < 54 || f[12] != 8 || f[13] != 0 || ihl < 20 || tb + 20 > rlen || f[23] != 6 {
        None
    } else if be16_at(f, tb) != remote_port || be16_at(f, tb + 2) != local_port {
        None
    } else {
        let flags = f[tb + 13];
        let thl = (f[tb + 12] >> 4u8) as int * 4;
        let ip_total = be16_at(f, 16) as int;
        let off = tb + thl;
        let len = ip_total - ihl - thl;
        if flags & 0x10 == 0 || flags & 0x04 != 0 || thl < 20 || len < 0 || len == 0 || off + len > rlen {
            None
        } else {
            Some((off, len))
        }
    }
}

/// The data of a received frame of `rlen` bytes (in a buffer that holds them) when it
/// is a segment of the HTTP response on connection `c`.
#[verifier::spinoff_prover]
pub fn response_segment(frame: &[u8], rlen: usize, c: &TcpConn) -> (r: Option<(usize, usize)>)
    requires
        rlen <= frame@.len(),
    ensures
        match response_payload(frame@, rlen as int, c.remote_port, c.local_port) {
            Some((o, l)) => r == Some((o as usize, l as usize)),
            None => r is None,
        },
{
    if rlen < 54 || frame[12] != 8 || frame[13] != 0 {
        return None;
    }
    let ihl: usize = ((frame[14] & 0x0F) as usize) * 4;
    let tb: usize = 14 + ihl;
    if ihl < 20 || tb + 20 > rlen || frame[23] != 6 {
        return None;
    }
    if read_be16(frame, tb) != c.remote_port || read_be16(frame, tb + 2) != c.local_port {
        return None;
    }
    let flags = frame[tb + 13];
    let thl: usize = ((frame[tb + 12] >> 4u8) as usize) * 4;
    let ip_total: usize = read_be16(frame, 16) as usize;
    if flags & 0x10 == 0 || flags & 0x04 != 0 || thl < 20 || ip_total < ihl + thl {
        return None;
    }
    let off: usize = tb + thl;
    let len: usize = ip_total - ihl - thl;
    if len == 0 || off + len > rlen {
        return None;
    }
    Some((off, len))
}

/// The response after appending the `len` bytes at `off` of a frame: as many as fit
/// under the cap.
pub open spec fn append_capped(resp: Seq<u8>, f: Seq<u8>, off: int, len: int) -> Seq<u8> {
    let room = RESPONSE_CAP - resp.len();
    let n = if len < room { len } else { room };
    resp + f.subrange(off, off + n)
}

/// Appends a segment's data to the response, up to its cap; true when some of it
/// did not fit.
pub fn append_response(resp: &mut Vec<u8>, frame: &[u8], off: usize, len: usize) -> (truncated: bool)
    requires
        old(resp)@.len() <= RESPONSE_CAP,
        off + len <= frame@.len(),
    ensures
        final(resp)@ == append_capped(old(resp)@, frame@, off as int, len as int),
        final(resp)@.len() <= RESPONSE_CAP,
        truncated == (len > RESPONSE_CAP - old(resp)@.len()),
{
    let fl: usize = frame.len();
    let room: usize = RESPONSE_CAP - resp.len();
    let n: usize = if len < room {
        len
    } else {
        room
    };
    push_range(resp, frame, off, off + n);
    len > room
}

/// The index of the first `\r\n\r\n` of `r` at or after `i`, if any.
pub open spec fn header_end_from(r: Seq<u8>, i: int) -> Option<int>
    decreases r.len() - i,
{
    if i < 0 || i + 3 >= r.len() {
        None
    } else if r[i] == 13 && r[i + 1] == 10 && r[i + 2] == 13 && r[i + 3] == 10 {
        Some(i)
    } else {
        header_end_from(r, i + 1)
    }
}

/// The first index at or after `i` that is not a CR or LF byte, or the end.
pub open spec fn skip_line_breaks(r: Seq<u8>, i: int) -> int
    decreases r.len() - i,
{
    if i < 0 || i >= r.len() {
        i
    } else if r[i] == 13 || r[i] == 10 {
        skip_line_breaks(r, i + 1)
    } else {
        i
    }
}

/// Where the body of response `r` starts: after the blank line that ends the
/// headers, else after the status line (of `status_len` bytes) and its line breaks,
/// else nowhere (the end).
pub open spec fn body_start(r: Seq<u8>, status_len: int) -> int {
    match header_end_from(r, 0) {
        Some(i) => i + 4,
        None => if 0 < status_len < r.len() {
            skip_line_breaks(r, status_len)
        } else {
            r.len() as int
        },
    }
}

/// The start of the response's body, as much of it as the body buffer holds.
pub open spec fn body_prefix(r: Seq<u8>, status_len: int) -> Seq<u8> {
    let s = body_start(r, status_len);
    let e = if s + BODY_CAP < r.len() {
        s + BODY_CAP
    } else {
        r.len() as int
    };
    if s < r.len() {
        r.subrange(s, e)
    } else {
        Seq::empty()
    }
}

proof fn lemma_skip_line_breaks(r: Seq<u8>, i: int)
    requires
        0 <= i <= r.len(),
    ensures
        i <= skip_line_breaks(r, i) <= r.len(),
    decreases r.len() - i,
{
    if i < r.len() && (r[i] == 13 || r[i] == 10) {
        lemma_skip_line_breaks(r, i + 1);
    }
}

proof fn lemma_header_end_from(r: Seq<u8>, i: int)
    requires
        0 <= i,
    ensures
        header_end_from(r, i) matches Some(k) ==> i <= k && k + 3 < r.len(),
    decreases r.len() - i,
{
    if i + 3 < r.len() && !(r[i] == 13 && r[i + 1] == 10 && r[i + 2] == 13 && r[i + 3] == 10) {
        lemma_header_end_from(r, i + 1);
    }
}

/// The body of the response `resp` whose status line is `status_len` bytes long
/// (0 when it did not parse), cut to the body buffer.
#[verifier::spinoff_prover]
pub fn http_body(resp: &[u8], status_len: usize) -> (b: Vec<u8>)
    ensures
        b@ == body_prefix(resp@, status_len as int),
{
    let n: usize = resp.len();
    let mut start: usize = n;
    let mut found = false;
    let mut i: usize = 0;
    while i < n && n - i > 3
        invariant_except_break
            !found,
            start == n,
        invariant
            n == resp@.len(),
            i <= n,
            header_end_from(resp@, 0) == header_end_from(resp@, i as int),
        ensures
            found ==> 4 <= start <= n && header_end_from(resp@, 0) == Some(start - 4),
            !found ==> start == n && header_end_from(resp@, 0) is None,
        decreases n - i,
    {
        if resp[i] == 13 && resp[i + 1] == 10 && resp[i + 2] == 13 && resp[i + 3] == 10 {
            start = i + 4;
            found = true;
            break;
        }
        i += 1;
    }
    proof {
        lemma_header_end_from(resp@, 0);
        if status_len < n {
            lemma_skip_line_breaks(resp@, status_len as int);
        }
    }
    if !found && status_len > 0 && status_len < n {
        start = status_len;
        while start < n && (resp[start] == 13 || resp[start] == 10)
            invariant
                status_len <= start <= n,
                n == resp@.len(),
                skip_line_breaks(resp@, status_len as int) == skip_line_breaks(resp@, start as int),
            decreases n - start,
        {
            start += 1;
        }
    }
    proof {
        assert(start as int == body_start(resp@, status_len as int));
    }
    let mut b: Vec<u8> = Vec::new();
    if start < n {
        let end: usize = if n - start > BODY_CAP {
            start + BODY_CAP
        } else {
            n
        };
        push_range(&mut b, resp, start, end);
    }
    proof {
        assert(b@ =~= body_prefix(resp@, status_len as int));
    }
    b
}

// ---------------------------------------------------------------------------
// Descriptors, test frames and the HAL's diagnostic body
// ---------------------------------------------------------------------------

/// A legacy transmit descriptor: the frame's physical address and length, the
/// command end-of-packet, insert-FCS and report-status, everything else zero.
pub open spec fn tx_descriptor_bytes(phys: u64, len: u16) -> Seq<u8> {
    crate::le_bytes::le64(phys) + crate::le_bytes::le16(len) + seq![0u8, 0x0Bu8, 0u8, 0u8, 0u8, 0u8]
}

/// The transmit descriptor of a frame of `len` bytes at `phys`.
pub fn tx_descriptor(phys: u64, len: u16) -> (d: Vec<u8>)
    ensures
        d@ == tx_descriptor_bytes(phys, len),
{
    let mut d: Vec<u8> = Vec::new();
    crate::le_bytes::push_le64(&mut d, phys);
    crate::le_bytes::push_le16(&mut d, len);
    d.push(0u8);
    d.push(0x0Bu8);
    d.push(0u8);
    d.push(0u8);
    d.push(0u8);
    d.push(0u8);
    proof {
        assert(d@ =~= tx_descriptor_bytes(phys, len));
    }
    d
}

/// The MAC address QEMU gives the guest's NIC, 52:54:00:12:34:56.
pub open spec fn qemu_guest_mac() -> Seq<u8> {
    seq![0x52u8, 0x54u8, 0x00u8, 0x12u8, 0x34u8, 0x56u8]
}

/// The layer-2 probe: broadcast from the guest's MAC, ethertype 0x88B5 (local
/// experimental), 46 bytes of 0x42.
pub open spec fn l2_probe_bytes() -> Seq<u8> {
    seq![0xFFu8, 0xFFu8, 0xFFu8, 0xFFu8, 0xFFu8, 0xFFu8] + qemu_guest_mac() + seq![0x88u8, 0xB5u8] + Seq::new(
        46,
        |i: int| 0x42u8,
    )
}

/// The layer-2 probe frame.
pub fn l2_probe_frame() -> (f: Vec<u8>)
    ensures
        f@ == l2_probe_bytes(),
{
    let mut f: Vec<u8> = Vec::new();
    let head: [u8; 14] = [0xFFu8, 0xFFu8, 0xFFu8, 0xFFu8, 0xFFu8, 0xFFu8, 0x52u8, 0x54u8, 0x00u8, 0x12u8, 0x34u8, 0x56u8, 0x88u8, 0xB5u8];
    push_slice(&mut f, head.as_slice());
    let ghost h = f@;
    let mut i: usize = 0;
    while i < 46
        invariant
            i <= 46,
            f@ == h + Seq::new(i as nat, |j: int| 0x42u8),
        decreases 46 - i,
    {
        f.push(0x42u8);
        proof {
            assert(Seq::new((i + 1) as nat, |j: int| 0x42u8) =~= Seq::new(i as nat, |j: int| 0x42u8).push(0x42u8));
        }
        i += 1;
    }
    proof {
        assert(head@ =~= seq![0xFFu8, 0xFFu8, 0xFFu8, 0xFFu8, 0xFFu8, 0xFFu8] + qemu_guest_mac() + seq![0x88u8, 0xB5u8]);
    }
    f
}

/// The payload of the UDP self-test datagram, `HELLO_SEXNET_UDP_ECHO`.
pub open spec fn selftest_payload() -> Seq<u8> {
    seq![72u8, 69u8, 76u8, 76u8, 79u8, 95u8, 83u8, 69u8, 88u8, 78u8, 69u8, 84u8, 95u8, 85u8, 68u8, 80u8, 95u8, 69u8, 67u8, 72u8, 79u8]
}

/// The UDP echo request the server injects into its own receive ring when no real
/// frame arrives: from the host's MAC and 10.0.2.2 port 12345 to the guest's port
/// 7777, no UDP checksum.
pub open spec fn udp_selftest_bytes() -> Seq<u8> {
    ipv4_ether(qemu_guest_mac(), seq![0xFEu8, 0x56u8, 0x3Au8, 0x6Cu8, 0x97u8, 0x32u8]) + ipv4_header(
        49,
        0,
        17,
        seq![10u8, 0u8, 2u8, 2u8],
        guest_ip(),
    ) + be16(12345) + be16(7777) + be16(29) + seq![0u8, 0u8] + selftest_payload()
}

/// The UDP self-test frame.
pub fn udp_selftest_frame() -> (f: Vec<u8>)
    ensures
        f@ == udp_selftest_bytes(),
        f@.len() == 63,
{
    let mut f: Vec<u8> = Vec::new();
    let dst: [u8; 6] = [0x52u8, 0x54u8, 0x00u8, 0x12u8, 0x34u8, 0x56u8];
    let src: [u8; 6] = [0xFEu8, 0x56u8, 0x3Au8, 0x6Cu8, 0x97u8, 0x32u8];
    let gw: [u8; 4] = [10u8, 0u8, 2u8, 2u8];
    let guest: [u8; 4] = [10u8, 0u8, 2u8, 15u8];
    proof {
        assert(dst@ =~= qemu_guest_mac());
        assert(gw@ =~= seq![10u8, 0u8, 2u8, 2u8]);
        assert(guest@ =~= guest_ip());
    }
    push_ipv4_headers(&mut f, dst.as_slice(), src.as_slice(), 49, 0, 17, gw.as_slice(), guest.as_slice());
    push_be16(&mut f, 12345);
    push_be16(&mut f, 7777);
    push_be16(&mut f, 29);
    f.push(0u8);
    f.push(0u8);
    let payload: [u8; 21] = [72u8, 69u8, 76u8, 76u8, 79u8, 95u8, 83u8, 69u8, 88u8, 78u8, 69u8, 84u8, 95u8, 85u8, 68u8, 80u8, 95u8, 69u8, 67u8, 72u8, 79u8];
    push_slice(&mut f, payload.as_slice());
    proof {
        assert(src@ =~= seq![0xFEu8, 0x56u8, 0x3Au8, 0x6Cu8, 0x97u8, 0x32u8]);
        assert(payload@ =~= selftest_payload());
        assert(f@ =~= udp_selftest_bytes());
    }
    f
}

/// A body byte as the status text shows it: line breaks become spaces.
pub open spec fn line_safe(b: u8) -> u8 {
    if b == 13 || b == 10 {
        32
    } else {
        b
    }
}

/// The body the HAL's diagnostic reported: at most 64 bytes of the packed words, each
/// word's bytes low first, line breaks replaced.
pub open spec fn diag_body_bytes(words: Seq<u64>, blen: u64) -> Seq<u8> {
    let n = if blen < 64 { blen as nat } else { 64nat };
    Seq::new(n, |i: int| line_safe(crate::le_bytes::le64(words[i / 8])[i % 8]))
}

/// Unpacks the diagnostic body of `blen` bytes from the words the HAL returned, eight
/// bytes a word.
pub fn diag_body(words: &[u64], blen: u64) -> (b: Vec<u8>)
    requires
        words@.len() * 8 >= (if blen < 64 { blen as int } else { 64 }),
    ensures
        b@ == diag_body_bytes(words@, blen),
{
    let n: usize = if blen < 64 {
        blen as usize
    } else {
        64
    };
    let mut b: Vec<u8> = Vec::new();
    let mut i: usize = 0;
    while i < n
        invariant
            i <= n,
            n == (if blen < 64 { blen as int } else { 64 }),
            words@.len() * 8 >= n,
            b@ == diag_body_bytes(words@, blen).take(i as int),
        decreases n - i,
    {
        let mut tmp: Vec<u8> = Vec::new();
        crate::le_bytes::push_le64(&mut tmp, words[i / 8]);
        let x = tmp[i % 8];
        let y = if x == 13 || x == 10 {
            32u8
        } else {
            x
        };
        b.push(y);
        proof {
            assert(tmp@ =~= crate::le_bytes::le64(words@[(i / 8) as int]));
            assert(diag_body_bytes(words@, blen).take(i + 1) =~= diag_body_bytes(words@, blen).take(i as int).push(y));
        }
        i += 1;
    }
    proof {
        assert(diag_body_bytes(words@, blen).take(n as int) =~= diag_body_bytes(words@, blen));
    }
    b
}

} // verus!
