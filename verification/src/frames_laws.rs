//! What holds of the frames sexnet builds: every checksum it writes makes the
//! receiver's one's-complement sum come out all ones.
use vstd::prelude::*;
use crate::frames::{
    be16, folded_sum, hi8, inet_checksum, ipv4_header, lo8, tcp_after, tcp_event, tcp_segment0, word_sum,
    TcpConn, TcpEvent, TcpState,
};
use crate::netproto::{be_word_sum, fold_carries};

verus! {

proof fn lemma_fold_congruent(s: u32)
    ensures
        fold_carries(s) % 65535 == s % 65535,
        fold_carries(s) < 0x10000,
        s > 0 ==> fold_carries(s) > 0,
    decreases s,
{
    if s >> 16u32 != 0 {
        assert((s & 0xFFFF) + (s >> 16u32) < s) by (bit_vector)
            requires
                s >> 16u32 != 0,
        ;
        assert(s & 0xFFFF == s % 65536 && s >> 16u32 == s / 65536) by (bit_vector);
        let t = ((s & 0xFFFF) + (s >> 16u32)) as u32;
        assert(s == 65536 * (s / 65536) + s % 65536);
        assert(t == s / 65536 + s % 65536);
        assert((s as int - t as int) == 65535 * (s / 65536) as int);
        assert((s as int - t as int) % 65535 == 0) by {
            vstd::arithmetic::div_mod::lemma_mod_multiples_basic((s / 65536) as int, 65535);
        }
        assert(s % 65535 == t % 65535) by {
            vstd::arithmetic::div_mod::lemma_mod_sub_multiples_vanish(s as int, 65535);
            vstd::arithmetic::div_mod::lemma_fundamental_div_mod(s as int, 65535);
            vstd::arithmetic::div_mod::lemma_fundamental_div_mod(t as int, 65535);
            vstd::arithmetic::div_mod::lemma_fundamental_div_mod((s - t) as int, 65535);
            assert(((s - t) as int) == 65535 * ((s - t) as int / 65535));
            vstd::arithmetic::div_mod::lemma_mod_multiples_vanish(((s - t) as int / 65535), t as int, 65535);
        }
        lemma_fold_congruent(t);
    } else {
        assert(s >> 16u32 == 0 ==> s < 0x10000) by (bit_vector);
    }
}

proof fn lemma_fold_of_multiple(y: u32)
    requires
        y > 0,
        y % 65535 == 0,
    ensures
        fold_carries(y) == 65535,
{
    lemma_fold_congruent(y);
}

/// A 16-bit field written as its high and low bytes adds its value to the word sum.
proof fn lemma_field_bytes(c: u16)
    ensures
        (hi8(c) as nat) * 256 + lo8(c) as nat == c as nat,
{
    assert((((c >> 8u16) & 0xFF) as u8) as u16 * 256 + (((c & 0xFF) as u8) as u16) == c) by (bit_vector);
}

proof fn lemma_be_word_sum_update(s: Seq<u8>, k: int, c: u16, n: nat)
    requires
        0 <= k,
        2 * k + 1 < s.len(),
        2 * n <= s.len(),
        s[2 * k] == 0,
        s[2 * k + 1] == 0,
    ensures
        be_word_sum(s.update(2 * k, hi8(c)).update(2 * k + 1, lo8(c)), n) == be_word_sum(s, n) + if k < n {
            c as nat
        } else {
            0
        },
    decreases n,
{
    if n > 0 {
        lemma_be_word_sum_update(s, k, c, (n - 1) as nat);
        lemma_field_bytes(c);
    }
}

/// Writing a 16-bit value into a zero field at an even offset adds it to the word sum.
proof fn lemma_word_sum_field(s: Seq<u8>, k: int, c: u16)
    requires
        0 <= k,
        2 * k + 1 < s.len(),
        s[2 * k] == 0,
        s[2 * k + 1] == 0,
    ensures
        word_sum(s.update(2 * k, hi8(c)).update(2 * k + 1, lo8(c))) == word_sum(s) + c,
{
    let t = s.update(2 * k, hi8(c)).update(2 * k + 1, lo8(c));
    lemma_be_word_sum_update(s, k, c, s.len() / 2);
    if s.len() % 2 == 1 {
        assert(t[t.len() - 1] == s[s.len() - 1]);
    }
}

proof fn lemma_complement(f: u16)
    ensures
        (!f) as nat == 65535 - f,
{
    assert(!f == 65535 - f) by (bit_vector);
}

/// Filling a zero 16-bit field at an even offset of `s` with the checksum of `init`
/// and `s` makes the one's-complement sum of `init` and the result all ones.
pub proof fn law_checksum_field(init: nat, s: Seq<u8>, k: int)
    requires
        0 <= k,
        2 * k + 1 < s.len(),
        s[2 * k] == 0,
        s[2 * k + 1] == 0,
        init + word_sum(s) + 65535 < 0x1_0000_0000,
    ensures
        folded_sum(init, s.update(2 * k, hi8(inet_checksum(init, s))).update(2 * k + 1, lo8(inet_checksum(init, s))))
            == 0xFFFF,
{
    let c = inet_checksum(init, s);
    let big = (init + word_sum(s)) as u32;
    lemma_fold_congruent(big);
    let f = fold_carries(big) as u16;
    lemma_complement(f);
    lemma_word_sum_field(s, k, c);
    let y = init + word_sum(s) + c;
    assert(y == big + 65535 - fold_carries(big));
    assert(y % 65535 == 0) by {
        vstd::arithmetic::div_mod::lemma_fundamental_div_mod(big as int, 65535);
        vstd::arithmetic::div_mod::lemma_fundamental_div_mod(fold_carries(big) as int, 65535);
        assert(y == 65535 * (big as int / 65535) + 65535 - 65535 * (fold_carries(big) as int / 65535));
        assert(y == 65535 * (big as int / 65535 + 1 - fold_carries(big) as int / 65535));
        vstd::arithmetic::div_mod::lemma_mod_multiples_basic(
            big as int / 65535 + 1 - fold_carries(big) as int / 65535,
            65535,
        );
    }
    if big == 0 {
        assert(0u32 >> 16u32 == 0) by (bit_vector);
        assert(fold_carries(big) == 0);
    }
    assert(y > 0);
    lemma_fold_of_multiple(y as u32);
}

proof fn lemma_be_word_sum_bound(s: Seq<u8>, n: nat)
    requires
        2 * n <= s.len(),
    ensures
        be_word_sum(s, n) <= 65535 * n,
    decreases n,
{
    if n > 0 {
        lemma_be_word_sum_bound(s, (n - 1) as nat);
    }
}

/// The word sum of `s` is at most 65535 per started word.
pub proof fn lemma_word_sum_bound(s: Seq<u8>)
    ensures
        word_sum(s) <= 65535 * (s.len() / 2 + 1),
{
    lemma_be_word_sum_bound(s, s.len() / 2);
}

/// Every IPv4 header the guest sends carries a checksum the receiving check accepts:
/// the one's-complement sum of its ten words is all ones.
pub proof fn law_ipv4_header_checksum(total_len: u16, id: u16, proto: u8, src: Seq<u8>, dst: Seq<u8>)
    requires
        src.len() == 4,
        dst.len() == 4,
    ensures
        folded_sum(0, ipv4_header(total_len, id, proto, src, dst)) == 0xFFFF,
{
    let h = seq![0x45u8, 0u8] + be16(total_len) + be16(id) + seq![0u8, 0u8, 64u8, proto, 0u8, 0u8] + src + dst;
    lemma_word_sum_bound(h);
    law_checksum_field(0, h, 5);
}

/// Every TCP segment the guest sends carries a checksum the receiver accepts: with
/// the pseudo-header sum `pseudo` of its addresses and length, the one's-complement
/// sum of the segment is all ones.
pub proof fn law_tcp_segment_checksum(
    pseudo: nat,
    sport: u16,
    dport: u16,
    seq: u32,
    ack: u32,
    flags: u8,
    payload: Seq<u8>,
)
    requires
        payload.len() <= 1460,
        pseudo <= 0x10_0000,
    ensures
        ({
            let t = tcp_segment0(sport, dport, seq, ack, flags, payload);
            let ck = inet_checksum(pseudo, t);
            folded_sum(pseudo, t.update(16, hi8(ck)).update(17, lo8(ck))) == 0xFFFF
        }),
{
    let t = tcp_segment0(sport, dport, seq, ack, flags, payload);
    lemma_word_sum_bound(t);
    assert(t[16] == 0 && t[17] == 0);
    law_checksum_field(pseudo, t, 8);
}

/// The echo reply's ICMP checksum verifies: for a request of `total_len` bytes in
/// `f`, the reply's message (type 0, the request's identifier, sequence number and
/// payload) sums to all ones.
pub proof fn law_ping_reply_checksum(f: Seq<u8>, total_len: u16)
    requires
        28 <= total_len,
        14 + total_len <= f.len(),
    ensures
        ({
            let msg0 = seq![0u8, 0u8, 0u8, 0u8] + f.subrange(38, 42) + f.subrange(42, 14 + total_len);
            let ck = inet_checksum(0, msg0);
            folded_sum(0, msg0.update(2, hi8(ck)).update(3, lo8(ck))) == 0xFFFF
        }),
{
    let msg0 = seq![0u8, 0u8, 0u8, 0u8] + f.subrange(38, 42) + f.subrange(42, 14 + total_len);
    lemma_word_sum_bound(msg0);
    assert(msg0[2] == 0 && msg0[3] == 0);
    law_checksum_field(0, msg0, 1);
}

/// The handshake: an accepted segment that resets fails the connection whatever else
/// it carries; a SYN-ACK establishes it and records the peer's sequence number;
/// anything else leaves it as it was. Ports and the guest's own sequence number never
/// change.
pub proof fn law_tcp_transitions(c: TcpConn, flags: u8, seq: u32, ack: u32)
    ensures
        (flags >> 2u8) & 1 == 1 ==> tcp_after(c, flags, seq).state == TcpState::FailedRst && tcp_event(c, flags, ack)
            == TcpEvent::Reset,
        (flags >> 2u8) & 1 == 0 && (flags >> 1u8) & 1 == 1 && (flags >> 4u8) & 1 == 1 ==> tcp_after(
            c,
            flags,
            seq,
        ).state == TcpState::Established && tcp_after(c, flags, seq).remote_seq == seq,
        !((flags >> 2u8) & 1 == 1 || ((flags >> 1u8) & 1 == 1 && (flags >> 4u8) & 1 == 1)) ==> tcp_after(
            c,
            flags,
            seq,
        ) == c,
        tcp_after(c, flags, seq).local_port == c.local_port,
        tcp_after(c, flags, seq).remote_port == c.remote_port,
        tcp_after(c, flags, seq).local_seq == c.local_seq,
        tcp_after(c, flags, seq).remote_ip == c.remote_ip,
{
}

} // verus!
