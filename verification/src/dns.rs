//! Acceptance of the DNS response to the "example.com" query, and the A-record cache
//! it fills.
use vstd::prelude::*;
use crate::sexnet::DnsEntry;

verus! {

pub open spec fn be16_at(p: Seq<u8>, i: int) -> u16 {
    ((p[i] as u16) << 8u16) | (p[i + 1] as u16)
}

pub open spec fn be32_at(p: Seq<u8>, i: int) -> u32 {
    ((p[i] as u32) << 24u32) | ((p[i + 1] as u32) << 16u32) | ((p[i + 2] as u32) << 8u32) | (p[i
        + 3] as u32)
}

/// Offset just past a run of uncompressed labels starting at `off` (ending at the zero
/// label), or none when it runs out of bounds, is compressed, or exceeds 64 labels.
pub open spec fn skip_labels(p: Seq<u8>, off: int, end: int, iter: int) -> Option<int>
    decreases 64 - iter,
{
    if iter >= 64 || iter < 0 {
        None
    } else if off < 0 || off >= end {
        None
    } else if p[off] == 0 {
        Some(off + 1)
    } else if p[off] & 0xC0 != 0 {
        None
    } else if off + 1 + p[off] > end {
        None
    } else {
        skip_labels(p, off + 1 + p[off], end, iter + 1)
    }
}

/// Index of the first invalid cache entry at or after `i`, else 0.
pub open spec fn insert_slot_from(c: Seq<DnsEntry>, i: int) -> int
    decreases c.len() - i,
{
    if i < 0 || i >= c.len() {
        0
    } else if c[i].valid == 0 {
        i
    } else {
        insert_slot_from(c, i + 1)
    }
}

/// The cache after recording an A record: the first invalid entry, else entry 0.
pub open spec fn cache_insert(c: Seq<DnsEntry>, ip: u32, ttl: u32) -> Seq<DnsEntry> {
    c.update(insert_slot_from(c, 0), DnsEntry { ip, valid: 1, ttl })
}

/// The end of an answer's owner name: a two-byte pointer, or a label run.
pub open spec fn answer_name_end(p: Seq<u8>, off: int, end: int) -> Option<int> {
    if p[off] & 0xC0 == 0xC0 {
        if off + 2 > end {
            None
        } else {
            Some(off + 2)
        }
    } else {
        skip_labels(p, off, end, 0)
    }
}

/// Whether the answers from number `ai` on (at most two in all) are well formed, and
/// the cache after recording the A/IN records among them.
pub open spec fn parse_answers(
    p: Seq<u8>,
    off: int,
    end: int,
    ai: int,
    ancount: u16,
    c: Seq<DnsEntry>,
) -> (bool, Seq<DnsEntry>)
    decreases 2 - ai,
{
    if ai >= 2 || ai >= ancount || ai < 0 {
        (true, c)
    } else if off + 12 > end {
        (false, c)
    } else {
        match answer_name_end(p, off, end) {
            None => (false, c),
            Some(o) => if o + 10 > end {
                (false, c)
            } else {
                let rdlen = be16_at(p, o + 8);
                if o + 10 + rdlen > end {
                    (false, c)
                } else {
                    let c2 = if be16_at(p, o) == 1 && be16_at(p, o + 2) == 1 && rdlen == 4 {
                        cache_insert(c, be32_at(p, o + 10), be32_at(p, o + 4))
                    } else {
                        c
                    };
                    parse_answers(p, o + 10 + rdlen, end, ai + 1, ancount, c2)
                }
            },
        }
    }
}

/// Reply (1 accepted, 0 rejected or ignored) and cache after a received frame: an
/// IPv4/UDP datagram from the DNS server's port 53 carrying a response to query 0x1234
/// with RCODE 0, whose question and first two answers are well formed.
pub open spec fn spec_dns_response(p: Seq<u8>, rx_len: int, c: Seq<DnsEntry>) -> (u32, Seq<DnsEntry>) {
    if rx_len < 54 {
        (0, c)
    } else if p[12] != 8 || p[13] != 0 {
        (0, c)
    } else {
        let ihl = (p[14] & 0x0F) * 4;
        if ihl < 20 || 14 + ihl + 8 > rx_len {
            (0, c)
        } else if p[23] != 17 {
            (0, c)
        } else if p[26] != 10 || p[27] != 0 || p[28] != 2 || p[29] != 3 {
            (0, c)
        } else {
            let ub = 14 + ihl;
            if be16_at(p, ub) != 53 {
                (0, c)
            } else if be16_at(p, ub + 4) < 8 {
                (0, c)
            } else {
                let dl = be16_at(p, ub + 4) - 8;
                let db = ub + 8;
                let end = db + dl;
                if end > rx_len || dl < 12 {
                    (0, c)
                } else if be16_at(p, db) != 0x1234 {
                    (0, c)
                } else if be16_at(p, db + 2) & 0x8000 == 0 {
                    (0, c)
                } else if be16_at(p, db + 2) & 0x000F != 0 {
                    (0, c)
                } else {
                    let q = if be16_at(p, db + 4) > 0 {
                        match skip_labels(p, db + 12, end, 0) {
                            None => None,
                            Some(o) => if o + 4 > end {
                                None
                            } else {
                                Some(o + 4)
                            },
                        }
                    } else {
                        Some(db + 12)
                    };
                    match q {
                        None => (0, c),
                        Some(off) => {
                            let (ok, c2) = parse_answers(p, off, end, 0, be16_at(p, db + 6), c);
                            (if ok {
                                1
                            } else {
                                0
                            }, c2)
                        },
                    }
                }
            }
        }
    }
}

proof fn lemma_skip_labels_bound(p: Seq<u8>, off: int, end: int, iter: int)
    ensures
        skip_labels(p, off, end, iter) matches Some(o) ==> off < o <= end,
    decreases 64 - iter,
{
    if !(iter >= 64 || iter < 0) && !(off < 0 || off >= end) && p[off] != 0 && p[off] & 0xC0 == 0
        && off + 1 + p[off] <= end {
        lemma_skip_labels_bound(p, off + 1 + p[off], end, iter + 1);
    }
}

fn read_be16(p: &[u8], i: usize) -> (r: u16)
    requires
        i + 2 <= p@.len(),
    ensures
        r == be16_at(p@, i as int),
{
    ((p[i] as u16) << 8u16) | (p[i + 1] as u16)
}

fn read_be32(p: &[u8], i: usize) -> (r: u32)
    requires
        i + 4 <= p@.len(),
    ensures
        r == be32_at(p@, i as int),
{
    ((p[i] as u32) << 24u32) | ((p[i + 1] as u32) << 16u32) | ((p[i + 2] as u32) << 8u32) | (p[i
        + 3] as u32)
}

/// Skip a run of labels from `off`; mirrors `skip_labels`.
fn skip_name_labels(p: &[u8], off: usize, end: usize) -> (r: Option<usize>)
    requires
        end <= p@.len(),
        off <= end,
    ensures
        match r {
            Some(o) => skip_labels(p@, off as int, end as int, 0) == Some(o as int),
            None => skip_labels(p@, off as int, end as int, 0) is None,
        },
{
    let mut cur = off;
    let mut iter: u32 = 0;
    loop
        invariant
            end <= p@.len(),
            off <= cur <= end,
            iter <= 64,
            skip_labels(p@, off as int, end as int, 0) == skip_labels(p@, cur as int, end as int, iter as int),
        decreases 64 - iter,
    {
        if iter >= 64 {
            return None;
        }
        if cur >= end {
            return None;
        }
        let lab = p[cur];
        if lab == 0 {
            return Some(cur + 1);
        }
        if lab & 0xC0 != 0 {
            return None;
        }
        let step = lab as usize;
        if step > end - (cur + 1) {
            return None;
        }
        cur = cur + 1 + step;
        iter += 1;
    }
}

fn insert_slot(cache: &Vec<DnsEntry>) -> (r: usize)
    ensures
        r as int == insert_slot_from(cache@, 0),
        cache@.len() > 0 ==> r < cache@.len(),
{
    let mut ins: usize = 0;
    while ins < cache.len()
        invariant
            ins <= cache@.len(),
            insert_slot_from(cache@, 0) == insert_slot_from(cache@, ins as int),
        decreases cache@.len() - ins,
    {
        if cache[ins].valid == 0 {
            return ins;
        }
        ins += 1;
    }
    0
}

/// Check a received frame (its first `rx_len` bytes) as the DNS response to the
/// "example.com" query and record its A/IN answers in `cache`. Returns 1 when the
/// response is accepted.
pub fn dns_source3_try_parse_and_cache(pkt: &[u8], rx_len: usize, cache: &mut Vec<DnsEntry>) -> (r: u32)
    requires
        rx_len <= pkt@.len(),
        old(cache)@.len() == 4,
    ensures
        (r, final(cache)@) == spec_dns_response(pkt@, rx_len as int, old(cache)@),
        final(cache)@.len() == 4,
{
    if rx_len < 54 {
        return 0;
    }
    if pkt[12] != 0x08 || pkt[13] != 0x00 {
        return 0;
    }
    let ihl = ((pkt[14] & 0x0F) as usize) * 4;
    if ihl < 20 || 14 + ihl + 8 > rx_len {
        return 0;
    }
    if pkt[23] != 17 {
        return 0;
    }
    if pkt[26] != 10 || pkt[27] != 0 || pkt[28] != 2 || pkt[29] != 3 {
        return 0;
    }
    let udp_base = 14 + ihl;
    if read_be16(pkt, udp_base) != 53 {
        return 0;
    }
    let udp_len = read_be16(pkt, udp_base + 4);
    if udp_len < 8 {
        return 0;
    }
    let dns_len = (udp_len as usize) - 8;
    let dns_base = udp_base + 8;
    if dns_len > rx_len - dns_base || dns_len < 12 {
        return 0;
    }
    let end = dns_base + dns_len;
    if read_be16(pkt, dns_base) != 0x1234 {
        return 0;
    }
    let flags = read_be16(pkt, dns_base + 2);
    if flags & 0x8000 == 0 {
        return 0;
    }
    if flags & 0x000F != 0 {
        return 0;
    }
    let qdcount = read_be16(pkt, dns_base + 4);
    let ancount = read_be16(pkt, dns_base + 6);
    let mut off = dns_base + 12;
    if qdcount > 0 {
        match skip_name_labels(pkt, off, end) {
            None => return 0,
            Some(o) => {
                proof {
                    lemma_skip_labels_bound(pkt@, off as int, end as int, 0);
                }
                if o > end || 4 > end - o {
                    return 0;
                }
                off = o + 4;
            },
        }
    }
    let ghost off_start = off;
    let ghost c0 = cache@;
    let mut ai: u32 = 0;
    while ai < 2 && (ai as u16) < ancount
        invariant
            end <= rx_len <= pkt@.len(),
            off <= end,
            ai <= 2,
            cache@.len() == 4,
            c0 == old(cache)@,
            spec_dns_response(pkt@, rx_len as int, c0) == (if parse_answers(pkt@, off_start as int, end as int, 0, ancount, c0).0 {
                1u32
            } else {
                0u32
            }, parse_answers(pkt@, off_start as int, end as int, 0, ancount, c0).1),
            parse_answers(pkt@, off_start as int, end as int, 0, ancount, c0) == parse_answers(
                pkt@,
                off as int,
                end as int,
                ai as int,
                ancount,
                cache@,
            ),
        decreases 2 - ai,
    {
        if 12 > end - off {
            return 0;
        }
        let n0 = pkt[off];
        if (n0 & 0xC0) == 0xC0 {
            off = off + 2;
        } else {
            match skip_name_labels(pkt, off, end) {
                None => return 0,
                Some(o) => {
                    proof {
                        lemma_skip_labels_bound(pkt@, off as int, end as int, 0);
                    }
                    off = o;
                },
            }
        }
        if 10 > end - off {
            return 0;
        }
        let typ = read_be16(pkt, off);
        let cls = read_be16(pkt, off + 2);
        let ttl = read_be32(pkt, off + 4);
        let rdlen = read_be16(pkt, off + 8);
        off = off + 10;
        if (rdlen as usize) > end - off {
            return 0;
        }
        if typ == 1 && cls == 1 && rdlen == 4 {
            let ip = read_be32(pkt, off);
            let ins = insert_slot(cache);
            cache.set(ins, DnsEntry { ip, valid: 1, ttl });
        }
        off = off + (rdlen as usize);
        ai += 1;
    }
    1
}

} // verus!
