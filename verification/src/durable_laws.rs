//! Laws of the durable backend: a freshly built page validates, and loading after a
//! write gives back the table that was written.
use vstd::prelude::*;
use crate::crc::{spec_crc16_ibm, spec_crc32c};
use crate::durable::{
    authoritative, count_valid, decode_record, encode_page, next_seq, page_a, page_b,
    page_cleared, page_seq, page_unsigned, page_valid, record_at, record_bytes, record_cleared,
    record_unsigned, record_valid, records, replace_page, spec_init, spec_load, spec_write_all,
    target_offset, zeros,
};
use crate::kvstore::{KvSlot, states_valid};
use crate::le_bytes::{from_le16, from_le32, from_le64, le16, le32, le64, lemma_le16, lemma_le32, lemma_le64, lemma_le_zero};

verus! {

proof fn lemma_record_len(s: KvSlot, id: u16)
    ensures
        record_unsigned(s, id).len() == 24,
        record_bytes(s, id).len() == 24,
{
    lemma_le16(0xD5E5);
    lemma_le16(id);
    lemma_le32(s.key);
    lemma_le64(s.val);
    lemma_le16(spec_crc16_ibm(record_unsigned(s, id)));
}

proof fn lemma_records_len(slots: Seq<KvSlot>, n: nat)
    ensures
        records(slots, n).len() == 24 * n,
    decreases n,
{
    if n > 0 {
        lemma_records_len(slots, (n - 1) as nat);
        lemma_record_len(slots[n - 1], (n - 1) as u16);
    }
}

proof fn lemma_records_index(slots: Seq<KvSlot>, n: nat, i: int)
    requires
        0 <= i < n,
    ensures
        records(slots, n).subrange(24 * i, 24 * i + 24) == record_bytes(slots[i], i as u16),
    decreases n,
{
    lemma_records_len(slots, (n - 1) as nat);
    lemma_record_len(slots[n - 1], (n - 1) as u16);
    let prev = records(slots, (n - 1) as nat);
    if i == n - 1 {
        assert(records(slots, n).subrange(24 * i, 24 * i + 24) =~= record_bytes(slots[i], i as u16));
    } else {
        lemma_records_index(slots, (n - 1) as nat, i);
        assert(records(slots, n).subrange(24 * i, 24 * i + 24) =~= prev.subrange(24 * i, 24 * i + 24));
    }
}

/// A record written for a slot in a known state is intact and decodes to that slot.
proof fn lemma_record_roundtrip(s: KvSlot, i: int)
    requires
        0 <= i < 16,
        s.state <= 2,
    ensures
        record_valid(record_bytes(s, i as u16), i),
        decode_record(record_bytes(s, i as u16)) == s,
{
    let id = i as u16;
    let u = record_unsigned(s, id);
    let r = record_bytes(s, id);
    lemma_record_len(s, id);
    lemma_le16(0xD5E5);
    lemma_le16(id);
    lemma_le32(s.key);
    lemma_le64(s.val);
    lemma_le16(spec_crc16_ibm(u));
    assert(record_cleared(r) =~= u);
    assert(r.subrange(16, 24) =~= le64(s.val));
    assert(r[12] == le32(s.key)[0] && r[13] == le32(s.key)[1] && r[14] == le32(s.key)[2] && r[15]
        == le32(s.key)[3]);
}

proof fn lemma_count_all_valid(p: Seq<u8>, n: nat)
    requires
        n <= 16,
        forall|i: int| 0 <= i < n ==> record_valid(#[trigger] record_at(p, i), i),
    ensures
        count_valid(p, n) == n,
    decreases n,
{
    if n > 0 {
        lemma_count_all_valid(p, (n - 1) as nat);
        assert(record_valid(record_at(p, n - 1), n - 1));
    }
}

/// A freshly built page is valid, carries its sequence number, and each of its sixteen
/// records is intact and decodes to the slot it was built from.
pub proof fn law_built_page_valid(slots: Seq<KvSlot>, seq: u32)
    requires
        slots.len() == 16,
        states_valid(slots),
    ensures
        encode_page(slots, seq).len() == 512,
        page_valid(encode_page(slots, seq)),
        page_seq(encode_page(slots, seq)) == seq,
        forall|i: int|
            0 <= i < 16 ==> record_valid(#[trigger] record_at(encode_page(slots, seq), i), i)
                && decode_record(record_at(encode_page(slots, seq), i)) == slots[i],
        count_valid(encode_page(slots, seq), 16) == 16,
{
    let p = encode_page(slots, seq);
    let c = spec_crc32c(page_unsigned(slots, seq));
    lemma_records_len(slots, 16);
    lemma_le32(0xA5A5);
    lemma_le32(seq);
    lemma_le32(c);
    lemma_le32(0);
    lemma_le_zero();
    assert(page_cleared(p) =~= page_unsigned(slots, seq));
    assert(p[0] == le32(0xA5A5)[0] && p[1] == le32(0xA5A5)[1] && p[2] == le32(0xA5A5)[2] && p[3]
        == le32(0xA5A5)[3]);
    assert(p[4] == le32(seq)[0] && p[5] == le32(seq)[1] && p[6] == le32(seq)[2] && p[7] == le32(
        seq,
    )[3]);
    assert(p[8] == le32(c)[0] && p[9] == le32(c)[1] && p[10] == le32(c)[2] && p[11] == le32(c)[3]);
    assert forall|i: int| 0 <= i < 16 implies record_valid(#[trigger] record_at(p, i), i)
        && decode_record(record_at(p, i)) == slots[i] by {
        lemma_records_index(slots, 16, i);
        assert(record_at(p, i) =~= records(slots, 16).subrange(24 * i, 24 * i + 24));
        lemma_record_roundtrip(slots[i], i);
    }
    lemma_count_all_valid(p, 16);
}

proof fn lemma_replace_page(region: Seq<u8>, off: int, page: Seq<u8>)
    requires
        region.len() == 1024,
        page.len() == 512,
        off == 0 || off == 512,
    ensures
        off == 0 ==> page_a(replace_page(region, off, page)) == page && page_b(
            replace_page(region, off, page),
        ) == page_b(region),
        off == 512 ==> page_b(replace_page(region, off, page)) == page && page_a(
            replace_page(region, off, page),
        ) == page_a(region),
        replace_page(region, off, page).len() == 1024,
{
    let w = replace_page(region, off, page);
    if off == 0 {
        assert(page_a(w) =~= page);
        assert(page_b(w) =~= page_b(region));
    } else {
        assert(page_b(w) =~= page);
        assert(page_a(w) =~= page_a(region));
    }
}

/// What a read gives back of a write: loading the region right after a snapshot of a
/// table was written yields exactly that table, with all sixteen records intact.
/// (Holds while the newest sequence number is below `u32::MAX`; at the wrap the new
/// page restarts at 1 and the older page stays authoritative.)
pub proof fn law_load_after_write(region: Seq<u8>, slots: Seq<KvSlot>, prior: Seq<KvSlot>)
    requires
        region.len() == 1024,
        slots.len() == 16,
        prior.len() == 16,
        states_valid(slots),
        page_seq(page_a(region)) < 0xFFFF_FFFF,
        page_seq(page_b(region)) < 0xFFFF_FFFF,
    ensures
        spec_load(spec_write_all(region, slots), prior) == (slots, (16u32, 16u32, 0u32)),
{
    let q = next_seq(region);
    let p = encode_page(slots, q);
    law_built_page_valid(slots, q);
    let w = spec_write_all(region, slots);
    lemma_replace_page(region, target_offset(region), p);
    assert(authoritative(w) == p);
    let loaded = spec_load(w, prior).0;
    assert(loaded =~= slots);
}

/// First boot: initialising a region where neither page is valid and then loading it
/// gives back the table that was written.
pub proof fn law_load_after_init(region: Seq<u8>, slots: Seq<KvSlot>, prior: Seq<KvSlot>)
    requires
        region.len() == 1024,
        slots.len() == 16,
        prior.len() == 16,
        states_valid(slots),
        page_seq(page_a(region)) == 0,
        page_seq(page_b(region)) == 0,
    ensures
        spec_init(region, slots).1,
        spec_load(spec_init(region, slots).0, prior) == (slots, (16u32, 16u32, 0u32)),
{
    let p = encode_page(slots, 1);
    law_built_page_valid(slots, 1);
    lemma_replace_page(region, 0, p);
    let w = spec_init(region, slots).0;
    assert(authoritative(w) == p);
    assert(spec_load(w, prior).0 =~= slots);
}

} // verus!
