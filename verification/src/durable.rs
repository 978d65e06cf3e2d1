//! The sexstore durable backend: two 512-byte pages swapped atomically, each holding a
//! CRC-32C-protected header and sixteen CRC-16-protected slot records.
use vstd::prelude::*;
use crate::crc::{crc16_ibm, crc32c, spec_crc16_ibm, spec_crc32c};
use crate::kvstore::{KvSlot, KV_SLOT_COUNT};
use crate::le_bytes::{
    from_le16, from_le32, from_le64, le16, le32, le64, push_le16, push_le32, push_le64,
    read_le16, read_le32, read_le64,
};

verus! {

pub const DURABLE_PAGE_SIZE: usize = 512;
pub const DURABLE_RECORD_COUNT: usize = 16;
pub const DURABLE_PAGE_A_OFFSET: usize = 0;
pub const DURABLE_PAGE_B_OFFSET: usize = 512;
pub const DURABLE_REGION_SIZE: usize = 1024;
pub const DURABLE_PAGE_ID_MAGIC: u32 = 0x0000A5A5;
pub const DURABLE_RECORD_MAGIC: u16 = 0xD5E5;
pub const DURABLE_FORMAT_VERSION: u8 = 0x01;

/// Page header: page-id magic, sequence number, CRC-32C, reserved.
pub const PH_OFF_PAGE_ID: usize = 0;
pub const PH_OFF_SEQ: usize = 4;
pub const PH_OFF_CRC32: usize = 8;
pub const PH_SIZE: usize = 16;

/// Record layout (24 bytes).
pub const REC_OFF_MAGIC: usize = 0;
pub const REC_OFF_VERSION: usize = 2;
pub const REC_OFF_FLAGS: usize = 3;
pub const REC_OFF_SLOT_ID: usize = 4;
pub const REC_OFF_CRC16: usize = 6;
pub const REC_OFF_STATE: usize = 8;
pub const REC_OFF_GENERATION: usize = 9;
pub const REC_OFF_KEY: usize = 12;
pub const REC_OFF_VAL: usize = 16;
pub const REC_SIZE: usize = 24;

pub open spec fn zeros(n: nat) -> Seq<u8> {
    Seq::new(n, |i: int| 0u8)
}

/// Record flags: bit 0 active data, bit 1 tombstone.
pub open spec fn record_flags(state: u8) -> u8 {
    if state == 1 {
        1
    } else if state == 2 {
        2
    } else {
        0
    }
}

/// A record with its CRC-16 field zeroed.
pub open spec fn record_unsigned(s: KvSlot, id: u16) -> Seq<u8> {
    le16(0xD5E5) + seq![1u8, record_flags(s.state)] + le16(id) + seq![0u8, 0u8] + seq![
        s.state,
        s.generation,
        0u8,
        0u8,
    ] + le32(s.key) + le64(s.val)
}

/// A record as written: the CRC-16 of the unsigned form fills bytes 6..8.
pub open spec fn record_bytes(s: KvSlot, id: u16) -> Seq<u8> {
    let u = record_unsigned(s, id);
    u.subrange(0, 6) + le16(spec_crc16_ibm(u)) + u.subrange(8, 24)
}

/// The records of the first `n` slots, back to back.
pub open spec fn records(slots: Seq<KvSlot>, n: nat) -> Seq<u8>
    decreases n,
{
    if n == 0 {
        Seq::empty()
    } else {
        records(slots, (n - 1) as nat) + record_bytes(slots[n - 1], (n - 1) as u16)
    }
}

/// A page with its CRC-32C field zeroed.
pub open spec fn page_unsigned(slots: Seq<KvSlot>, seq: u32) -> Seq<u8> {
    le32(0xA5A5) + le32(seq) + le32(0) + le32(0) + records(slots, 16) + zeros(112)
}

/// The page written for a table snapshot with sequence number `seq`.
pub open spec fn encode_page(slots: Seq<KvSlot>, seq: u32) -> Seq<u8> {
    le32(0xA5A5) + le32(seq) + le32(spec_crc32c(page_unsigned(slots, seq))) + le32(0) + records(
        slots,
        16,
    ) + zeros(112)
}

/// A page with bytes 8..12 (its CRC field) zeroed.
pub open spec fn page_cleared(p: Seq<u8>) -> Seq<u8> {
    p.subrange(0, 8) + zeros(4) + p.subrange(12, p.len() as int)
}

/// A page is valid when its id is the magic and its stored CRC-32C matches.
pub open spec fn page_valid(p: Seq<u8>) -> bool {
    &&& p.len() == 512
    &&& from_le32(p[0], p[1], p[2], p[3]) == 0xA5A5
    &&& from_le32(p[8], p[9], p[10], p[11]) == spec_crc32c(page_cleared(p))
}

/// Sequence number of a valid page; 0 for an invalid one.
pub open spec fn page_seq(p: Seq<u8>) -> u32 {
    if page_valid(p) {
        from_le32(p[4], p[5], p[6], p[7])
    } else {
        0
    }
}

/// The 24 bytes of record `i` in page `p`.
pub open spec fn record_at(p: Seq<u8>, i: int) -> Seq<u8> {
    p.subrange(16 + 24 * i, 16 + 24 * i + 24)
}

/// A record with its CRC-16 field zeroed.
pub open spec fn record_cleared(r: Seq<u8>) -> Seq<u8> {
    r.subrange(0, 6) + zeros(2) + r.subrange(8, 24)
}

/// Record `i` is intact: magic, version, slot id, CRC-16 and a known state.
pub open spec fn record_valid(r: Seq<u8>, i: int) -> bool {
    &&& from_le16(r[0], r[1]) == 0xD5E5
    &&& r[2] == 1
    &&& from_le16(r[4], r[5]) == i
    &&& from_le16(r[6], r[7]) == spec_crc16_ibm(record_cleared(r))
    &&& r[8] <= 2
}

pub open spec fn decode_record(r: Seq<u8>) -> KvSlot {
    KvSlot {
        state: r[8],
        generation: r[9],
        key: from_le32(r[12], r[13], r[14], r[15]),
        val: from_le64(r.subrange(16, 24)),
    }
}

/// Number of intact records among the first `n` of page `p`.
pub open spec fn count_valid(p: Seq<u8>, n: nat) -> nat
    decreases n,
{
    if n == 0 {
        0
    } else {
        count_valid(p, (n - 1) as nat) + if record_valid(record_at(p, n - 1), n - 1) {
            1nat
        } else {
            0nat
        }
    }
}

pub open spec fn page_a(region: Seq<u8>) -> Seq<u8> {
    region.subrange(0, 512)
}

pub open spec fn page_b(region: Seq<u8>) -> Seq<u8> {
    region.subrange(512, 1024)
}

/// The authoritative page: the higher sequence number, page A on a tie.
pub open spec fn authoritative(region: Seq<u8>) -> Seq<u8> {
    if page_seq(page_a(region)) >= page_seq(page_b(region)) {
        page_a(region)
    } else {
        page_b(region)
    }
}

/// Slot table and (total, valid, corrupt) counts after loading the authoritative page:
/// intact records replace their slots, the others keep what they had.
pub open spec fn spec_load(region: Seq<u8>, slots: Seq<KvSlot>) -> (Seq<KvSlot>, (u32, u32, u32)) {
    let p = authoritative(region);
    if page_seq(p) == 0 {
        (slots, (0, 0, 0))
    } else {
        (
            Seq::new(
                slots.len(),
                |i: int|
                    if record_valid(record_at(p, i), i) {
                        decode_record(record_at(p, i))
                    } else {
                        slots[i]
                    },
            ),
            (16, count_valid(p, 16) as u32, (16 - count_valid(p, 16)) as u32),
        )
    }
}

/// The sequence number the next snapshot gets: one above the newest page, wrapping to 1.
pub open spec fn next_seq(region: Seq<u8>) -> u32 {
    let a = page_seq(page_a(region));
    let b = page_seq(page_b(region));
    let m = if a > b { a } else { b };
    if m == 0xFFFF_FFFF {
        1
    } else {
        (m + 1) as u32
    }
}

/// Offset of the page the next snapshot replaces: the older one, page B on a tie.
pub open spec fn target_offset(region: Seq<u8>) -> int {
    if page_seq(page_a(region)) >= page_seq(page_b(region)) {
        512
    } else {
        0
    }
}

/// The region with the page at `off` replaced.
pub open spec fn replace_page(region: Seq<u8>, off: int, page: Seq<u8>) -> Seq<u8> {
    region.subrange(0, off) + page + region.subrange(off + 512, region.len() as int)
}

/// The region after writing a snapshot of `slots` over the older page.
pub open spec fn spec_write_all(region: Seq<u8>, slots: Seq<KvSlot>) -> Seq<u8> {
    replace_page(region, target_offset(region), encode_page(slots, next_seq(region)))
}

/// The region after first-boot initialisation (page A, sequence 1) when neither page is valid.
pub open spec fn spec_init(region: Seq<u8>, slots: Seq<KvSlot>) -> (Seq<u8>, bool) {
    if page_seq(page_a(region)) == 0 && page_seq(page_b(region)) == 0 {
        (replace_page(region, 0, encode_page(slots, 1)), true)
    } else {
        (region, false)
    }
}

/// Build the 24-byte record for `slot` at index `id`.
pub fn durable_build_record(slot: &KvSlot, id: u16) -> (r: Vec<u8>)
    ensures
        r@ == record_bytes(*slot, id),
{
    let mut r: Vec<u8> = Vec::new();
    push_le16(&mut r, DURABLE_RECORD_MAGIC);
    r.push(DURABLE_FORMAT_VERSION);
    let flags: u8 = if slot.state == 1 {
        0x01
    } else if slot.state == 2 {
        0x02
    } else {
        0x00
    };
    r.push(flags);
    push_le16(&mut r, id);
    r.push(0);
    r.push(0);
    r.push(slot.state);
    r.push(slot.generation);
    r.push(0);
    r.push(0);
    push_le32(&mut r, slot.key);
    push_le64(&mut r, slot.val);
    assert(r@ =~= record_unsigned(*slot, id));
    let ghost u = r@;
    let crc = crc16_ibm(r.as_slice());
    r.set(6, (crc & 0xff) as u8);
    r.set(7, ((crc >> 8u16) & 0xff) as u8);
    assert(r@ =~= u.subrange(0, 6) + le16(spec_crc16_ibm(u)) + u.subrange(8, 24));
    r
}

/// Build a full page snapshot of the slot table with sequence number `seq`.
pub fn durable_build_page(slots: &[KvSlot], seq: u32) -> (page: Vec<u8>)
    requires
        slots@.len() == 16,
    ensures
        page@ == encode_page(slots@, seq),
        page@.len() == 512,
{
    let mut page: Vec<u8> = Vec::new();
    push_le32(&mut page, DURABLE_PAGE_ID_MAGIC);
    push_le32(&mut page, seq);
    push_le32(&mut page, 0);
    push_le32(&mut page, 0);
    let ghost header = page@;
    let mut i: usize = 0;
    while i < DURABLE_RECORD_COUNT
        invariant
            i <= 16,
            slots@.len() == 16,
            page@ == header + records(slots@, i as nat),
            records(slots@, i as nat).len() == 24 * i,
        decreases 16 - i,
    {
        let mut rec = durable_build_record(&slots[i], i as u16);
        page.append(&mut rec);
        i += 1;
    }
    let ghost body = page@;
    let mut k: usize = 0;
    while k < 112
        invariant
            k <= 112,
            page@ == body + zeros(k as nat),
        decreases 112 - k,
    {
        page.push(0);
        k += 1;
        assert(page@ =~= body + zeros(k as nat));
    }
    assert(page@ =~= page_unsigned(slots@, seq));
    let ghost unsigned = page@;
    let crc = crc32c(page.as_slice());
    page.set(8, (crc & 0xff) as u8);
    page.set(9, ((crc >> 8u32) & 0xff) as u8);
    page.set(10, ((crc >> 16u32) & 0xff) as u8);
    page.set(11, ((crc >> 24u32) & 0xff) as u8);
    assert(page@ =~= encode_page(slots@, seq));
    page
}

/// Check a page's id magic and its CRC-32C (computed with the CRC field zeroed).
pub fn durable_validate_page(page: &[u8]) -> (ok: bool)
    requires
        page@.len() == 512,
    ensures
        ok == page_valid(page@),
{
    let page_id = read_le32(page, PH_OFF_PAGE_ID);
    if page_id != DURABLE_PAGE_ID_MAGIC {
        return false;
    }
    let stored_crc = read_le32(page, PH_OFF_CRC32);
    let mut clean: Vec<u8> = Vec::new();
    let mut i: usize = 0;
    while i < 512
        invariant
            i <= 512,
            page@.len() == 512,
            clean@.len() == i,
            forall|j: int|
                0 <= j < i ==> #[trigger] clean@[j] == (if 8 <= j < 12 {
                    0u8
                } else {
                    page@[j]
                }),
        decreases 512 - i,
    {
        if 8 <= i && i < 12 {
            clean.push(0);
        } else {
            clean.push(page[i]);
        }
        i += 1;
    }
    assert(clean@ =~= page_cleared(page@));
    stored_crc == crc32c(clean.as_slice())
}

/// Sequence number of a valid page, or 0 when the page is invalid.
pub fn durable_page_seq(page: &[u8]) -> (s: u32)
    requires
        page@.len() == 512,
    ensures
        s == page_seq(page@),
{
    if durable_validate_page(page) {
        read_le32(page, PH_OFF_SEQ)
    } else {
        0
    }
}

/// Check record `i` (at byte `off`) of a page and decode it when intact.
pub fn durable_decode_record(page: &[u8], i: usize) -> (r: Option<KvSlot>)
    requires
        page@.len() == 512,
        i < 16,
    ensures
        match r {
            Some(s) => record_valid(record_at(page@, i as int), i as int) && s == decode_record(
                record_at(page@, i as int),
            ),
            None => !record_valid(record_at(page@, i as int), i as int),
        },
{
    let off = PH_SIZE + i * REC_SIZE;
    let ghost rec = record_at(page@, i as int);
    assert(forall|j: int| 0 <= j < 24 ==> #[trigger] rec[j] == page@[off + j]);
    let magic = read_le16(page, off + REC_OFF_MAGIC);
    if magic != DURABLE_RECORD_MAGIC {
        return None;
    }
    if page[off + REC_OFF_VERSION] != DURABLE_FORMAT_VERSION {
        return None;
    }
    let slot_id = read_le16(page, off + REC_OFF_SLOT_ID);
    if slot_id as usize != i {
        return None;
    }
    let stored_rec_crc = read_le16(page, off + REC_OFF_CRC16);
    let mut rec_buf: Vec<u8> = Vec::new();
    let mut j: usize = 0;
    while j < REC_SIZE
        invariant
            j <= 24,
            page@.len() == 512,
            off == 16 + 24 * i,
            i < 16,
            rec == record_at(page@, i as int),
            rec_buf@.len() == j,
            forall|m: int|
                0 <= m < j ==> #[trigger] rec_buf@[m] == (if 6 <= m < 8 {
                    0u8
                } else {
                    rec[m]
                }),
        decreases 24 - j,
    {
        if 6 <= j && j < 8 {
            rec_buf.push(0);
        } else {
            rec_buf.push(page[off + j]);
        }
        j += 1;
    }
    assert(rec_buf@ =~= record_cleared(rec));
    let computed_rec_crc = crc16_ibm(rec_buf.as_slice());
    if computed_rec_crc != stored_rec_crc {
        return None;
    }
    let state = page[off + REC_OFF_STATE];
    if state > 2 {
        return None;
    }
    let key = read_le32(page, off + REC_OFF_KEY);
    let val = read_le64(page, off + REC_OFF_VAL);
    assert(page@.subrange(off + 16, off + 24) =~= rec.subrange(16, 24));
    Some(KvSlot { state, generation: page[off + REC_OFF_GENERATION], key, val })
}


/// The 1024-byte durable region holding page A (offset 0) and page B (offset 512).
pub struct DurableRegion {
    bytes: Vec<u8>,
}

impl View for DurableRegion {
    type V = Seq<u8>;

    closed spec fn view(&self) -> Seq<u8> {
        self.bytes@
    }
}

impl DurableRegion {
    /// The region is exactly two pages long.
    pub open spec fn wf(&self) -> bool {
        self@.len() == 1024
    }

    /// A zero-filled region (neither page valid).
    pub fn new() -> (r: DurableRegion)
        ensures
            r.wf(),
            r@ == zeros(1024),
    {
        let mut bytes: Vec<u8> = Vec::new();
        let mut i: usize = 0;
        while i < DURABLE_REGION_SIZE
            invariant
                i <= 1024,
                bytes@ == zeros(i as nat),
            decreases 1024 - i,
        {
            bytes.push(0);
            i += 1;
            assert(bytes@ =~= zeros(i as nat));
        }
        DurableRegion { bytes }
    }

    /// A region holding the given bytes.
    pub fn from_bytes(bytes: Vec<u8>) -> (r: DurableRegion)
        requires
            bytes@.len() == 1024,
        ensures
            r.wf(),
            r@ == bytes@,
    {
        DurableRegion { bytes }
    }

    /// The raw bytes of the region.
    pub fn as_bytes(&self) -> (b: &[u8])
        ensures
            b@ == self@,
    {
        self.bytes.as_slice()
    }

    /// Read the 512-byte page at `page_offset`.
    pub fn durable_page_read(&self, page_offset: usize) -> (buf: Vec<u8>)
        requires
            self.wf(),
            page_offset <= 512,
        ensures
            buf@ == self@.subrange(page_offset as int, page_offset + 512),
    {
        let mut buf: Vec<u8> = Vec::new();
        let mut i: usize = 0;
        while i < DURABLE_PAGE_SIZE
            invariant
                i <= 512,
                page_offset <= 512,
                self.wf(),
                buf@ == self@.subrange(page_offset as int, page_offset + i),
            decreases 512 - i,
        {
            buf.push(self.bytes[page_offset + i]);
            i += 1;
            assert(buf@ =~= self@.subrange(page_offset as int, page_offset + i));
        }
        buf
    }

    /// Write a 512-byte page at `page_offset`, then verify it by reading it back.
    pub fn durable_page_write(&mut self, page_offset: usize, buf: &[u8]) -> (ok: bool)
        requires
            old(self).wf(),
            page_offset <= 512,
            buf@.len() == 512,
        ensures
            final(self).wf(),
            final(self)@ == replace_page(old(self)@, page_offset as int, buf@),
            ok,
    {
        let ghost target = replace_page(self@, page_offset as int, buf@);
        let mut i: usize = 0;
        while i < DURABLE_PAGE_SIZE
            invariant
                i <= 512,
                page_offset <= 512,
                buf@.len() == 512,
                self@.len() == 1024,
                target == replace_page(old(self)@, page_offset as int, buf@),
                forall|j: int|
                    0 <= j < 1024 ==> #[trigger] self@[j] == if page_offset <= j < page_offset + i {
                        buf@[j - page_offset]
                    } else {
                        old(self)@[j]
                    },
            decreases 512 - i,
        {
            self.bytes.set(page_offset + i, buf[i]);
            i += 1;
        }
        assert(self@ =~= target);
        let readback = self.durable_page_read(page_offset);
        let mut same = true;
        let mut k: usize = 0;
        while k < DURABLE_PAGE_SIZE
            invariant
                k <= 512,
                readback@ == buf@,
                buf@.len() == 512,
                same,
            decreases 512 - k,
        {
            if readback[k] != buf[k] {
                same = false;
                break;
            }
            k += 1;
        }
        same
    }

    /// Write a snapshot of the slot table over the older page, with the next sequence
    /// number. Returns whether the write verified.
    pub fn durable_write_all(&mut self, slots: &[KvSlot]) -> (ok: bool)
        requires
            old(self).wf(),
            slots@.len() == 16,
        ensures
            final(self).wf(),
            final(self)@ == spec_write_all(old(self)@, slots@),
            ok,
    {
        let page_a = self.durable_page_read(DURABLE_PAGE_A_OFFSET);
        let page_b = self.durable_page_read(DURABLE_PAGE_B_OFFSET);
        let seq_a = durable_page_seq(page_a.as_slice());
        let seq_b = durable_page_seq(page_b.as_slice());
        let target_offset = if seq_a >= seq_b {
            DURABLE_PAGE_B_OFFSET
        } else {
            DURABLE_PAGE_A_OFFSET
        };
        let newest = if seq_a > seq_b {
            seq_a
        } else {
            seq_b
        };
        let next_seq: u32 = if newest == u32::MAX {
            1
        } else {
            newest + 1
        };
        let snapshot = durable_build_page(slots, next_seq);
        self.durable_page_write(target_offset, snapshot.as_slice())
    }

    /// Load the authoritative page into the slot table. Intact records replace their
    /// slots; corrupt ones leave the slot as it was. Returns (total, valid, corrupt).
    pub fn durable_load_into_ram(&self, slots: &mut Vec<KvSlot>) -> (r: (u32, u32, u32))
        requires
            self.wf(),
            old(slots)@.len() == 16,
        ensures
            (final(slots)@, r) == spec_load(self@, old(slots)@),
    {
        let page_a = self.durable_page_read(DURABLE_PAGE_A_OFFSET);
        let page_b = self.durable_page_read(DURABLE_PAGE_B_OFFSET);
        let seq_a = durable_page_seq(page_a.as_slice());
        let seq_b = durable_page_seq(page_b.as_slice());
        let (authoritative, auth_seq) = if seq_a >= seq_b {
            (page_a, seq_a)
        } else {
            (page_b, seq_b)
        };
        assert(authoritative@ == crate::durable::authoritative(self@));
        if auth_seq == 0 {
            return (0, 0, 0);
        }
        let ghost p = authoritative@;
        let mut total: u32 = 0;
        let mut valid: u32 = 0;
        let mut corrupt: u32 = 0;
        let mut i: usize = 0;
        while i < DURABLE_RECORD_COUNT
            invariant
                i <= 16,
                p == authoritative@,
                p.len() == 512,
                slots@.len() == 16,
                total == i,
                valid == count_valid(p, i as nat),
                valid <= i,
                corrupt == i - valid,
                forall|j: int|
                    0 <= j < 16 ==> #[trigger] slots@[j] == if j < i && record_valid(
                        record_at(p, j),
                        j,
                    ) {
                        decode_record(record_at(p, j))
                    } else {
                        old(slots)@[j]
                    },
            decreases 16 - i,
        {
            total += 1;
            match durable_decode_record(authoritative.as_slice(), i) {
                Some(slot) => {
                    slots.set(i, slot);
                    valid += 1;
                },
                None => {
                    corrupt += 1;
                },
            }
            i += 1;
        }
        let ghost expected = spec_load(self@, old(slots)@).0;
        assert(slots@ =~= expected);
        (total, valid, corrupt)
    }

    /// First-boot initialisation: when neither page is valid, write the table as page A
    /// with sequence 1. Returns whether initialisation happened.
    pub fn durable_init(&mut self, slots: &[KvSlot]) -> (done: bool)
        requires
            old(self).wf(),
            slots@.len() == 16,
        ensures
            final(self).wf(),
            (final(self)@, done) == spec_init(old(self)@, slots@),
    {
        let page_a = self.durable_page_read(DURABLE_PAGE_A_OFFSET);
        let page_b = self.durable_page_read(DURABLE_PAGE_B_OFFSET);
        let seq_a = durable_page_seq(page_a.as_slice());
        let seq_b = durable_page_seq(page_b.as_slice());
        if seq_a == 0 && seq_b == 0 {
            let snapshot = durable_build_page(slots, 1);
            let _ok = self.durable_page_write(DURABLE_PAGE_A_OFFSET, snapshot.as_slice());
            true
        } else {
            false
        }
    }
}

} // verus!
