//! The sexstore key-value table: sixteen slots with owner-class policy,
//! per-slot generations and tombstones.
use vstd::prelude::*;

verus! {

/// Operation code of a GET request.
pub const OP_KV_GET: u64 = 0xB0;
/// Operation code of a PUT request.
pub const OP_KV_PUT: u64 = 0xB1;
/// Operation code of a DELETE request (tombstones the key).
pub const OP_KV_DEL: u64 = 0xB2;

/// Status code: success.
pub const KV_OK: u64 = 0x00;
/// Status code: the key is absent or tombstoned.
pub const KV_NOT_FOUND: u64 = 0x01;
/// Status code: no empty or tombstoned slot is left.
pub const KV_FULL: u64 = 0x02;
/// Status code: key 0 is never valid.
pub const KV_INVALID_KEY: u64 = 0x03;
/// Status code: the value fails its envelope check.
pub const KV_INVALID_VALUE: u64 = 0x04;
/// Status code: the caller has no authority over the key.
pub const KV_DENIED: u64 = 0x05;

/// Bit 63 of a reply marks a status code rather than a stored value.
pub const REPLY_STATUS_BIT: u64 = 0x8000_0000_0000_0000;

/// Number of slots in the table.
pub const KV_SLOT_COUNT: usize = 16;

/// The only caller (silk-shell's domain) with authority over the shell key range.
pub const KV_SHELL_CALLER: u64 = 3;

/// Slot state: never written.
pub const SLOT_EMPTY: u8 = 0;
/// Slot state: holds a live value.
pub const SLOT_ACTIVE: u8 = 1;
/// Slot state: the key was deleted; the slot keeps its key until reclaimed.
pub const SLOT_TOMBSTONED: u8 = 2;

/// One slot of the table.
#[derive(Clone, Copy, Debug, PartialEq, Eq, Structural)]
pub struct KvSlot {
    /// 0 = empty, 1 = active, 2 = tombstoned.
    pub state: u8,
    /// 0 = never written, then 1..=255, wrapping from 255 back to 1.
    pub generation: u8,
    pub key: u32,
    pub val: u64,
}

impl KvSlot {
    /// An empty, never-written slot.
    pub fn empty() -> (s: KvSlot)
        ensures
            s == empty_slot(),
    {
        KvSlot { state: 0, generation: 0, key: 0, val: 0 }
    }
}

pub open spec fn empty_slot() -> KvSlot {
    KvSlot { state: 0, generation: 0, key: 0, val: 0 }
}

/// A reply carrying status `code`.
pub open spec fn status(code: u64) -> u64 {
    (0x8000_0000_0000_0000u64 + code) as u64
}

/// The slot is non-empty and belongs to `key`.
pub open spec fn slot_holds(s: KvSlot, key: u32) -> bool {
    s.state != 0 && s.key == key
}

/// Index of the first slot at or after `i` that holds `key`.
pub open spec fn find_key_from(s: Seq<KvSlot>, key: u32, i: int) -> Option<int>
    decreases s.len() - i,
{
    if i < 0 || i >= s.len() {
        None
    } else if slot_holds(s[i], key) {
        Some(i)
    } else {
        find_key_from(s, key, i + 1)
    }
}

/// Index of the first slot that holds `key`: the slot every operation on `key` uses.
pub open spec fn find_key(s: Seq<KvSlot>, key: u32) -> Option<int> {
    find_key_from(s, key, 0)
}

/// Index of the first slot at or after `i` whose state is `st`.
pub open spec fn find_state_from(s: Seq<KvSlot>, st: u8, i: int) -> Option<int>
    decreases s.len() - i,
{
    if i < 0 || i >= s.len() {
        None
    } else if s[i].state == st {
        Some(i)
    } else {
        find_state_from(s, st, i + 1)
    }
}

pub open spec fn find_state(s: Seq<KvSlot>, st: u8) -> Option<int> {
    find_state_from(s, st, 0)
}

/// The generation after one more write: 255 wraps to 1, never 0.
pub open spec fn next_generation(g: u8) -> u8 {
    if g >= 255 {
        1
    } else {
        (g + 1) as u8
    }
}

/// Owner class of a key: 0 invalid (key 0), 1 shell range (1..=15), 2 reserved.
pub open spec fn key_class(key: u32) -> u8 {
    if key == 0 {
        0
    } else if key <= 0x0F {
        1
    } else {
        2
    }
}

pub open spec fn cap_allowed(caller: u64, key: u32) -> bool {
    key_class(key) == 1 && caller == 3
}

/// Byte `i` (little-endian) of a value.
pub open spec fn value_byte(v: u64, i: int) -> u8 {
    ((v >> ((8 * i) as u64)) & 0xff) as u8
}

/// The 7-bit XOR checksum of the first seven little-endian bytes.
pub open spec fn envelope_checksum(v: u64) -> u8 {
    (value_byte(v, 0) ^ value_byte(v, 1) ^ value_byte(v, 2) ^ value_byte(v, 3) ^ value_byte(v, 4)
        ^ value_byte(v, 5) ^ value_byte(v, 6)) & 0x7F
}

/// A value is storable when bit 63 is clear; key 1 also demands the settings envelope:
/// magic 0xAC, version 0x01 and the checksum in the last byte.
pub open spec fn value_valid(key: u32, v: u64) -> bool {
    &&& v & 0x8000_0000_0000_0000 == 0
    &&& key == 1 ==> {
        &&& value_byte(v, 0) == 0xAC
        &&& value_byte(v, 1) == 0x01
        &&& value_byte(v, 7) == envelope_checksum(v)
    }
}

/// The reply to a request that the policy refuses.
pub open spec fn refusal(key: u32) -> u64 {
    if key_class(key) == 0 {
        status(3)
    } else {
        status(5)
    }
}

pub open spec fn fresh_slot(key: u32, val: u64) -> KvSlot {
    KvSlot { state: 1, generation: 1, key, val }
}

/// Table and reply after a PUT.
pub open spec fn spec_put(s: Seq<KvSlot>, caller: u64, key: u32, val: u64) -> (Seq<KvSlot>, u64) {
    if !cap_allowed(caller, key) {
        (s, refusal(key))
    } else if !value_valid(key, val) {
        (s, status(4))
    } else {
        spec_store(s, key, val)
    }
}

/// Table and reply after storing an accepted value: the key's slot (live or a
/// tombstone) becomes active with the value and a bumped generation, else the first
/// empty slot is taken, else the first tombstone is reclaimed.
pub open spec fn spec_store(s: Seq<KvSlot>, key: u32, val: u64) -> (Seq<KvSlot>, u64) {
    match find_key(s, key) {
        Some(i) => (
            s.update(
                i,
                KvSlot {
                    state: 1,
                    generation: next_generation(s[i].generation),
                    key,
                    val,
                },
            ),
            status(0),
        ),
        None => match find_state(s, 0) {
            Some(e) => (s.update(e, fresh_slot(key, val)), status(0)),
            None => match find_state(s, 2) {
                Some(t) => (s.update(t, fresh_slot(key, val)), status(0)),
                None => (s, status(2)),
            },
        },
    }
}

/// Table and reply after a PUT that bypasses policy and never reclaims tombstones.
pub open spec fn spec_put_raw(s: Seq<KvSlot>, key: u32, val: u64) -> (Seq<KvSlot>, u64) {
    match find_key(s, key) {
        Some(i) => (
            s.update(
                i,
                KvSlot { state: 1, generation: next_generation(s[i].generation), key, val },
            ),
            status(0),
        ),
        None => match find_state(s, 0) {
            Some(e) => (s.update(e, fresh_slot(key, val)), status(0)),
            None => (s, status(2)),
        },
    }
}

/// Reply to a GET: the stored value of an active key, else a status.
pub open spec fn spec_get(s: Seq<KvSlot>, caller: u64, key: u32) -> u64 {
    if !cap_allowed(caller, key) {
        refusal(key)
    } else {
        match find_key(s, key) {
            Some(i) => if s[i].state == 1 {
                s[i].val
            } else {
                status(1)
            },
            None => status(1),
        }
    }
}

/// Table and reply after a DELETE: an active key is tombstoned (generation bumped),
/// a tombstoned one is left as it is.
pub open spec fn spec_delete(s: Seq<KvSlot>, caller: u64, key: u32) -> (Seq<KvSlot>, u64) {
    if !cap_allowed(caller, key) {
        (s, refusal(key))
    } else {
        match find_key(s, key) {
            Some(i) => if s[i].state == 1 {
                (
                    s.update(
                        i,
                        KvSlot { state: 2, generation: next_generation(s[i].generation), ..s[i] },
                    ),
                    status(0),
                )
            } else {
                (s, status(0))
            },
            None => (s, status(1)),
        }
    }
}

/// Every slot's state is one of empty, active, tombstoned.
pub open spec fn states_valid(s: Seq<KvSlot>) -> bool {
    forall|i: int| 0 <= i < s.len() ==> #[trigger] s[i].state <= 2
}

/// No key is held by two non-empty slots.
pub open spec fn keys_unique(s: Seq<KvSlot>) -> bool {
    forall|i: int, j: int|
        0 <= i < s.len() && 0 <= j < s.len() && i != j && s[i].state != 0 && s[j].state != 0
            ==> #[trigger] s[i].key != #[trigger] s[j].key
}

/// What the first-match search finds: the first holder at or after `i`, or none at all.
pub proof fn lemma_find_key_from(s: Seq<KvSlot>, key: u32, i: int)
    requires
        0 <= i,
    ensures
        match find_key_from(s, key, i) {
            Some(j) => i <= j < s.len() && slot_holds(s[j], key) && forall|m: int|
                i <= m < j ==> !slot_holds(#[trigger] s[m], key),
            None => forall|m: int| i <= m < s.len() ==> !slot_holds(#[trigger] s[m], key),
        },
    decreases s.len() - i,
{
    if i < s.len() && !slot_holds(s[i], key) {
        lemma_find_key_from(s, key, i + 1);
    }
}

/// What the state search finds: the first slot in state `st` at or after `i`, or none.
pub proof fn lemma_find_state_from(s: Seq<KvSlot>, st: u8, i: int)
    requires
        0 <= i,
    ensures
        match find_state_from(s, st, i) {
            Some(j) => i <= j < s.len() && s[j].state == st && forall|m: int|
                i <= m < j ==> #[trigger] s[m].state != st,
            None => forall|m: int| i <= m < s.len() ==> #[trigger] s[m].state != st,
        },
    decreases s.len() - i,
{
    if i < s.len() && s[i].state != st {
        lemma_find_state_from(s, st, i + 1);
    }
}

/// A reply carrying status `code` (bit 63 set).
pub fn status_reply(code: u64) -> (r: u64)
    requires
        code < 0x8000_0000_0000_0000,
    ensures
        r == status(code),
{
    assert(code < 0x8000_0000_0000_0000 ==> 0x8000_0000_0000_0000u64 | code == (
    0x8000_0000_0000_0000u64 + code) as u64) by (bit_vector);
    REPLY_STATUS_BIT | code
}

/// Owner class of a key: 0 for key 0, 1 for the shell range 0x01..=0x0F, 2 above.
pub fn store_key_owner_class(key: u32) -> (c: u8)
    ensures
        c == key_class(key),
{
    if key == 0 {
        0
    } else if key <= 0x0F {
        1
    } else {
        2
    }
}

/// Whether `caller_pd` may operate on `key`: only silk-shell, only on the shell range.
pub fn store_cap_allowed(caller_pd: u64, key: u32) -> (b: bool)
    ensures
        b == cap_allowed(caller_pd, key),
{
    let cls = store_key_owner_class(key);
    cls == 1 && caller_pd == KV_SHELL_CALLER
}

/// Validate the value envelope for `key`.
pub fn store_validate_value(key: u32, value: u64) -> (b: bool)
    ensures
        b == value_valid(key, value),
{
    if value & REPLY_STATUS_BIT != 0 {
        return false;
    }
    if key == 0x01 {
        let b0 = (value & 0xff) as u8;
        let b1 = ((value >> 8u64) & 0xff) as u8;
        let b2 = ((value >> 16u64) & 0xff) as u8;
        let b3 = ((value >> 24u64) & 0xff) as u8;
        let b4 = ((value >> 32u64) & 0xff) as u8;
        let b5 = ((value >> 40u64) & 0xff) as u8;
        let b6 = ((value >> 48u64) & 0xff) as u8;
        let b7 = ((value >> 56u64) & 0xff) as u8;
        assert(b0 == value_byte(value, 0)) by {
            assert(value >> 0u64 == value) by (bit_vector);
        }
        if b0 != 0xAC || b1 != 0x01 {
            return false;
        }
        let chk = (b0 ^ b1 ^ b2 ^ b3 ^ b4 ^ b5 ^ b6) & 0x7F;
        if b7 != chk {
            return false;
        }
    }
    true
}

/// The generation after one more write (255 wraps to 1).
pub fn bump_generation(g: u8) -> (r: u8)
    ensures
        r == next_generation(g),
        r != 0,
{
    if g >= 255 {
        1
    } else {
        g + 1
    }
}

/// Index of the first slot holding `key`.
pub fn find_key_index(slots: &Vec<KvSlot>, key: u32) -> (r: Option<usize>)
    ensures
        match r {
            Some(i) => find_key(slots@, key) == Some(i as int) && i < slots@.len(),
            None => find_key(slots@, key) is None,
        },
{
    proof {
        lemma_find_key_from(slots@, key, 0);
    }
    let mut i: usize = 0;
    while i < slots.len()
        invariant
            i <= slots.len(),
            find_key_from(slots@, key, 0) == find_key_from(slots@, key, i as int),
        decreases slots.len() - i,
    {
        if slots[i].state != 0 && slots[i].key == key {
            return Some(i);
        }
        i += 1;
    }
    None
}

/// Index of the first slot whose state is `st`.
pub fn find_state_index(slots: &Vec<KvSlot>, st: u8) -> (r: Option<usize>)
    ensures
        match r {
            Some(i) => find_state(slots@, st) == Some(i as int) && i < slots@.len(),
            None => find_state(slots@, st) is None,
        },
{
    proof {
        lemma_find_state_from(slots@, st, 0);
    }
    let mut i: usize = 0;
    while i < slots.len()
        invariant
            i <= slots.len(),
            find_state_from(slots@, st, 0) == find_state_from(slots@, st, i as int),
        decreases slots.len() - i,
    {
        if slots[i].state == st {
            return Some(i);
        }
        i += 1;
    }
    None
}

/// Store an accepted value (no policy check): the shared core of PUT.
pub fn kv_store(slots: &mut Vec<KvSlot>, key: u32, val: u64) -> (r: u64)
    ensures
        (final(slots)@, r) == spec_store(old(slots)@, key, val),
        final(slots)@.len() == old(slots)@.len(),
{
    match find_key_index(slots, key) {
        Some(i) => {
            let old_slot = slots[i];
            let generation = bump_generation(old_slot.generation);
            slots.set(i, KvSlot { state: 1, generation, key, val });
            status_reply(KV_OK)
        },
        None => match find_state_index(slots, SLOT_EMPTY) {
            Some(e) => {
                slots.set(e, KvSlot { state: 1, generation: 1, key, val });
                status_reply(KV_OK)
            },
            None => match find_state_index(slots, SLOT_TOMBSTONED) {
                Some(t) => {
                    slots.set(t, KvSlot { state: 1, generation: 1, key, val });
                    status_reply(KV_OK)
                },
                None => status_reply(KV_FULL),
            },
        },
    }
}

/// PUT with policy and envelope checks.
pub fn kv_put(slots: &mut Vec<KvSlot>, caller: u64, key: u32, val: u64) -> (r: u64)
    ensures
        (final(slots)@, r) == spec_put(old(slots)@, caller, key, val),
        final(slots)@.len() == old(slots)@.len(),
{
    let cls = store_key_owner_class(key);
    if !store_cap_allowed(caller, key) {
        return if cls == 0 {
            status_reply(KV_INVALID_KEY)
        } else {
            status_reply(KV_DENIED)
        };
    }
    if !store_validate_value(key, val) {
        return status_reply(KV_INVALID_VALUE);
    }
    kv_store(slots, key, val)
}

/// GET with policy check.
pub fn kv_get(slots: &Vec<KvSlot>, caller: u64, key: u32) -> (r: u64)
    ensures
        r == spec_get(slots@, caller, key),
{
    let cls = store_key_owner_class(key);
    if !store_cap_allowed(caller, key) {
        return if cls == 0 {
            status_reply(KV_INVALID_KEY)
        } else {
            status_reply(KV_DENIED)
        };
    }
    match find_key_index(slots, key) {
        Some(i) => if slots[i].state == 1 {
            slots[i].val
        } else {
            status_reply(KV_NOT_FOUND)
        },
        None => status_reply(KV_NOT_FOUND),
    }
}

/// DELETE with policy check.
pub fn kv_delete(slots: &mut Vec<KvSlot>, caller: u64, key: u32) -> (r: u64)
    ensures
        (final(slots)@, r) == spec_delete(old(slots)@, caller, key),
        final(slots)@.len() == old(slots)@.len(),
{
    let cls = store_key_owner_class(key);
    if !store_cap_allowed(caller, key) {
        return if cls == 0 {
            status_reply(KV_INVALID_KEY)
        } else {
            status_reply(KV_DENIED)
        };
    }
    match find_key_index(slots, key) {
        Some(i) => {
            let old_slot = slots[i];
            if old_slot.state == 1 {
                let generation = bump_generation(old_slot.generation);
                slots.set(i, KvSlot { state: 2, generation, ..old_slot });
            }
            status_reply(KV_OK)
        },
        None => status_reply(KV_NOT_FOUND),
    }
}

/// PUT without policy or reclaim, as the self-test's table-fill stage uses it.
pub fn kv_put_raw(slots: &mut Vec<KvSlot>, key: u32, val: u64) -> (r: u64)
    ensures
        (final(slots)@, r) == spec_put_raw(old(slots)@, key, val),
        final(slots)@.len() == old(slots)@.len(),
{
    match find_key_index(slots, key) {
        Some(i) => {
            let generation = bump_generation(slots[i].generation);
            slots.set(i, KvSlot { state: 1, generation, key, val });
            status_reply(KV_OK)
        },
        None => match find_state_index(slots, SLOT_EMPTY) {
            Some(e) => {
                slots.set(e, KvSlot { state: 1, generation: 1, key, val });
                status_reply(KV_OK)
            },
            None => status_reply(KV_FULL),
        },
    }
}

/// Reset every slot to empty.
pub fn kv_reset(slots: &mut Vec<KvSlot>)
    ensures
        final(slots)@.len() == old(slots)@.len(),
        forall|i: int| 0 <= i < final(slots)@.len() ==> #[trigger] final(slots)@[i] == empty_slot(),
{
    let mut i: usize = 0;
    while i < slots.len()
        invariant
            i <= slots.len(),
            slots@.len() == old(slots)@.len(),
            forall|j: int| 0 <= j < i ==> #[trigger] slots@[j] == empty_slot(),
        decreases slots.len() - i,
    {
        slots.set(i, KvSlot::empty());
        i += 1;
    }
}

} // verus!
