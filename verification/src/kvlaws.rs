//! Laws of the sexstore table: what a read gives back of a write, what a refusal
//! leaves, and which invariants every operation keeps.
use vstd::prelude::*;
use crate::kvstore::{
    KvSlot, cap_allowed, find_key, find_state, keys_unique, lemma_find_key_from, lemma_find_state_from,
    refusal, slot_holds, spec_delete, spec_get, spec_put, spec_store, states_valid, status, value_valid,
};

verus! {

pub proof fn lemma_first_holder(s: Seq<KvSlot>, key: u32, i: int)
    requires
        0 <= i < s.len(),
        slot_holds(s[i], key),
        forall|m: int| 0 <= m < i ==> !slot_holds(#[trigger] s[m], key),
    ensures
        find_key(s, key) == Some(i),
{
    lemma_find_key_from(s, key, 0);
    match find_key(s, key) {
        Some(j) => {
            if j < i {
                assert(!slot_holds(s[j], key));
            } else if j > i {
                assert(!slot_holds(s[i], key));
            }
        },
        None => {
            assert(!slot_holds(s[i], key));
        },
    }
}

pub proof fn lemma_no_holder(s: Seq<KvSlot>, key: u32)
    requires
        forall|m: int| 0 <= m < s.len() ==> !slot_holds(#[trigger] s[m], key),
    ensures
        find_key(s, key) is None,
{
    lemma_find_key_from(s, key, 0);
}

proof fn lemma_same_holders(s: Seq<KvSlot>, t: Seq<KvSlot>, key: u32)
    requires
        s.len() == t.len(),
        forall|m: int|
            #![trigger s[m]]
            #![trigger t[m]]
            0 <= m < s.len() ==> slot_holds(s[m], key) == slot_holds(t[m], key),
    ensures
        find_key(s, key) == find_key(t, key),
{
    lemma_find_key_from(s, key, 0);
    lemma_find_key_from(t, key, 0);
    match find_key(s, key) {
        Some(j) => {
            assert(slot_holds(t[j], key));
            lemma_first_holder(t, key, j);
        },
        None => {
            lemma_no_holder(t, key);
        },
    }
}

/// The slot a successful store writes is the key's first holder afterwards, active,
/// with the stored value and a non-zero generation.
proof fn lemma_store_places_key(s: Seq<KvSlot>, key: u32, val: u64)
    requires
        states_valid(s),
        spec_store(s, key, val).1 == status(0),
    ensures
        ({
            let t = spec_store(s, key, val).0;
            &&& t.len() == s.len()
            &&& find_key(t, key) matches Some(i) && t[i].state == 1 && t[i].val == val
                && t[i].generation != 0
        }),
{
    lemma_find_key_from(s, key, 0);
    let t = spec_store(s, key, val).0;
    match find_key(s, key) {
        Some(i) => {
            assert(forall|m: int| 0 <= m < i ==> t[m] == s[m]);
            lemma_first_holder(t, key, i);
        },
        None => {
            lemma_find_state_from(s, 0, 0);
            match find_state(s, 0) {
                Some(e) => {
                    lemma_first_holder(t, key, e);
                },
                None => {
                    lemma_find_state_from(s, 2, 0);
                    match find_state(s, 2) {
                        Some(x) => {
                            lemma_first_holder(t, key, x);
                        },
                        None => {},
                    }
                },
            }
        },
    }
}

/// A read gives back what an accepted write stored: after a PUT that replies OK,
/// a GET of the same key by the same caller returns the value.
pub proof fn law_get_after_put(s: Seq<KvSlot>, caller: u64, key: u32, val: u64)
    requires
        states_valid(s),
        spec_put(s, caller, key, val).1 == status(0),
    ensures
        spec_get(spec_put(s, caller, key, val).0, caller, key) == val,
{
    lemma_store_places_key(s, key, val);
}

/// A PUT is accepted exactly when the caller holds the key's class, the value passes
/// its envelope, and the table still has a slot for the key.
pub proof fn law_put_status(s: Seq<KvSlot>, caller: u64, key: u32, val: u64)
    ensures
        spec_put(s, caller, key, val).1 == status(0) <==> (cap_allowed(caller, key) && value_valid(
            key,
            val,
        ) && (find_key(s, key) is Some || find_state(s, 0) is Some || find_state(s, 2) is Some)),
{
}

/// After a DELETE by an authorised caller, a GET of the key answers NOT_FOUND.
pub proof fn law_get_after_delete(s: Seq<KvSlot>, caller: u64, key: u32)
    requires
        states_valid(s),
        cap_allowed(caller, key),
    ensures
        spec_get(spec_delete(s, caller, key).0, caller, key) == status(1),
{
    lemma_find_key_from(s, key, 0);
    let t = spec_delete(s, caller, key).0;
    match find_key(s, key) {
        Some(i) => {
            if s[i].state == 1 {
                assert(forall|m: int| 0 <= m < i ==> t[m] == s[m]);
                lemma_first_holder(t, key, i);
            }
        },
        None => {},
    }
}

/// A refused request (caller without authority over the key) changes nothing and is
/// answered INVALID_KEY for key 0 and DENIED otherwise, whatever the operation.
pub proof fn law_refusal(s: Seq<KvSlot>, caller: u64, key: u32, val: u64)
    requires
        !cap_allowed(caller, key),
    ensures
        spec_put(s, caller, key, val) == (s, refusal(key)),
        spec_delete(s, caller, key) == (s, refusal(key)),
        spec_get(s, caller, key) == refusal(key),
        refusal(key) == (if key == 0 { status(3) } else { status(5) }),
{
}

/// Writes and deletes of one key leave every other key's GET answer as it was.
pub proof fn law_other_keys_unaffected(
    s: Seq<KvSlot>,
    caller: u64,
    key: u32,
    val: u64,
    other_caller: u64,
    other: u32,
)
    requires
        keys_unique(s),
        key != other,
    ensures
        spec_get(spec_put(s, caller, key, val).0, other_caller, other) == spec_get(
            s,
            other_caller,
            other,
        ),
        spec_get(spec_delete(s, caller, key).0, other_caller, other) == spec_get(
            s,
            other_caller,
            other,
        ),
{
    lemma_find_key_from(s, key, 0);
    lemma_find_key_from(s, other, 0);
    lemma_find_state_from(s, 0, 0);
    lemma_find_state_from(s, 2, 0);
    let t = spec_put(s, caller, key, val).0;
    let d = spec_delete(s, caller, key).0;
    assert(d.len() == s.len());
    assert forall|m: int| 0 <= m < s.len() implies slot_holds(#[trigger] d[m], other) == slot_holds(
        s[m],
        other,
    ) && (slot_holds(s[m], other) ==> d[m] == s[m]) by {}
    lemma_same_holders(s, d, other);
    if cap_allowed(caller, key) && value_valid(key, val) && find_key(s, key) is None && find_state(
        s,
        0,
    ) is None && find_state(s, 2) is Some {
        let x = find_state(s, 2).unwrap();
        if slot_holds(s[x], other) {
            assert forall|m: int| 0 <= m < t.len() implies !slot_holds(#[trigger] t[m], other) by {
                if m != x {
                    assert(s[m].key != s[x].key || s[m].state == 0);
                }
            }
            lemma_no_holder(t, other);
        } else {
            assert forall|m: int| 0 <= m < s.len() implies slot_holds(#[trigger] t[m], other)
                == slot_holds(s[m], other) && (slot_holds(s[m], other) ==> t[m] == s[m]) by {}
            lemma_same_holders(s, t, other);
        }
    } else {
        assert forall|m: int| 0 <= m < s.len() implies slot_holds(#[trigger] t[m], other)
            == slot_holds(s[m], other) && (slot_holds(s[m], other) ==> t[m] == s[m]) by {}
        lemma_same_holders(s, t, other);
    }
}

/// PUT and DELETE keep every slot state within empty/active/tombstoned.
pub proof fn law_operations_keep_states(s: Seq<KvSlot>, caller: u64, key: u32, val: u64)
    requires
        states_valid(s),
    ensures
        states_valid(spec_put(s, caller, key, val).0),
        states_valid(spec_delete(s, caller, key).0),
        spec_put(s, caller, key, val).0.len() == s.len(),
        spec_delete(s, caller, key).0.len() == s.len(),
{
    lemma_find_key_from(s, key, 0);
    lemma_find_state_from(s, 0, 0);
    lemma_find_state_from(s, 2, 0);
}

/// Every operation keeps slot states within empty/active/tombstoned and keeps each
/// key in at most one non-empty slot.
pub proof fn law_operations_keep_invariants(s: Seq<KvSlot>, caller: u64, key: u32, val: u64)
    requires
        states_valid(s),
        keys_unique(s),
    ensures
        states_valid(spec_put(s, caller, key, val).0),
        keys_unique(spec_put(s, caller, key, val).0),
        states_valid(spec_delete(s, caller, key).0),
        keys_unique(spec_delete(s, caller, key).0),
        spec_put(s, caller, key, val).0.len() == s.len(),
        spec_delete(s, caller, key).0.len() == s.len(),
{
    lemma_find_key_from(s, key, 0);
    lemma_find_state_from(s, 0, 0);
    lemma_find_state_from(s, 2, 0);
    let t = spec_put(s, caller, key, val).0;
    let d = spec_delete(s, caller, key).0;
    assert forall|i: int, j: int|
        0 <= i < t.len() && 0 <= j < t.len() && i != j && t[i].state != 0 && t[j].state != 0
            implies #[trigger] t[i].key != #[trigger] t[j].key by {
        if t[i] != s[i] {
            assert(t[i].key == key);
            assert(!slot_holds(s[j], key) || find_key(s, key) is Some);
        } else if t[j] != s[j] {
            assert(t[j].key == key);
            assert(!slot_holds(s[i], key) || find_key(s, key) is Some);
        }
    }
    assert forall|i: int, j: int|
        0 <= i < d.len() && 0 <= j < d.len() && i != j && d[i].state != 0 && d[j].state != 0
            implies #[trigger] d[i].key != #[trigger] d[j].key by {
        assert(d[i].key == s[i].key && d[j].key == s[j].key);
        assert(s[i].state != 0 && s[j].state != 0);
    }
}

} // verus!
