use sexos::crc::{crc16_ibm, crc32c};
use sexos::durable::{durable_build_page, durable_page_seq, durable_validate_page, DurableRegion};
use sexos::kvstore::{kv_delete, kv_get, kv_put, kv_put_raw, KvSlot, KV_SHELL_CALLER, OP_KV_DEL, OP_KV_GET, OP_KV_PUT};
use sexos::sexstore::SexStore;

const OK: u64 = 0x8000_0000_0000_0000;
const NOT_FOUND: u64 = OK | 1;
const FULL: u64 = OK | 2;
const INVALID_KEY: u64 = OK | 3;
const INVALID_VALUE: u64 = OK | 4;
const DENIED: u64 = OK | 5;

fn empty_table() -> Vec<KvSlot> {
    (0..16).map(|_| KvSlot::empty()).collect()
}

#[test]
fn crc_check_values() {
    assert_eq!(crc32c(b"123456789"), 0xE306_9283);
    assert_eq!(crc16_ibm(b"123456789"), 0xFEE8);
    assert_eq!(crc32c(b""), 0);
    assert_eq!(crc16_ibm(b""), 0);
}

#[test]
fn get_after_put_returns_value() {
    let mut t = empty_table();
    assert_eq!(kv_put(&mut t, KV_SHELL_CALLER, 2, 42), OK);
    assert_eq!(kv_get(&t, KV_SHELL_CALLER, 2), 42);
    assert_eq!(t[0].generation, 1);
    assert_eq!(kv_put(&mut t, KV_SHELL_CALLER, 2, 43), OK);
    assert_eq!(kv_get(&t, KV_SHELL_CALLER, 2), 43);
    assert_eq!(t[0].generation, 2);
}

#[test]
fn get_after_delete_is_not_found() {
    let mut t = empty_table();
    kv_put(&mut t, KV_SHELL_CALLER, 5, 7);
    assert_eq!(kv_delete(&mut t, KV_SHELL_CALLER, 5), OK);
    assert_eq!(kv_get(&t, KV_SHELL_CALLER, 5), NOT_FOUND);
    assert_eq!(t[0].state, 2);
    // deleting a tombstone again answers OK and changes nothing
    assert_eq!(kv_delete(&mut t, KV_SHELL_CALLER, 5), OK);
    assert_eq!(kv_delete(&mut t, KV_SHELL_CALLER, 6), NOT_FOUND);
}

#[test]
fn policy_refusals() {
    let mut t = empty_table();
    assert_eq!(kv_put(&mut t, 4, 2, 1), DENIED);
    assert_eq!(kv_put(&mut t, KV_SHELL_CALLER, 0, 1), INVALID_KEY);
    assert_eq!(kv_put(&mut t, KV_SHELL_CALLER, 0x10, 1), DENIED);
    assert_eq!(kv_put(&mut t, KV_SHELL_CALLER, 2, 0x8000_0000_0000_0000), INVALID_VALUE);
    // key 1 needs the settings envelope
    assert_eq!(kv_put(&mut t, KV_SHELL_CALLER, 1, 0x1234), INVALID_VALUE);
    assert_eq!(kv_get(&t, 9, 2), DENIED);
    assert!(t.iter().all(|s| s.state == 0));
}

#[test]
fn settings_envelope_accepted() {
    // magic 0xAC, version 0x01, then the 7-bit XOR of bytes 0..7 in byte 7
    let bytes = [0xACu8, 0x01, 0x10, 0x20, 0, 0, 0];
    let sum = bytes.iter().fold(0u8, |a, b| a ^ b) & 0x7F;
    let mut v = 0u64;
    for (i, b) in bytes.iter().enumerate() {
        v |= (*b as u64) << (8 * i);
    }
    v |= (sum as u64) << 56;
    let mut t = empty_table();
    assert_eq!(kv_put(&mut t, KV_SHELL_CALLER, 1, v), OK);
    assert_eq!(kv_get(&t, KV_SHELL_CALLER, 1), v);
}

#[test]
fn full_table_reports_full() {
    let mut t = empty_table();
    for k in 1..=16u32 {
        assert_eq!(kv_put_raw(&mut t, k, k as u64), OK);
    }
    assert_eq!(kv_put_raw(&mut t, 17, 1), FULL);
    // the raw path never reclaims a tombstone
    let mut u = empty_table();
    // key 1 only takes a checksummed settings blob, so value 1 is refused there
    assert_ne!(kv_put(&mut u, KV_SHELL_CALLER, 1, 1), OK);
    for k in 2..=15u32 {
        assert_eq!(kv_put(&mut u, KV_SHELL_CALLER, k, 1), OK);
    }
    assert_eq!(kv_put_raw(&mut u, 40, 1), OK);
    assert_eq!(kv_put_raw(&mut u, 41, 1), OK);
    assert_eq!(kv_delete(&mut u, KV_SHELL_CALLER, 3), OK);
    assert_eq!(kv_put_raw(&mut u, 42, 1), FULL);
    // the policy path does reclaim it
    assert_eq!(kv_put(&mut u, KV_SHELL_CALLER, 3, 5), OK);
    assert_eq!(kv_get(&u, KV_SHELL_CALLER, 3), 5);
}

#[test]
fn other_keys_unaffected() {
    let mut t = empty_table();
    kv_put(&mut t, KV_SHELL_CALLER, 2, 20);
    kv_put(&mut t, KV_SHELL_CALLER, 3, 30);
    kv_delete(&mut t, KV_SHELL_CALLER, 2);
    assert_eq!(kv_get(&t, KV_SHELL_CALLER, 3), 30);
}

#[test]
fn store_messages_write_through_and_recover() {
    let mut s = SexStore::new();
    let (first, _) = s.boot();
    assert!(first);
    assert_eq!(s.handle_message(OP_KV_PUT, KV_SHELL_CALLER, 4, 99), OK);
    assert_eq!(s.handle_message(OP_KV_GET, KV_SHELL_CALLER, 4, 0), 99);
    assert_eq!(s.handle_message(0x77, KV_SHELL_CALLER, 4, 0), 0);
    let bytes = s.region.as_bytes().to_vec();
    let mut restarted = SexStore::new();
    restarted.region = DurableRegion::from_bytes(bytes);
    let (again, _) = restarted.boot();
    assert!(!again);
    assert_eq!(restarted.handle_message(OP_KV_GET, KV_SHELL_CALLER, 4, 0), 99);
    assert_eq!(restarted.handle_message(OP_KV_DEL, KV_SHELL_CALLER, 4, 0), OK);
    assert_eq!(restarted.handle_message(OP_KV_GET, KV_SHELL_CALLER, 4, 0), NOT_FOUND);
}

#[test]
fn contract_self_test_passes() {
    let mut s = SexStore::new();
    let reports = s.run_kv_contract_proof();
    assert_eq!(reports.len(), 6);
    assert!(reports.iter().all(|r| r.ok));
    assert_eq!(reports[0].first, OK);
    assert_eq!(reports[0].second, 0x2A02);
    assert_eq!(reports[4].second, FULL);
    assert!(s.run_kv_contract_proof_stage().is_none());
}

#[test]
fn built_page_validates() {
    let t = empty_table();
    let page = durable_build_page(&t, 7);
    assert_eq!(page.len(), 512);
    assert!(durable_validate_page(&page));
    assert_eq!(durable_page_seq(&page), 7);
    let mut bad = page.clone();
    bad[100] ^= 0xFF;
    assert!(!durable_validate_page(&bad));
}

#[test]
fn put_makes_found_slot_active() {
    let mut t = vec![KvSlot { state: 3, generation: 4, key: 2, val: 1 }];
    assert_eq!(kv_put(&mut t, KV_SHELL_CALLER, 2, 7), 0x8000_0000_0000_0000);
    assert_eq!(t[0], KvSlot { state: 1, generation: 5, key: 2, val: 7 });
    let mut u = vec![KvSlot { state: 2, generation: 255, key: 2, val: 1 }];
    assert_eq!(kv_put(&mut u, KV_SHELL_CALLER, 2, 9), 0x8000_0000_0000_0000);
    assert_eq!(u[0], KvSlot { state: 1, generation: 1, key: 2, val: 9 });
}
