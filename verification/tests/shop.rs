use sexos::sexshop::{
    package_name, BinaryCache, BuildCache, FetchStep, PageHandover, ServiceRegistry, Storage,
    StoreAction, StoreReply, StoreRequest, StoreService, Transactions,
};

fn name_field(s: &str) -> [u8; 256] {
    let mut f = [0u8; 256];
    f[..s.len()].copy_from_slice(s.as_bytes());
    f
}

#[test]
fn package_names_are_trimmed() {
    assert_eq!(package_name(&name_field("bash")), b"bash".to_vec());
    let mut padded = [0u8; 256];
    padded[2..5].copy_from_slice(b"gcc");
    assert_eq!(package_name(&padded), b"gcc".to_vec());
    assert_eq!(package_name(&name_field("")), Vec::<u8>::new());
    let mut bad = name_field("ab");
    bad[1] = 0xFF;
    assert_eq!(package_name(&bad), Vec::<u8>::new());
}

#[test]
fn fetch_steps() {
    let s = Storage::new();
    let step = s.fetch_package_begin(b"bash");
    match &step {
        FetchStep::Open { path } => {
            assert_eq!(path.len(), 512);
            assert_eq!(&path[..9], b"/pkg/bash");
            assert!(path[9..].iter().all(|b| *b == 0));
        }
        _ => panic!("expected an open"),
    }
    let read = s.fetch_package_advance(step, 3);
    assert!(matches!(read, FetchStep::Read { fd: 3 }));
    match s.fetch_package_advance(read, 0x77) {
        FetchStep::Done { result } => assert_eq!(result, Ok(PageHandover { pfn: 0x77, pku_key: 7 })),
        _ => panic!("expected the outcome"),
    }
    let missing = s.fetch_package_advance(s.fetch_package_begin(b"x"), u64::MAX);
    assert!(matches!(missing, FetchStep::Done { result: Err(-2) }));
    let failed = s.fetch_package_advance(FetchStep::Read { fd: 1 }, u64::MAX);
    assert!(matches!(failed, FetchStep::Done { result: Err(-5) }));
    let long = vec![b'a'; 508];
    assert!(matches!(s.fetch_package_begin(&long), FetchStep::Done { result: Err(-7) }));
    assert!(matches!(s.fetch_package_begin(&long[..507]), FetchStep::Open { .. }));
}

#[test]
fn transactions_stack() {
    let mut t = Transactions::new();
    assert_eq!(t.commit(), -1);
    assert_eq!(t.begin(), 1);
    assert_eq!(t.begin(), 2);
    assert_eq!(t.abort(), 0);
    assert_eq!(t.commit(), 0);
    assert_eq!(t.abort(), -1);
    assert_eq!(t.begin(), 3);
}

#[test]
fn store_dispatch() {
    let mut svc = StoreService::new();
    let mut reply = StoreReply { status: 9, size: 9 };
    assert!(matches!(svc.handle_store_message(&StoreRequest::TransactionBegin, &mut reply), StoreAction::Replied));
    assert_eq!(reply.status, 1);
    svc.handle_store_message(&StoreRequest::TransactionCommit, &mut reply);
    assert_eq!(reply.status, 0);
    svc.handle_store_message(&StoreRequest::TransactionAbort, &mut reply);
    assert_eq!(reply.status, -1);
    svc.handle_store_message(&StoreRequest::KVGet { key: [0; 64] }, &mut reply);
    assert_eq!(reply, StoreReply { status: 0, size: 0 });
    svc.handle_store_message(&StoreRequest::ObjectGet { hash: [0; 32] }, &mut reply);
    assert_eq!(reply, StoreReply { status: 0, size: 0x5678 });
    svc.handle_store_message(&StoreRequest::ObjectPut { hash: [0; 32], data_paddr: 1, data_len: 2 }, &mut reply);
    assert_eq!(svc.storage.object_count, 1);
    svc.handle_store_message(&StoreRequest::ObjectExists { hash: [0; 32] }, &mut reply);
    assert_eq!(reply.status, 0);
    svc.handle_store_message(&StoreRequest::Unsupported, &mut reply);
    assert_eq!(reply.status, -1);
    svc.handle_store_message(&StoreRequest::Stats, &mut reply);
    assert_eq!(reply, StoreReply { status: 9, size: 0 });
    let image = PageHandover { pfn: 5, pku_key: 7 };
    svc.handle_store_message(&StoreRequest::CacheBinary { name: name_field("bash"), image }, &mut reply);
    svc.handle_store_message(&StoreRequest::CacheBinary { name: name_field("bash"), image: PageHandover { pfn: 6, pku_key: 7 } }, &mut reply);
    assert_eq!(svc.cache.entries.len(), 1);
    assert_eq!(svc.cache.entries[0].1.pfn, 6);
    match svc.handle_store_message(&StoreRequest::FetchPackage { name: name_field("gcc") }, &mut reply) {
        StoreAction::Fetch { name } => assert_eq!(name, b"gcc".to_vec()),
        _ => panic!("expected a fetch"),
    }
    svc.complete_fetch(Err(-2), &mut reply);
    assert_eq!(reply.status, -2);
    svc.complete_fetch(Ok(PageHandover { pfn: 0x99, pku_key: 7 }), &mut reply);
    assert_eq!(reply, StoreReply { status: 0, size: 0x99 });
}

#[test]
fn registry_and_caches() {
    let mut r = ServiceRegistry::new();
    let mut a = [0u8; 32];
    a[..4].copy_from_slice(b"sexd");
    let mut b = [0u8; 32];
    b[..4].copy_from_slice(b"sexn");
    assert_eq!(r.lookup(&a), 0);
    r.register(a, 40);
    r.register(b, 41);
    r.register(a, 42);
    assert_eq!(r.lookup(&a), 40);
    assert_eq!(r.lookup(&b), 41);
    for i in 0..20 {
        r.register([i as u8 + 100; 32], i);
    }
    assert_eq!(r.entries.len(), 16);

    let mut c = BuildCache::new();
    c.record_build(3, "ok");
    assert_eq!(c.workspace_builds, vec![(3, "ok")]);
    let mut bc = BinaryCache::new();
    bc.insert(b"a".to_vec(), PageHandover { pfn: 1, pku_key: 7 });
    bc.insert(b"b".to_vec(), PageHandover { pfn: 2, pku_key: 7 });
    assert_eq!(bc.entries.len(), 2);
    let s = Storage::new();
    assert_eq!(s.kv_get(&[1; 64]), Ok(0));
    assert_eq!(s.kv_set(&[1; 64], 0, 0), 0);
    assert!(!s.object_exists(&[0; 32]));
    assert_eq!(s.object_move(&[0; 32], 4), 0);
}
