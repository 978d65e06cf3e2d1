use sexos::debug::{
    address_name, analyze, detect_anomalies, detect_violation, function_of, parse_line,
    parse_register_dump, suggest_fix, Anomaly, Domain, Finding, RootCause, SymbolResolver,
    Timeline, TimelineKey, TraceEvent,
};

fn ev(tsc: u64, rip: u64, pkru: u32) -> TraceEvent {
    TraceEvent { tsc, rip, pkru, domain: Domain::from_pkru(pkru), symbol: None }
}

#[test]
fn domains_from_pkru() {
    assert_eq!(Domain::from_pkru(0), Domain::Kernel);
    assert_eq!(Domain::from_pkru(0x5555_5554), Domain::Linen);
    assert_eq!(Domain::from_pkru(0xAAAA_AAAA), Domain::SexDisplay);
    assert_eq!(Domain::from_pkru(7), Domain::Unknown(7));
}

#[test]
fn trace_lines() {
    let e = parse_line("100, 0xffff800000001000, 0x55555554").unwrap();
    assert_eq!(e.tsc, 100);
    assert_eq!(e.rip, 0xffff_8000_0000_1000);
    assert_eq!(e.pkru, 0x5555_5554);
    assert_eq!(e.domain, Domain::Linen);
    assert!(e.symbol.is_none());
    let e = parse_line("7,1a2b,0,extra").unwrap();
    assert_eq!((e.tsc, e.rip, e.pkru), (7, 0x1a2b, 0));
    assert_eq!(e.domain, Domain::Kernel);
    assert!(parse_line("7,1a2b").is_none());
    assert!(parse_line("x,1a2b,0").is_none());
    assert!(parse_line("7,zz,0").is_none());
    assert!(parse_line("7,1,100000000").is_none());
    assert!(parse_line("").is_none());
}

#[test]
fn analysis_rules() {
    assert_eq!(analyze(&[]), Finding { cause: RootCause::EmptyTrace, first_bad_index: 0 });
    let clean = vec![ev(1, 0x1000, 0), ev(2, 0x2000, 0x5555_5554), ev(3, 0x3000, 0)];
    assert_eq!(analyze(&clean), Finding { cause: RootCause::NoViolations, first_bad_index: 2 });
    let stray = vec![ev(1, 0x1000, 0x5555_5554), ev(2, 0x1004, 0x5555_5554), ev(3, 0x1008, 0x1234)];
    assert_eq!(
        analyze(&stray),
        Finding { cause: RootCause::UnknownPkruValue, first_bad_index: 2 }
    );
    let null = vec![ev(1, 0x1000, 0), ev(2, 0, 0)];
    assert_eq!(analyze(&null), Finding { cause: RootCause::NullRip, first_bad_index: 1 });
    let mut switch = ev(2, 0x2000, 0);
    switch.domain = Domain::Linen;
    assert_eq!(
        detect_violation(4, &[ev(1, 0x1000, 0), switch]),
        Some(Finding { cause: RootCause::DomainSwitchWithoutPkruUpdate, first_bad_index: 5 })
    );
    let mut kernel = ev(2, 0x2000, 0x5555_5554);
    kernel.domain = Domain::Kernel;
    let mut before = ev(1, 0x1000, 0x4444);
    before.domain = Domain::Linen;
    assert_eq!(
        detect_violation(0, &[before, kernel]),
        Some(Finding { cause: RootCause::KernelUnderRestrictedPkru, first_bad_index: 1 })
    );
    assert_eq!(
        detect_violation(0, &[ev(1, 1, 0x5555_5554), ev(2, 2, 0x5555_5555)]),
        Some(Finding { cause: RootCause::UnknownPkruValue, first_bad_index: 1 })
    );
    assert_eq!(detect_violation(0, &[ev(1, 1, 0)]), None);
}

#[test]
fn causes_and_fixes() {
    assert_eq!(RootCause::NullRip.confidence_hundredths(), 99);
    assert_eq!(RootCause::EmptyTrace.confidence_hundredths(), 0);
    assert_eq!(RootCause::NoViolations.text(), "No violations found");
    assert_eq!(
        RootCause::DomainSwitchWithoutPkruUpdate.text(),
        "Domain switch without PKRU update"
    );
    assert_eq!(
        suggest_fix(RootCause::KernelUnderRestrictedPkru).message,
        "Restore PKRU to 0x0 before returning to kernel context"
    );
    assert_eq!(suggest_fix(RootCause::NoViolations).message, "Further investigation required");
}

#[test]
fn anomaly_report() {
    let events = vec![
        ev(1, 0x1000, 0x5555_5554),
        ev(2, 0x1004, 0x5555_5554),
        ev(3, 0, 0),
    ];
    let mut e1 = ev(4, 0x10, 0);
    e1.domain = Domain::Linen;
    let mut all = events.clone();
    all.push(e1);
    let r = detect_anomalies(&all);
    assert_eq!(
        r,
        vec![
            Anomaly::NullRip { tsc: 3 },
            Anomaly::InvalidTransition { tsc: 4, from: Domain::Kernel, to: Domain::Linen },
        ]
    );
    let drift = vec![ev(1, 1, 0x5555_5554), ev(2, 2, 0x5555_5555)];
    let mut d1 = drift.clone();
    d1[1].domain = Domain::Linen;
    assert_eq!(
        detect_anomalies(&d1),
        vec![Anomaly::PkruWithoutDomainChange {
            tsc: 2,
            domain: Domain::Linen,
            from: 0x5555_5554,
            to: 0x5555_5555
        }]
    );
    assert!(detect_anomalies(&events[..1]).is_empty());
}

#[test]
fn register_dump() {
    let dump = "RAX=0000000000000001 RBX=0000000000000002\nRIP=ffffffff81000000 RFL=00000246\nCR0=80050033 CR2=0 CR3=0000000001a2b000 CR4=00000020\nPKRU=55555554\n";
    assert_eq!(parse_register_dump(dump), (0xffff_ffff_8100_0000, 0x5555_5554, 0));
    let dump = "CR3=1000 X\r\nRIP=zz\nPKRU=AAAAAAAA";
    assert_eq!(parse_register_dump(dump), (0, 0xAAAA_AAAA, 0x1000));
    assert_eq!(parse_register_dump(""), (0, 0, 0));
}

#[test]
fn symbols() {
    assert_eq!(address_name(0x1a2b), "0x1a2b");
    assert_eq!(address_name(0), "0x0");
    let mut r = SymbolResolver::new("/boot/kernel");
    assert_eq!(r.binary_path, "/boot/kernel");
    assert!(r.cached(0x10).is_none());
    assert_eq!(r.record(0x10, Some("kmain".to_string())), "kmain");
    assert_eq!(r.cached(0x10), Some("kmain".to_string()));
    assert_eq!(r.record(0x20, Some("??".to_string())), "0x20");
    assert_eq!(r.record(0xff, None), "0xff");
    assert_eq!(r.cached(0xff), Some("0xff".to_string()));
    assert_eq!(function_of("kmain".to_string()), Some("kmain".to_string()));
    assert_eq!(function_of("0x20".to_string()), None);
    assert_eq!(function_of("??".to_string()), None);
}

#[test]
fn timeline_scrolling() {
    let mut t = Timeline::new(10, Some(7));
    assert_eq!(t.offset, 2);
    assert_eq!(Timeline::new(10, Some(3)).offset, 0);
    assert_eq!(Timeline::new(10, None).offset, 0);
    assert!(!t.on_key(TimelineKey::Up));
    assert_eq!(t.offset, 1);
    assert!(!t.on_key(TimelineKey::Up));
    assert!(!t.on_key(TimelineKey::Up));
    assert_eq!(t.offset, 0);
    for _ in 0..20 {
        t.on_key(TimelineKey::Down);
    }
    assert_eq!(t.offset, 9);
    assert!(!t.on_key(TimelineKey::Other));
    assert!(t.on_key(TimelineKey::Quit));
    assert_eq!(t.visible(24), (9, 10));
    let t = Timeline::new(100, Some(50));
    assert_eq!(t.visible(24), (45, 65));
    assert_eq!(t.visible(4), (45, 45));
}
