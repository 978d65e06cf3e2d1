use sexos::signals::SignalRegistry;

#[test]
fn test_signal_delivery() {
    // Verify signal routing to a domain's queue.
    let target_pd_id = 3000;
    let signo = 10; // SIGUSR1
    let sender_cap_id = 1;

    let mut registry = SignalRegistry::new();
    let res = registry.route_signal(target_pd_id as u64, signo, sender_cap_id);
    assert_eq!(res, 0, "Signal routing failed");
}
