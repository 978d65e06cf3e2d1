use std::cell::RefCell;
use std::collections::VecDeque;

use sexos::signals::{SigAction, SignalDelivery, SignalRegistry, SA_RESETHAND, SA_SIGINFO};

#[test]
fn route_rejects_out_of_range_domain() {
    let mut r = SignalRegistry::new();
    assert_eq!(r.route_signal(1u64 << 32, 10, 1), -1);
    assert_eq!(r.route_signal(7, 10, 1), 0);
    assert_eq!(r.route_signal(7, 12, 1), 0);
    assert_eq!(r.take_pending(7), Some(10));
    assert_eq!(r.take_pending(7), Some(12));
    assert_eq!(r.take_pending(7), None);
}

#[test]
fn worker_starts_once() {
    let mut r = SignalRegistry::new();
    assert!(r.init_pd(9));
    assert!(!r.init_pd(9));
    assert!(r.init_pd(10));
}

#[test]
fn dispatch_describes_handler_call() {
    let mut r = SignalRegistry::new();
    assert!(r.prepare_dispatch(4, 2).is_none());
    r.register_sigaction(4, 2, SigAction { handler: 0x1000, flags: SA_SIGINFO });
    let d = r.prepare_dispatch(4, 2).unwrap();
    assert_eq!(d.handler, 0x1000);
    assert!(d.with_info);
    assert!(!d.reset_after);
    assert_eq!(d.siginfo.signo, 2);
    assert_eq!(d.siginfo.sender_pid, 4);
    assert_eq!(d.ucontext.delivery_count, 1);
    r.finish_dispatch(&d);
    let d2 = r.prepare_dispatch(4, 2).unwrap();
    assert_eq!(d2.ucontext.delivery_count, 2);
    r.clear_sigaction(4, 2);
    assert!(r.prepare_dispatch(4, 2).is_none());
    assert!(SigAction::default().is_empty());
}

#[test]
fn pump_runs_reset_handler_once() {
    let mut r = SignalRegistry::new();
    r.register_sigaction(5, 3, SigAction { handler: 0x2000, flags: SA_RESETHAND });
    r.register_sigaction(5, 4, SigAction { handler: 0x3000, flags: 0 });
    let calls: RefCell<Vec<SignalDelivery>> = RefCell::new(Vec::new());
    let mut ring: VecDeque<u8> = VecDeque::from(vec![3, 3, 4, 9, 4]);
    let n = r.pump_pending(5, &mut ring, |d| calls.borrow_mut().push(d));
    assert_eq!(n, 3);
    assert!(ring.is_empty());
    let calls = calls.into_inner();
    assert_eq!(calls.iter().map(|d| d.signo).collect::<Vec<_>>(), vec![3, 4, 4]);
    assert!(calls[0].reset_after);
    assert_eq!(calls[2].ucontext.delivery_count, 3);
    assert!(r.prepare_dispatch(5, 3).is_none());
}

#[test]
fn dispatch_signal_runs_handler() {
    let mut r = SignalRegistry::new();
    let calls: RefCell<Vec<SignalDelivery>> = RefCell::new(Vec::new());
    assert!(!r.dispatch_signal(5, 3, |d| calls.borrow_mut().push(d)));
    assert!(calls.borrow().is_empty());
    r.register_sigaction(5, 3, SigAction { handler: 0x2000, flags: SA_RESETHAND });
    assert!(r.dispatch_signal(5, 3, |d| calls.borrow_mut().push(d)));
    assert_eq!(calls.borrow().len(), 1);
    assert_eq!(calls.borrow()[0].handler, 0x2000);
    assert_eq!(calls.borrow()[0].ucontext.delivery_count, 1);
    assert!(calls.borrow()[0].reset_after);
    // the reset-on-delivery action is gone
    assert!(!r.dispatch_signal(5, 3, |d| calls.borrow_mut().push(d)));
    assert_eq!(calls.borrow().len(), 1);
}
