use sexos::xhci::{
    bar_mapped, cap_fields, op_base, reset_command, run_command, stop_command, wait_until, BitWait, WaitStep,
    USBSTS_CNR, USBSTS_HCHALTED,
};

#[test]
fn xhci_registers() {
    assert!(bar_mapped(0xFFFF_8000_0000_0000));
    assert!(!bar_mapped(0));
    assert!(!bar_mapped(u64::MAX));
    assert_eq!(cap_fields(0x0110_0020), (0x20, 0x0110));
    assert_eq!(op_base(0x1000, 0x0110_0020), 0x1020);
    assert_eq!(op_base(u64::MAX, 0x20), 0x1F);
    assert_eq!(stop_command(0x5), Some(0x4));
    assert_eq!(stop_command(0x4), None);
    assert_eq!(reset_command(0x1), 0x3);
    assert_eq!(run_command(0x0), 0x1);
}

#[test]
fn bounded_waits() {
    assert!(wait_until(&[0, 0, 1], USBSTS_HCHALTED, true, 3));
    assert!(!wait_until(&[0, 0, 1], USBSTS_HCHALTED, true, 2));
    assert!(wait_until(&[0x800, 0], USBSTS_CNR, false, 2));
    assert!(!wait_until(&[], USBSTS_CNR, false, 0));
    let mut w = BitWait::new(4, USBSTS_HCHALTED, false, 2);
    assert_eq!(w.start(), WaitStep::ReadAgain);
    assert_eq!(w.on_read(1), WaitStep::ReadAgain);
    assert_eq!(w.spins_left, 1);
    assert_eq!(w.on_read(1), WaitStep::Done(false));
    let mut w = BitWait::new(4, USBSTS_HCHALTED, false, 2);
    assert_eq!(w.on_read(0), WaitStep::Done(true));
    assert_eq!(BitWait::new(0, 1, true, 0).start(), WaitStep::Done(false));
}
