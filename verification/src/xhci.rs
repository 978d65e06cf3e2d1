//! The sexusb server's xHCI bring-up: the capability register's fields, the
//! command-register values that stop, reset and start the controller, and the
//! bounded wait for a status bit, one register read at a time.
use vstd::prelude::*;

verus! {

/// USBCMD, relative to the operational registers.
pub const XHCI_USBCMD: u64 = 0x00;
/// USBSTS, relative to the operational registers.
pub const XHCI_USBSTS: u64 = 0x04;
/// USBCMD: run (1) or stop (0).
pub const USBCMD_RUN_STOP: u32 = 1;
/// USBCMD: host controller reset.
pub const USBCMD_HCRST: u32 = 2;
/// USBSTS: the controller is halted.
pub const USBSTS_HCHALTED: u32 = 1;
/// USBSTS: controller not ready.
pub const USBSTS_CNR: u32 = 0x800;
/// Register reads a wait may take.
pub const POLL_BUDGET: usize = 100_000;

/// Whether the map of BAR 0 succeeded: 0 and `u64::MAX` are failures.
pub fn bar_mapped(map_va: u64) -> (ok: bool)
    ensures
        ok == (map_va != 0 && map_va != u64::MAX),
{
    map_va != 0 && map_va != u64::MAX
}

/// The capability length (low byte) and interface version (high half) of the first
/// capability register.
pub fn cap_fields(cap0: u32) -> (r: (u8, u16))
    ensures
        r.0 == cap0 % 256,
        r.1 == cap0 / 65536,
{
    let caplength = (cap0 & 0xFF) as u8;
    let version = ((cap0 >> 16u32) & 0xFFFF) as u16;
    assert(cap0 & 0xFF == cap0 % 256 && (cap0 >> 16u32) & 0xFFFF == cap0 / 65536) by (bit_vector);
    (caplength, version)
}

/// The operational registers start `caplength` bytes after the capability
/// registers (the address wraps as the hardware's does).
pub fn op_base(map_va: u64, cap0: u32) -> (b: u64)
    ensures
        b == (map_va as int + cap0 % 256) % 0x1_0000_0000_0000_0000,
{
    let caplength = (cap0 & 0xFF) as u64;
    assert(cap0 & 0xFF == cap0 % 256) by (bit_vector);
    map_va.wrapping_add(caplength)
}

/// The USBCMD value that stops a running controller, or none when it is stopped.
pub fn stop_command(usbcmd: u32) -> (w: Option<u32>)
    ensures
        usbcmd & USBCMD_RUN_STOP != 0 ==> w == Some(usbcmd & !USBCMD_RUN_STOP),
        usbcmd & USBCMD_RUN_STOP == 0 ==> w is None,
{
    if usbcmd & USBCMD_RUN_STOP != 0 {
        Some(usbcmd & !USBCMD_RUN_STOP)
    } else {
        None
    }
}

/// The USBCMD value that resets the controller.
pub fn reset_command(usbcmd: u32) -> (w: u32)
    ensures
        w == usbcmd | USBCMD_HCRST,
{
    usbcmd | USBCMD_HCRST
}

/// The USBCMD value that starts the controller.
pub fn run_command(usbcmd: u32) -> (w: u32)
    ensures
        w == usbcmd | USBCMD_RUN_STOP,
{
    usbcmd | USBCMD_RUN_STOP
}

/// The register value `v` has the bits of `mask` set (some of them) exactly when
/// `expect_set` asks for it.
pub open spec fn bit_reached(v: u32, mask: u32, expect_set: bool) -> bool {
    (v & mask != 0) == expect_set
}

/// The outcome of a bounded wait over the register values `reads`, at most `spins`
/// of them: whether one reached the bit state.
pub open spec fn wait_outcome(reads: Seq<u32>, mask: u32, expect_set: bool, spins: nat) -> bool {
    exists|i: int| 0 <= i < spins && i < reads.len() && bit_reached(#[trigger] reads[i], mask, expect_set)
}

/// What a wait asks for next.
#[derive(Debug, Clone, Copy, PartialEq, Eq, Structural)]
pub enum WaitStep {
    /// Yield, then read the register again.
    ReadAgain,
    /// The wait is over: the bit state was reached (true) or the budget ran out.
    Done(bool),
}

/// A bounded wait for bits of a register to be set or clear.
pub struct BitWait {
    pub offset: u64,
    pub mask: u32,
    pub expect_set: bool,
    pub spins_left: usize,
}

impl BitWait {
    /// A wait on the register at `offset` for `mask` set or clear, of at most `spins`
    /// reads.
    pub fn new(offset: u64, mask: u32, expect_set: bool, spins: usize) -> (w: Self)
        ensures
            w == (BitWait { offset, mask, expect_set, spins_left: spins }),
    {
        BitWait { offset, mask, expect_set, spins_left: spins }
    }

    /// Whether the wait may read at all: a wait of no reads fails at once.
    pub fn start(&self) -> (s: WaitStep)
        ensures
            self.spins_left == 0 ==> s == WaitStep::Done(false),
            self.spins_left > 0 ==> s == WaitStep::ReadAgain,
    {
        if self.spins_left == 0 {
            WaitStep::Done(false)
        } else {
            WaitStep::ReadAgain
        }
    }

    /// The register read `v`: the wait succeeds when it shows the bit state; else it
    /// spends one read and fails when none are left.
    pub fn on_read(&mut self, v: u32) -> (s: WaitStep)
        requires
            old(self).spins_left > 0,
        ensures
            bit_reached(v, old(self).mask, old(self).expect_set) ==> s == WaitStep::Done(true)
                && final(self).spins_left == old(self).spins_left,
            !bit_reached(v, old(self).mask, old(self).expect_set) ==> final(self).spins_left + 1
                == old(self).spins_left,
            !bit_reached(v, old(self).mask, old(self).expect_set) && final(self).spins_left == 0 ==> s
                == WaitStep::Done(false),
            !bit_reached(v, old(self).mask, old(self).expect_set) && final(self).spins_left > 0 ==> s
                == WaitStep::ReadAgain,
            final(self).offset == old(self).offset,
            final(self).mask == old(self).mask,
            final(self).expect_set == old(self).expect_set,
    {
        let is_set = v & self.mask != 0;
        if is_set == self.expect_set {
            return WaitStep::Done(true);
        }
        self.spins_left = self.spins_left - 1;
        if self.spins_left == 0 {
            WaitStep::Done(false)
        } else {
            WaitStep::ReadAgain
        }
    }
}

/// Runs a whole wait over the register values `reads` (one per read it takes, as
/// many as it asks for): true exactly when one of the first `spins` reached the bit
/// state.
pub fn wait_until(reads: &[u32], mask: u32, expect_set: bool, spins: usize) -> (ok: bool)
    requires
        reads@.len() >= spins,
    ensures
        ok == wait_outcome(reads@, mask, expect_set, spins as nat),
{
    let mut w = BitWait::new(0, mask, expect_set, spins);
    let mut step = w.start();
    let mut i: usize = 0;
    while step == WaitStep::ReadAgain
        invariant
            w.mask == mask,
            w.expect_set == expect_set,
            i + w.spins_left == spins,
            reads@.len() >= spins,
            step == WaitStep::ReadAgain ==> w.spins_left > 0,
            forall|j: int| 0 <= j < i ==> !bit_reached(#[trigger] reads@[j], mask, expect_set),
            step == WaitStep::Done(true) ==> i < spins && bit_reached(reads@[i as int], mask, expect_set),
            step == WaitStep::Done(false) ==> i == spins,
            step is Done || step == WaitStep::ReadAgain,
        decreases w.spins_left + if step == WaitStep::ReadAgain { 1int } else { 0int },
    {
        let v = reads[i];
        step = w.on_read(v);
        if step != WaitStep::Done(true) {
            i = i + 1;
        }
    }
    match step {
        WaitStep::Done(ok) => {
            proof {
                if ok {
                    assert(bit_reached(reads@[i as int], mask, expect_set));
                } else {
                    assert forall|j: int| 0 <= j < spins && j < reads@.len() implies !bit_reached(
                        #[trigger] reads@[j],
                        mask,
                        expect_set,
                    ) by {}
                }
            }
            ok
        },
        WaitStep::ReadAgain => false,
    }
}

} // verus!
