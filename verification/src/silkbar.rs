//! The silkbar's link to the display server: how an update is packed into a PDX
//! call, and what the sender makes of the call's outcome (the capability becoming
//! ready, a deferred start, dropped updates).
use vstd::prelude::*;

verus! {

/// One update of the bar: its kind, the item index and two values.
#[derive(Debug, Clone, Copy, PartialEq, Eq, Structural)]
pub struct SilkBarUpdate {
    pub kind: u32,
    pub index: u32,
    pub a: u32,
    pub b: u32,
}

/// The three arguments of the update call: the kind, the index in the upper half
/// above the first value, and the second value.
pub fn update_call_args(u: SilkBarUpdate) -> (r: (u64, u64, u64))
    ensures
        r.0 == u.kind,
        r.1 == u.index * 0x1_0000_0000 + u.a,
        r.2 == u.b,
{
    let idx: u64 = u.index as u64;
    let a: u64 = u.a as u64;
    let hi: u64 = idx << 32u64;
    assert(hi == idx * 0x1_0000_0000 && hi | a == hi + a) by (bit_vector)
        requires
            hi == idx << 32u64,
            idx <= 0xFFFF_FFFF,
            a <= 0xFFFF_FFFF,
    ;
    (u.kind as u64, hi | a, u.b as u64)
}

/// What the sender reports about one update.
#[derive(Debug, Clone, Copy, PartialEq, Eq, Structural)]
pub enum SendEvent {
    /// The update went through.
    Delivered,
    /// The display's capability is missing; the first such answer is reported.
    Deferred { first: bool },
    /// The update was dropped; `count` earlier drops (`clock_count` of clock updates).
    Dropped { count: u64, clock_count: Option<u64> },
}

/// The sender's view of its link to the display server.
pub struct BarLink {
    pub cap_ready: bool,
    pub defer_emitted: bool,
    pub drops: u64,
    pub clock_drops: u64,
}

impl BarLink {
    pub fn new() -> (l: Self)
        ensures
            !l.cap_ready,
            !l.defer_emitted,
            l.drops == 0,
            l.clock_drops == 0,
    {
        BarLink { cap_ready: false, defer_emitted: false, drops: 0, clock_drops: 0 }
    }

    /// Takes the outcome of sending `u` (`Ok` or the error code) and returns the
    /// status (0 or the error). Until the capability was once ready, success makes it
    /// ready and the missing-capability error `cap_invalid` defers without counting a
    /// drop; any other error counts a drop (and a clock drop for `clock_kind`).
    pub fn after_send(&mut self, u: SilkBarUpdate, result: Result<u64, u64>, cap_invalid: u64, clock_kind: u32) -> (r: (u64, SendEvent))
        ensures
            match result {
                Ok(_) => r == (0u64, SendEvent::Delivered) && final(self).cap_ready && final(self).defer_emitted
                    == old(self).defer_emitted && final(self).drops == old(self).drops && final(self).clock_drops
                    == old(self).clock_drops,
                Err(e) => if !old(self).cap_ready && e == cap_invalid {
                    &&& r == (e, SendEvent::Deferred { first: !old(self).defer_emitted })
                    &&& final(self).defer_emitted
                    &&& !final(self).cap_ready
                    &&& final(self).drops == old(self).drops
                    &&& final(self).clock_drops == old(self).clock_drops
                } else {
                    &&& r.0 == e
                    &&& r.1 == (SendEvent::Dropped {
                        count: old(self).drops,
                        clock_count: if u.kind == clock_kind {
                            Some(old(self).clock_drops)
                        } else {
                            None
                        },
                    })
                    &&& final(self).cap_ready == old(self).cap_ready
                    &&& final(self).defer_emitted == old(self).defer_emitted
                    &&& final(self).drops == old(self).drops.wrapping_add(1)
                    &&& final(self).clock_drops == if u.kind == clock_kind {
                        old(self).clock_drops.wrapping_add(1)
                    } else {
                        old(self).clock_drops
                    }
                },
            },
    {
        if !self.cap_ready {
            match result {
                Ok(_) => {
                    self.cap_ready = true;
                },
                Err(e) => {
                    if e == cap_invalid {
                        let first = !self.defer_emitted;
                        self.defer_emitted = true;
                        return (e, SendEvent::Deferred { first });
                    }
                },
            }
        }
        match result {
            Ok(_) => (0, SendEvent::Delivered),
            Err(e) => {
                let count = self.drops;
                self.drops = self.drops.wrapping_add(1);
                let clock_count = if u.kind == clock_kind {
                    let c = self.clock_drops;
                    self.clock_drops = self.clock_drops.wrapping_add(1);
                    Some(c)
                } else {
                    None
                };
                (e, SendEvent::Dropped { count, clock_count })
            },
        }
    }
}

} // verus!
