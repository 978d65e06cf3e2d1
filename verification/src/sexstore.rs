//! The sexstore server: request dispatch over the slot table, durable write-through,
//! boot-time recovery and the built-in contract self-test.
use vstd::prelude::*;
use crate::durable::{DurableRegion, spec_init, spec_load, spec_write_all, zeros};
use crate::durable::{page_a, page_b, page_seq};
use crate::durable_laws::law_load_after_write;
use crate::kvlaws::{law_operations_keep_states, lemma_first_holder, lemma_no_holder};
use crate::kvstore::states_valid;
use crate::kvstore::{
    KvSlot, OP_KV_DEL, OP_KV_GET, OP_KV_PUT, KV_SHELL_CALLER, KV_SLOT_COUNT, empty_slot,
    find_key, find_state, kv_delete, kv_get, kv_put, kv_put_raw, kv_reset, lemma_find_state_from,
    slot_holds, spec_delete, spec_get, spec_put, spec_put_raw, status, status_reply,
};

verus! {

/// Store state after a request and the reply sent for it.
pub open spec fn spec_handle(
    slots: Seq<KvSlot>,
    region: Seq<u8>,
    type_id: u64,
    caller: u64,
    arg0: u64,
    arg1: u64,
) -> (Seq<KvSlot>, Seq<u8>, u64) {
    if type_id == 0xB1 {
        let (t, r) = spec_put(slots, caller, arg0 as u32, arg1);
        (t, if r == status(0) { spec_write_all(region, t) } else { region }, r)
    } else if type_id == 0xB0 {
        (slots, region, spec_get(slots, caller, arg0 as u32))
    } else if type_id == 0xB2 {
        let (t, r) = spec_delete(slots, caller, arg0 as u32);
        (t, if r == status(0) { spec_write_all(region, t) } else { region }, r)
    } else {
        (slots, region, 0)
    }
}

/// Outcome of one self-test stage: the stage, whether it passed, and the two replies it saw.
#[derive(Clone, Copy, Debug, PartialEq, Eq, Structural)]
pub struct ProofStageReport {
    pub stage: u8,
    pub ok: bool,
    pub first: u64,
    pub second: u64,
}

/// The sexstore server state: the RAM slot table, its durable backing and the
/// self-test stage counter.
pub struct SexStore {
    pub slots: Vec<KvSlot>,
    pub region: DurableRegion,
    pub proof_stage: u8,
}

impl SexStore {
    pub open spec fn wf(&self) -> bool {
        &&& self.slots@.len() == 16
        &&& self.region.wf()
    }

    /// A store with an empty table and a blank durable region.
    pub fn new() -> (s: SexStore)
        ensures
            s.wf(),
            forall|i: int| 0 <= i < 16 ==> #[trigger] s.slots@[i] == empty_slot(),
            s.region@ == zeros(1024),
            s.proof_stage == 0,
    {
        let mut slots: Vec<KvSlot> = Vec::new();
        let mut i: usize = 0;
        while i < KV_SLOT_COUNT
            invariant
                i <= 16,
                slots@.len() == i,
                forall|j: int| 0 <= j < i ==> #[trigger] slots@[j] == empty_slot(),
            decreases 16 - i,
        {
            slots.push(KvSlot::empty());
            i += 1;
        }
        SexStore { slots, region: DurableRegion::new(), proof_stage: 0 }
    }

    /// Boot: initialise the durable region on first boot, then load the authoritative
    /// page into RAM. Returns whether initialisation ran and the load counts.
    pub fn boot(&mut self) -> (r: (bool, (u32, u32, u32)))
        requires
            old(self).wf(),
        ensures
            final(self).wf(),
            final(self).proof_stage == old(self).proof_stage,
            (final(self).region@, r.0) == spec_init(old(self).region@, old(self).slots@),
            (final(self).slots@, r.1) == spec_load(final(self).region@, old(self).slots@),
    {
        let first = self.region.durable_init(self.slots.as_slice());
        let counts = self.region.durable_load_into_ram(&mut self.slots);
        (first, counts)
    }

    /// Handle one request and return its reply. PUT and DELETE write the whole table
    /// through to the durable region whenever they answer OK.
    pub fn handle_message(&mut self, type_id: u64, caller: u64, arg0: u64, arg1: u64) -> (r: u64)
        requires
            old(self).wf(),
        ensures
            final(self).wf(),
            final(self).proof_stage == old(self).proof_stage,
            (final(self).slots@, final(self).region@, r) == spec_handle(
                old(self).slots@,
                old(self).region@,
                type_id,
                caller,
                arg0,
                arg1,
            ),
    {
        if type_id == OP_KV_PUT {
            let r = kv_put(&mut self.slots, caller, arg0 as u32, arg1);
            if r == status_reply(0) {
                let _ok = self.region.durable_write_all(self.slots.as_slice());
            }
            r
        } else if type_id == OP_KV_GET {
            kv_get(&self.slots, caller, arg0 as u32)
        } else if type_id == OP_KV_DEL {
            let r = kv_delete(&mut self.slots, caller, arg0 as u32);
            if r == status_reply(0) {
                let _ok = self.region.durable_write_all(self.slots.as_slice());
            }
            r
        } else {
            0
        }
    }

    /// Run the next stage of the contract self-test (six stages), or nothing once all
    /// have run. Stages 0 and 4 reset the table.
    pub fn run_kv_contract_proof_stage(&mut self) -> (r: Option<ProofStageReport>)
        requires
            old(self).wf(),
        ensures
            final(self).wf(),
            final(self).region@ == old(self).region@,
            old(self).proof_stage >= 6 ==> r is None && final(self).slots@ == old(self).slots@
                && final(self).proof_stage == old(self).proof_stage,
            old(self).proof_stage < 6 ==> (r matches Some(rep) && rep.stage == old(self).proof_stage
                && final(self).proof_stage == old(self).proof_stage + 1),
            old(self).proof_stage == 0 ==> (r matches Some(rep) && rep.ok && final(self).slots@
                == stage0_table()),
            old(self).proof_stage == 1 && old(self).slots@ == stage0_table() ==> (r matches Some(rep)
                && rep.ok && final(self).slots@ == old(self).slots@),
            2 <= old(self).proof_stage <= 3 ==> (r matches Some(rep) && rep.ok && final(self).slots@
                == old(self).slots@),
            old(self).proof_stage == 4 ==> (r matches Some(rep) && rep.ok && final(self).slots@
                == stage4_table()),
            old(self).proof_stage == 5 ==> (r matches Some(rep) && rep.ok && final(self).slots@
                == old(self).slots@),
    {
        let stage = self.proof_stage;
        if stage >= 6 {
            return None;
        }
        self.proof_stage = stage + 1;
        if stage == 0 {
            kv_reset(&mut self.slots);
            proof {
                assert(self.slots@[0].state == 0);
                assert(0x2A02u64 & 0x8000_0000_0000_0000u64 == 0) by (bit_vector);
                lemma_find_state_from(self.slots@, 0, 0);
                lemma_no_holder(self.slots@, 2);
            }
            let put = kv_put(&mut self.slots, KV_SHELL_CALLER, 0x02, 0x2A02);
            proof {
                assert(self.slots@ =~= stage0_table());
                lemma_first_holder(self.slots@, 2, 0);
            }
            let get = kv_get(&self.slots, KV_SHELL_CALLER, 0x02);
            let ok = put == status_reply(0) && get == 0x2A02;
            Some(ProofStageReport { stage, ok, first: put, second: get })
        } else if stage == 1 {
            proof {
                if self.slots@ == stage0_table() {
                    assert forall|m: int| 0 <= m < self.slots@.len() implies !slot_holds(
                        #[trigger] self.slots@[m],
                        3,
                    ) by {}
                    lemma_no_holder(self.slots@, 3);
                }
            }
            let get = kv_get(&self.slots, KV_SHELL_CALLER, 0x03);
            let ok = get == status_reply(1);
            Some(ProofStageReport { stage, ok, first: get, second: 0 })
        } else if stage == 2 {
            let put = kv_put(&mut self.slots, KV_SHELL_CALLER, 0x00, 1);
            let ok = put == status_reply(3);
            Some(ProofStageReport { stage, ok, first: put, second: 0 })
        } else if stage == 3 {
            assert(0x8000_0000_0000_0000u64 & 0x8000_0000_0000_0000u64 != 0) by (bit_vector);
            let put = kv_put(&mut self.slots, KV_SHELL_CALLER, 0x01, 0x8000_0000_0000_0000);
            let ok = put == status_reply(4);
            Some(ProofStageReport { stage, ok, first: put, second: 0 })
        } else if stage == 4 {
            kv_reset(&mut self.slots);
            let mut last = status_reply(0);
            let mut i: usize = 0;
            while i < KV_SLOT_COUNT
                invariant
                    i <= 16,
                    self.slots@.len() == 16,
                    self.region.wf(),
                    self.region@ == old(self).region@,
                    self.proof_stage == stage + 1,
                    stage == 4,
                    last == status(0),
                    forall|j: int|
                        0 <= j < 16 ==> #[trigger] self.slots@[j] == if j < i {
                            filled_slot(j)
                        } else {
                            empty_slot()
                        },
                decreases 16 - i,
            {
                proof {
                    assert forall|m: int| 0 <= m < self.slots@.len() implies !slot_holds(
                        #[trigger] self.slots@[m],
                        (i + 1) as u32,
                    ) by {}
                    lemma_no_holder(self.slots@, (i + 1) as u32);
                    lemma_find_state_from(self.slots@, 0, 0);
                    assert(self.slots@[i as int].state == 0);
                }
                last = kv_put_raw(&mut self.slots, (i as u32) + 1, (i as u64) + 10);
                i += 1;
            }
            proof {
                assert forall|m: int| 0 <= m < self.slots@.len() implies !slot_holds(
                    #[trigger] self.slots@[m],
                    17,
                ) by {}
                lemma_no_holder(self.slots@, 17);
                lemma_find_state_from(self.slots@, 0, 0);
                assert(self.slots@ =~= stage4_table());
            }
            let full = kv_put_raw(&mut self.slots, 17, 0x55);
            let ok = last == status_reply(0) && full == status_reply(2);
            Some(ProofStageReport { stage, ok, first: last, second: full })
        } else {
            let put = kv_put(&mut self.slots, 99, 0x01, 0x1234);
            let get = kv_get(&self.slots, 99, 0x01);
            let ok = put == status_reply(5) && get == status_reply(5);
            Some(ProofStageReport { stage, ok, first: put, second: get })
        }
    }

    /// Run the remaining self-test stages in order and collect their reports.
    pub fn run_kv_contract_proof(&mut self) -> (reports: Vec<ProofStageReport>)
        requires
            old(self).wf(),
        ensures
            final(self).wf(),
            final(self).proof_stage == if old(self).proof_stage < 6 {
                6
            } else {
                old(self).proof_stage
            },
            old(self).proof_stage == 0 ==> reports@.len() == 6 && forall|i: int|
                0 <= i < 6 ==> (#[trigger] reports@[i]).ok && reports@[i].stage == i,
    {
        let mut reports: Vec<ProofStageReport> = Vec::new();
        let ghost start = self.proof_stage;
        while self.proof_stage < 6
            invariant
                self.wf(),
                start < 6 ==> start <= self.proof_stage <= 6,
                start >= 6 ==> self.proof_stage == start,
                start == 0 ==> reports@.len() == self.proof_stage,
                start == 0 ==> forall|i: int|
                    0 <= i < reports@.len() ==> (#[trigger] reports@[i]).ok && reports@[i].stage
                        == i,
                start == 0 && self.proof_stage == 1 ==> self.slots@ == stage0_table(),
            decreases 6 - self.proof_stage,
        {
            match self.run_kv_contract_proof_stage() {
                Some(rep) => reports.push(rep),
                None => {},
            }
        }
        reports
    }
}

/// The table after self-test stage 0: key 2 holds 0x2A02 in slot 0.
pub open spec fn stage0_table() -> Seq<KvSlot> {
    Seq::new(
        16,
        |j: int|
            if j == 0 {
                KvSlot { state: 1, generation: 1, key: 2, val: 0x2A02 }
            } else {
                empty_slot()
            },
    )
}

/// Slot `j` after the table-fill stage: key `j + 1` holding `j + 10`.
pub open spec fn filled_slot(j: int) -> KvSlot {
    KvSlot { state: 1, generation: 1, key: (j + 1) as u32, val: (j + 10) as u64 }
}

/// The table after self-test stage 4: every slot filled.
pub open spec fn stage4_table() -> Seq<KvSlot> {
    Seq::new(16, |j: int| filled_slot(j))
}


/// Write-through: whenever a request is answered OK and changed the table, the durable
/// region already holds it, so a reboot (load) recovers exactly the table in RAM.
/// (Holds while the newest page sequence number is below `u32::MAX`.)
pub proof fn law_restart_recovers_table(
    slots: Seq<KvSlot>,
    region: Seq<u8>,
    type_id: u64,
    caller: u64,
    arg0: u64,
    arg1: u64,
    prior: Seq<KvSlot>,
)
    requires
        slots.len() == 16,
        region.len() == 1024,
        prior.len() == 16,
        states_valid(slots),
        page_seq(page_a(region)) < 0xFFFF_FFFF,
        page_seq(page_b(region)) < 0xFFFF_FFFF,
        type_id == 0xB1 || type_id == 0xB2,
        spec_handle(slots, region, type_id, caller, arg0, arg1).2 == status(0),
    ensures
        ({
            let (t, w, r) = spec_handle(slots, region, type_id, caller, arg0, arg1);
            spec_load(w, prior) == (t, (16u32, 16u32, 0u32))
        }),
{
    law_operations_keep_states(slots, caller, arg0 as u32, arg1);
    let t = spec_handle(slots, region, type_id, caller, arg0, arg1).0;
    law_load_after_write(region, t, prior);
}

} // verus!
