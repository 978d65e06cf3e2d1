//! Per-protection-domain POSIX signal state for the sexc trampoline: registered
//! actions, delivery counts and pending queues.
use vstd::prelude::*;

verus! {

pub const SA_RESTART: u64 = 0x1000_0000;
pub const SA_RESETHAND: u64 = 0x8000_0000;
pub const SA_SIGINFO: u64 = 0x0000_0004;

/// Number of signal numbers an action table covers (one per `u8`).
pub const SIGNAL_SLOTS: usize = 256;

#[derive(Clone, Copy, Debug, PartialEq, Eq, Structural)]
pub struct SigInfo {
    pub signo: i32,
    pub sender_pid: u32,
    pub code: i32,
}

impl Default for SigInfo {
    fn default() -> (s: SigInfo)
        ensures
            s == (SigInfo { signo: 0, sender_pid: 0, code: 0 }),
    {
        SigInfo { signo: 0, sender_pid: 0, code: 0 }
    }
}

#[derive(Clone, Copy, Debug, PartialEq, Eq, Structural)]
pub struct UContext {
    pub pd_id: u32,
    pub delivery_count: u64,
    pub flags: u64,
}

impl Default for UContext {
    fn default() -> (s: UContext)
        ensures
            s == (UContext { pd_id: 0, delivery_count: 0, flags: 0 }),
    {
        UContext { pd_id: 0, delivery_count: 0, flags: 0 }
    }
}

/// A registered signal action: handler address and SA_* flags.
#[derive(Clone, Copy, Debug, PartialEq, Eq, Structural)]
pub struct SigAction {
    pub handler: usize,
    pub flags: u64,
}

impl Default for SigAction {
    fn default() -> (s: SigAction)
        ensures
            s == (SigAction { handler: 0, flags: 0 }),
    {
        SigAction { handler: 0, flags: 0 }
    }
}

impl SigAction {
    /// An action with no handler.
    pub fn is_empty(self) -> (b: bool)
        ensures
            b == (self.handler == 0),
    {
        self.handler == 0
    }
}

/// What the runtime needs to invoke a handler: its address, the signal, and the
/// siginfo/ucontext pair (passed only when `with_info`).
#[derive(Clone, Copy, Debug, PartialEq, Eq, Structural)]
pub struct SignalDelivery {
    pub handler: usize,
    pub signo: u8,
    pub with_info: bool,
    pub siginfo: SigInfo,
    pub ucontext: UContext,
    pub reset_after: bool,
}

/// Signal state of one protection domain.
pub struct PdState {
    pub actions: Vec<Option<SigAction>>,
    pub delivery_count: u64,
    pub worker_started: bool,
    pub queue: Vec<u8>,
}

impl PdState {
    pub open spec fn wf(&self) -> bool {
        self.actions@.len() == 256
    }

    /// Fresh state: no actions, nothing delivered, no worker, empty queue.
    pub fn new() -> (s: PdState)
        ensures
            s.wf(),
            forall|i: int| 0 <= i < 256 ==> #[trigger] s.actions@[i] is None,
            s.delivery_count == 0,
            !s.worker_started,
            s.queue@.len() == 0,
    {
        let mut actions: Vec<Option<SigAction>> = Vec::new();
        let mut i: usize = 0;
        while i < SIGNAL_SLOTS
            invariant
                i <= 256,
                actions@.len() == i,
                forall|j: int| 0 <= j < i ==> #[trigger] actions@[j] is None,
            decreases 256 - i,
        {
            actions.push(None);
            i += 1;
        }
        PdState { actions, delivery_count: 0, worker_started: false, queue: Vec::new() }
    }
}

/// Index of the first id equal to `pd` at or after `i`.
pub open spec fn find_pd_from(ids: Seq<u32>, pd: u32, i: int) -> Option<int>
    decreases ids.len() - i,
{
    if i < 0 || i >= ids.len() {
        None
    } else if ids[i] == pd {
        Some(i)
    } else {
        find_pd_from(ids, pd, i + 1)
    }
}

pub proof fn lemma_find_pd_from(ids: Seq<u32>, pd: u32, i: int)
    requires
        0 <= i,
    ensures
        match find_pd_from(ids, pd, i) {
            Some(j) => i <= j < ids.len() && ids[j] == pd && forall|m: int|
                i <= m < j ==> #[trigger] ids[m] != pd,
            None => forall|m: int| i <= m < ids.len() ==> #[trigger] ids[m] != pd,
        },
    decreases ids.len() - i,
{
    if i < ids.len() && ids[i] != pd {
        lemma_find_pd_from(ids, pd, i + 1);
    }
}

/// Signal state of every protection domain seen so far.
pub struct SignalRegistry {
    pub ids: Vec<u32>,
    pub states: Vec<PdState>,
}

impl SignalRegistry {
    pub open spec fn wf(&self) -> bool {
        &&& self.ids@.len() == self.states@.len()
        &&& forall|i: int| 0 <= i < self.states@.len() ==> (#[trigger] self.states@[i]).wf()
    }

    pub open spec fn index_of(&self, pd: u32) -> Option<int> {
        find_pd_from(self.ids@, pd, 0)
    }

    /// The action registered for `signo` in domain `pd`.
    pub open spec fn action(&self, pd: u32, signo: u8) -> Option<SigAction> {
        match self.index_of(pd) {
            Some(i) => self.states@[i].actions@[signo as int],
            None => None,
        }
    }

    /// Signals delivered so far in domain `pd`.
    pub open spec fn count(&self, pd: u32) -> u64 {
        match self.index_of(pd) {
            Some(i) => self.states@[i].delivery_count,
            None => 0,
        }
    }

    /// Signals queued for domain `pd`, oldest first.
    pub open spec fn pending(&self, pd: u32) -> Seq<u8> {
        match self.index_of(pd) {
            Some(i) => self.states@[i].queue@,
            None => Seq::empty(),
        }
    }

    /// Whether domain `pd`'s trampoline worker has been started.
    pub open spec fn started(&self, pd: u32) -> bool {
        match self.index_of(pd) {
            Some(i) => self.states@[i].worker_started,
            None => false,
        }
    }

    /// Two registries agree on every domain other than `pd`.
    pub open spec fn same_elsewhere(&self, other: &Self, pd: u32) -> bool {
        forall|q: u32, s: u8|
            q != pd ==> #[trigger] self.action(q, s) == other.action(q, s) && self.count(q)
                == other.count(q) && self.pending(q) == other.pending(q) && self.started(q)
                == other.started(q)
    }

    pub fn new() -> (r: SignalRegistry)
        ensures
            r.wf(),
            forall|pd: u32, s: u8| #[trigger] r.action(pd, s) is None,
            forall|pd: u32| #[trigger] r.count(pd) == 0,
            forall|pd: u32| #[trigger] r.pending(pd).len() == 0,
    {
        SignalRegistry { ids: Vec::new(), states: Vec::new() }
    }

    /// The index of domain `pd`'s state, creating a fresh state when it has none.
    fn pd_state(&mut self, pd: u32) -> (idx: usize)
        requires
            old(self).wf(),
        ensures
            final(self).wf(),
            idx < final(self).ids@.len(),
            final(self).index_of(pd) == Some(idx as int),
            forall|q: u32, s: u8| #[trigger] final(self).action(q, s) == old(self).action(q, s),
            forall|q: u32| #[trigger] final(self).count(q) == old(self).count(q),
            forall|q: u32| #[trigger] final(self).pending(q) == old(self).pending(q),
            forall|q: u32| #[trigger] final(self).started(q) == old(self).started(q),
            forall|q: u32| #[trigger] old(self).index_of(q) is Some ==> final(self).index_of(q)
                == old(self).index_of(q),
            final(self).ids@.len() >= old(self).ids@.len(),
            forall|i: int|
                0 <= i < old(self).ids@.len() ==> final(self).ids@[i] == old(self).ids@[i]
                    && #[trigger] final(self).states@[i] == old(self).states@[i],
    {
        proof {
            lemma_find_pd_from(self.ids@, pd, 0);
        }
        let mut i: usize = 0;
        while i < self.ids.len()
            invariant
                i <= self.ids@.len(),
                self.wf(),
                self.ids@ == old(self).ids@,
                self.states@ == old(self).states@,
                forall|m: int| 0 <= m < i ==> #[trigger] self.ids@[m] != pd,
            decreases self.ids@.len() - i,
        {
            if self.ids[i] == pd {
                proof {
                    lemma_find_pd_from(self.ids@, pd, 0);
                }
                return i;
            }
            i += 1;
        }
        let ghost before = *self;
        let n = self.ids.len();
        self.ids.push(pd);
        self.states.push(PdState::new());
        proof {
            assert(forall|m: int| 0 <= m < n ==> self.ids@[m] == before.ids@[m]);
            assert(forall|m: int| 0 <= m < n ==> self.states@[m] == before.states@[m]);
            assert(self.ids@[n as int] == pd);
            lemma_find_pd_from(self.ids@, pd, 0);
            assert forall|q: u32| before.index_of(q) is Some implies #[trigger] self.index_of(q)
                == before.index_of(q) by {
                lemma_find_pd_from(before.ids@, q, 0);
                lemma_find_pd_from(self.ids@, q, 0);
            }
            assert forall|q: u32| before.index_of(q) is None implies #[trigger] self.index_of(q)
                is None || q == pd by {
                lemma_find_pd_from(before.ids@, q, 0);
                lemma_find_pd_from(self.ids@, q, 0);
            }
            assert forall|q: u32, s: u8| #[trigger] self.action(q, s) == before.action(q, s) by {
                lemma_find_pd_from(before.ids@, q, 0);
                lemma_find_pd_from(self.ids@, q, 0);
            }
            assert forall|q: u32| #[trigger] self.count(q) == before.count(q) by {
                lemma_find_pd_from(before.ids@, q, 0);
                lemma_find_pd_from(self.ids@, q, 0);
            }
            assert forall|q: u32| #[trigger] self.pending(q) == before.pending(q) by {
                lemma_find_pd_from(before.ids@, q, 0);
                lemma_find_pd_from(self.ids@, q, 0);
            }
            assert forall|q: u32| #[trigger] self.started(q) == before.started(q) by {
                lemma_find_pd_from(before.ids@, q, 0);
                lemma_find_pd_from(self.ids@, q, 0);
            }
        }
        n
    }
    /// Swap in `st` for the state at `idx`, handing back the previous state.
    fn replace_state(&mut self, idx: usize, st: PdState) -> (prev: PdState)
        requires
            idx < old(self).states@.len(),
            old(self).ids@.len() == old(self).states@.len(),
        ensures
            final(self).ids@ == old(self).ids@,
            final(self).states@ == old(self).states@.update(idx as int, st),
            prev == old(self).states@[idx as int],
    {
        let prev = self.states.remove(idx);
        self.states.insert(idx, st);
        assert(self.states@ =~= old(self).states@.update(idx as int, st));
        prev
    }

    /// Register (or replace) the action for `signo` in domain `pd`.
    pub fn register_sigaction(&mut self, pd_id: u32, signo: u8, action: SigAction)
        requires
            old(self).wf(),
        ensures
            final(self).wf(),
            final(self).action(pd_id, signo) == Some(action),
            forall|s: u8| s != signo ==> #[trigger] final(self).action(pd_id, s) == old(self).action(pd_id, s),
            final(self).count(pd_id) == old(self).count(pd_id),
            final(self).pending(pd_id) == old(self).pending(pd_id),
            final(self).started(pd_id) == old(self).started(pd_id),
            final(self).same_elsewhere(&*old(self), pd_id),
    {
        self.set_action(pd_id, signo, Some(action));
    }

    /// Remove the action for `signo` in domain `pd`.
    pub fn clear_sigaction(&mut self, pd_id: u32, signo: u8)
        requires
            old(self).wf(),
        ensures
            final(self).wf(),
            final(self).action(pd_id, signo) is None,
            forall|s: u8| s != signo ==> #[trigger] final(self).action(pd_id, s) == old(self).action(pd_id, s),
            final(self).count(pd_id) == old(self).count(pd_id),
            final(self).pending(pd_id) == old(self).pending(pd_id),
            final(self).started(pd_id) == old(self).started(pd_id),
            final(self).same_elsewhere(&*old(self), pd_id),
    {
        self.set_action(pd_id, signo, None);
    }

    fn set_action(&mut self, pd_id: u32, signo: u8, action: Option<SigAction>)
        requires
            old(self).wf(),
        ensures
            final(self).wf(),
            final(self).action(pd_id, signo) == action,
            forall|s: u8| s != signo ==> #[trigger] final(self).action(pd_id, s) == old(self).action(pd_id, s),
            final(self).count(pd_id) == old(self).count(pd_id),
            final(self).pending(pd_id) == old(self).pending(pd_id),
            final(self).started(pd_id) == old(self).started(pd_id),
            final(self).same_elsewhere(&*old(self), pd_id),
    {
        let idx = self.pd_state(pd_id);
        let ghost mid = *self;
        let placeholder = PdState { actions: Vec::new(), delivery_count: 0, worker_started: false, queue: Vec::new() };
        let mut st = self.replace_state(idx, placeholder);
        st.actions.set(signo as usize, action);
        let ghost st_final = st;
        let _ = self.replace_state(idx, st);
        proof {
            lemma_find_pd_from(self.ids@, pd_id, 0);
            assert(self.states@[idx as int] == st_final);
            assert(self.index_of(pd_id) == Some(idx as int));
            assert forall|s: u8| #[trigger] self.action(pd_id, s) == st_final.actions@[s as int] && mid.action(pd_id, s) == mid.states@[idx as int].actions@[s as int] by {}
            assert(self.count(pd_id) == st_final.delivery_count && mid.count(pd_id) == mid.states@[idx as int].delivery_count);
            assert(self.pending(pd_id) == st_final.queue@ && mid.pending(pd_id) == mid.states@[idx as int].queue@);
            assert(self.started(pd_id) == st_final.worker_started && mid.started(pd_id) == mid.states@[idx as int].worker_started);
            assert(forall|s: u8| #[trigger] mid.action(pd_id, s) == old(self).action(pd_id, s));
            assert(mid.count(pd_id) == old(self).count(pd_id));
            assert(mid.pending(pd_id) == old(self).pending(pd_id));
            assert(mid.started(pd_id) == old(self).started(pd_id));
            assert forall|q: u32, s: u8| q != pd_id implies #[trigger] self.action(q, s) == mid.action(q, s)
                && self.count(q) == mid.count(q) && self.pending(q) == mid.pending(q)
                && self.started(q) == mid.started(q) by {
                lemma_find_pd_from(self.ids@, q, 0);
            }
            assert(forall|i: int| 0 <= i < self.states@.len() ==> (#[trigger] self.states@[i]).wf());
        }
    }

    /// Make sure domain `pd` has state; returns whether its trampoline worker still has
    /// to be started (true exactly once per domain).
    pub fn init_pd(&mut self, pd_id: u32) -> (start_worker: bool)
        requires
            old(self).wf(),
        ensures
            final(self).wf(),
            start_worker == !old(self).started(pd_id),
            final(self).started(pd_id),
            forall|s: u8| #[trigger] final(self).action(pd_id, s) == old(self).action(pd_id, s),
            final(self).count(pd_id) == old(self).count(pd_id),
            final(self).pending(pd_id) == old(self).pending(pd_id),
            final(self).same_elsewhere(&*old(self), pd_id),
    {
        let idx = self.pd_state(pd_id);
        let ghost mid = *self;
        let placeholder = PdState { actions: Vec::new(), delivery_count: 0, worker_started: false, queue: Vec::new() };
        let mut st = self.replace_state(idx, placeholder);
        let start_worker = !st.worker_started;
        st.worker_started = true;
        let ghost st_final = st;
        let _ = self.replace_state(idx, st);
        proof {
            lemma_find_pd_from(self.ids@, pd_id, 0);
            assert(self.states@[idx as int] == st_final);
            assert(self.index_of(pd_id) == Some(idx as int));
            assert forall|s: u8| #[trigger] self.action(pd_id, s) == st_final.actions@[s as int] && mid.action(pd_id, s) == mid.states@[idx as int].actions@[s as int] by {}
            assert(self.count(pd_id) == st_final.delivery_count && mid.count(pd_id) == mid.states@[idx as int].delivery_count);
            assert(self.pending(pd_id) == st_final.queue@ && mid.pending(pd_id) == mid.states@[idx as int].queue@);
            assert(self.started(pd_id) == st_final.worker_started && mid.started(pd_id) == mid.states@[idx as int].worker_started);
            assert(forall|s: u8| #[trigger] mid.action(pd_id, s) == old(self).action(pd_id, s));
            assert(mid.count(pd_id) == old(self).count(pd_id));
            assert(mid.pending(pd_id) == old(self).pending(pd_id));
            assert(mid.started(pd_id) == old(self).started(pd_id));
            assert forall|q: u32, s: u8| q != pd_id implies #[trigger] self.action(q, s) == mid.action(q, s)
                && self.count(q) == mid.count(q) && self.pending(q) == mid.pending(q)
                && self.started(q) == mid.started(q) by {
                lemma_find_pd_from(self.ids@, q, 0);
            }
            assert(forall|i: int| 0 <= i < self.states@.len() ==> (#[trigger] self.states@[i]).wf());
        }
        start_worker
    }

    /// Queue `signo` for domain `pd`'s trampoline worker.
    pub fn notify_signal(&mut self, pd_id: u32, signo: u8)
        requires
            old(self).wf(),
        ensures
            final(self).wf(),
            final(self).pending(pd_id) == old(self).pending(pd_id).push(signo),
            forall|s: u8| #[trigger] final(self).action(pd_id, s) == old(self).action(pd_id, s),
            final(self).count(pd_id) == old(self).count(pd_id),
            final(self).started(pd_id) == old(self).started(pd_id),
            final(self).same_elsewhere(&*old(self), pd_id),
    {
        let idx = self.pd_state(pd_id);
        let ghost mid = *self;
        let placeholder = PdState { actions: Vec::new(), delivery_count: 0, worker_started: false, queue: Vec::new() };
        let mut st = self.replace_state(idx, placeholder);
        st.queue.push(signo);
        let ghost st_final = st;
        let _ = self.replace_state(idx, st);
        proof {
            lemma_find_pd_from(self.ids@, pd_id, 0);
            assert(self.states@[idx as int] == st_final);
            assert(self.index_of(pd_id) == Some(idx as int));
            assert forall|s: u8| #[trigger] self.action(pd_id, s) == st_final.actions@[s as int] && mid.action(pd_id, s) == mid.states@[idx as int].actions@[s as int] by {}
            assert(self.count(pd_id) == st_final.delivery_count && mid.count(pd_id) == mid.states@[idx as int].delivery_count);
            assert(self.pending(pd_id) == st_final.queue@ && mid.pending(pd_id) == mid.states@[idx as int].queue@);
            assert(self.started(pd_id) == st_final.worker_started && mid.started(pd_id) == mid.states@[idx as int].worker_started);
            assert(forall|s: u8| #[trigger] mid.action(pd_id, s) == old(self).action(pd_id, s));
            assert(mid.count(pd_id) == old(self).count(pd_id));
            assert(mid.pending(pd_id) == old(self).pending(pd_id));
            assert(mid.started(pd_id) == old(self).started(pd_id));
            assert forall|q: u32, s: u8| q != pd_id implies #[trigger] self.action(q, s) == mid.action(q, s)
                && self.count(q) == mid.count(q) && self.pending(q) == mid.pending(q)
                && self.started(q) == mid.started(q) by {
                lemma_find_pd_from(self.ids@, q, 0);
            }
            assert(forall|i: int| 0 <= i < self.states@.len() ==> (#[trigger] self.states@[i]).wf());
        }
    }

    /// Take the oldest queued signal of domain `pd`, if any.
    pub fn take_pending(&mut self, pd_id: u32) -> (r: Option<u8>)
        requires
            old(self).wf(),
        ensures
            final(self).wf(),
            old(self).pending(pd_id).len() == 0 ==> r is None && final(self).pending(pd_id).len() == 0,
            old(self).pending(pd_id).len() > 0 ==> r == Some(old(self).pending(pd_id)[0])
                && final(self).pending(pd_id) == old(self).pending(pd_id).drop_first(),
            forall|s: u8| #[trigger] final(self).action(pd_id, s) == old(self).action(pd_id, s),
            final(self).count(pd_id) == old(self).count(pd_id),
            final(self).started(pd_id) == old(self).started(pd_id),
            final(self).same_elsewhere(&*old(self), pd_id),
    {
        let idx = self.pd_state(pd_id);
        let ghost mid = *self;
        let placeholder = PdState { actions: Vec::new(), delivery_count: 0, worker_started: false, queue: Vec::new() };
        let mut st = self.replace_state(idx, placeholder);
        let r = if st.queue.len() > 0 {
            Some(st.queue.remove(0))
        } else {
            None
        };
        let ghost st_final = st;
        let _ = self.replace_state(idx, st);
        proof {
            lemma_find_pd_from(self.ids@, pd_id, 0);
            assert(self.states@[idx as int] == st_final);
            assert(self.index_of(pd_id) == Some(idx as int));
            assert forall|s: u8| #[trigger] self.action(pd_id, s) == st_final.actions@[s as int] && mid.action(pd_id, s) == mid.states@[idx as int].actions@[s as int] by {}
            assert(self.count(pd_id) == st_final.delivery_count && mid.count(pd_id) == mid.states@[idx as int].delivery_count);
            assert(self.pending(pd_id) == st_final.queue@ && mid.pending(pd_id) == mid.states@[idx as int].queue@);
            assert(self.started(pd_id) == st_final.worker_started && mid.started(pd_id) == mid.states@[idx as int].worker_started);
            assert(forall|s: u8| #[trigger] mid.action(pd_id, s) == old(self).action(pd_id, s));
            assert(mid.count(pd_id) == old(self).count(pd_id));
            assert(mid.pending(pd_id) == old(self).pending(pd_id));
            assert(mid.started(pd_id) == old(self).started(pd_id));
            assert forall|q: u32, s: u8| q != pd_id implies #[trigger] self.action(q, s) == mid.action(q, s)
                && self.count(q) == mid.count(q) && self.pending(q) == mid.pending(q)
                && self.started(q) == mid.started(q) by {
                lemma_find_pd_from(self.ids@, q, 0);
            }
            assert(forall|i: int| 0 <= i < self.states@.len() ==> (#[trigger] self.states@[i]).wf());
        }
        r
    }

    /// Begin delivering `signo` to domain `pd`: when an action is registered, count the
    /// delivery and describe the handler call; otherwise nothing changes but the domain
    /// gets its (empty) state.
    pub fn prepare_dispatch(&mut self, pd_id: u32, signo: u8) -> (r: Option<SignalDelivery>)
        requires
            old(self).wf(),
            old(self).action(pd_id, signo) is Some ==> old(self).count(pd_id) < u64::MAX,
        ensures
            final(self).wf(),
            forall|s: u8| #[trigger] final(self).action(pd_id, s) == old(self).action(pd_id, s),
            final(self).pending(pd_id) == old(self).pending(pd_id),
            final(self).started(pd_id) == old(self).started(pd_id),
            final(self).same_elsewhere(&*old(self), pd_id),
            match old(self).action(pd_id, signo) {
                None => r is None && final(self).count(pd_id) == old(self).count(pd_id),
                Some(a) => r == Some(delivery_for(pd_id, signo, a, (old(self).count(pd_id) + 1) as u64))
                    && final(self).count(pd_id) == old(self).count(pd_id) + 1,
            },
    {
        let idx = self.pd_state(pd_id);
        let ghost mid = *self;
        let placeholder = PdState { actions: Vec::new(), delivery_count: 0, worker_started: false, queue: Vec::new() };
        let mut st = self.replace_state(idx, placeholder);
        proof {
            lemma_find_pd_from(mid.ids@, pd_id, 0);
            assert(mid.count(pd_id) == st.delivery_count);
            assert(mid.count(pd_id) == old(self).count(pd_id));
            assert(mid.action(pd_id, signo) == st.actions@[signo as int]);
            assert(mid.action(pd_id, signo) == old(self).action(pd_id, signo));
        }
        let r = match st.actions[signo as usize] {
            None => None,
            Some(action) => {
                st.delivery_count = st.delivery_count + 1;
                let delivery_count = st.delivery_count;
                Some(SignalDelivery {
                    handler: action.handler,
                    signo,
                    with_info: action.flags & SA_SIGINFO != 0,
                    siginfo: SigInfo { signo: signo as i32, sender_pid: pd_id, code: 0 },
                    ucontext: UContext { pd_id, delivery_count, flags: action.flags },
                    reset_after: action.flags & SA_RESETHAND != 0,
                })
            },
        };
        let ghost st_final = st;
        let _ = self.replace_state(idx, st);
        proof {
            lemma_find_pd_from(self.ids@, pd_id, 0);
            assert(self.states@[idx as int] == st_final);
            assert(self.index_of(pd_id) == Some(idx as int));
            assert forall|s: u8| #[trigger] self.action(pd_id, s) == st_final.actions@[s as int] && mid.action(pd_id, s) == mid.states@[idx as int].actions@[s as int] by {}
            assert(self.count(pd_id) == st_final.delivery_count && mid.count(pd_id) == mid.states@[idx as int].delivery_count);
            assert(self.pending(pd_id) == st_final.queue@ && mid.pending(pd_id) == mid.states@[idx as int].queue@);
            assert(self.started(pd_id) == st_final.worker_started && mid.started(pd_id) == mid.states@[idx as int].worker_started);
            assert(forall|s: u8| #[trigger] mid.action(pd_id, s) == old(self).action(pd_id, s));
            assert(mid.count(pd_id) == old(self).count(pd_id));
            assert(mid.pending(pd_id) == old(self).pending(pd_id));
            assert(mid.started(pd_id) == old(self).started(pd_id));
            assert forall|q: u32, s: u8| q != pd_id implies #[trigger] self.action(q, s) == mid.action(q, s)
                && self.count(q) == mid.count(q) && self.pending(q) == mid.pending(q)
                && self.started(q) == mid.started(q) by {
                lemma_find_pd_from(self.ids@, q, 0);
            }
            assert(forall|i: int| 0 <= i < self.states@.len() ==> (#[trigger] self.states@[i]).wf());
        }
        r
    }

    /// Finish a delivery: a SA_RESETHAND action is removed after its handler ran.
    pub fn finish_dispatch(&mut self, delivery: &SignalDelivery)
        requires
            old(self).wf(),
        ensures
            final(self).wf(),
            delivery.reset_after ==> final(self).action(delivery.ucontext.pd_id, delivery.signo) is None,
            !delivery.reset_after ==> final(self).action(delivery.ucontext.pd_id, delivery.signo) == old(self).action(delivery.ucontext.pd_id, delivery.signo),
            forall|s: u8| s != delivery.signo ==> #[trigger] final(self).action(delivery.ucontext.pd_id, s) == old(self).action(delivery.ucontext.pd_id, s),
            final(self).count(delivery.ucontext.pd_id) == old(self).count(delivery.ucontext.pd_id),
            final(self).pending(delivery.ucontext.pd_id) == old(self).pending(delivery.ucontext.pd_id),
            final(self).same_elsewhere(&*old(self), delivery.ucontext.pd_id),
    {
        if delivery.reset_after {
            self.clear_sigaction(delivery.ucontext.pd_id, delivery.signo);
        } else {
            proof {
                assert(self.same_elsewhere(&*old(self), delivery.ucontext.pd_id));
            }
        }
    }

    /// Route `signo` from a sender capability to the target domain's queue. Returns 0 on
    /// success and -1 when the target is not a valid domain id.
    pub fn route_signal(&mut self, target_pd: u64, signo: u8, sender_cap: u64) -> (r: i64)
        requires
            old(self).wf(),
        ensures
            final(self).wf(),
            target_pd > u32::MAX ==> r == -1 && *final(self) == *old(self),
            target_pd <= u32::MAX ==> r == 0 && final(self).pending(target_pd as u32)
                == old(self).pending(target_pd as u32).push(signo) && final(self).same_elsewhere(
                &*old(self),
                target_pd as u32,
            ),
    {
        if target_pd > 0xFFFF_FFFF {
            return -1;
        }
        self.notify_signal(target_pd as u32, signo);
        0
    }
}

/// The handler call a registered action produces.
pub open spec fn delivery_for(pd_id: u32, signo: u8, a: SigAction, count: u64) -> SignalDelivery {
    SignalDelivery {
        handler: a.handler,
        signo,
        with_info: a.flags & 4 != 0,
        siginfo: SigInfo { signo: signo as i32, sender_pid: pd_id, code: 0 },
        ucontext: UContext { pd_id, delivery_count: count, flags: a.flags },
        reset_after: a.flags & 0x8000_0000 != 0,
    }
}

/// The action of every signal of a domain.
pub open spec fn action_map(r: &SignalRegistry, pd: u32) -> Map<u8, Option<SigAction>> {
    Map::new(|s: u8| true, |s: u8| r.action(pd, s))
}

/// The actions and the number of handler calls after delivering the signals of `ring`
/// in order: a signal with an action is delivered, and a reset-on-delivery action is
/// removed afterwards; a signal without one is dropped.
pub open spec fn pump_fold(t: Map<u8, Option<SigAction>>, ring: Seq<u8>) -> (Map<u8, Option<SigAction>>, nat)
    decreases ring.len(),
{
    if ring.len() == 0 {
        (t, 0)
    } else {
        let (t1, c1) = pump_fold(t, ring.drop_last());
        let s = ring.last();
        match t1[s] {
            None => (t1, c1),
            Some(a) => (if a.flags & SA_RESETHAND != 0 {
                t1.insert(s, None)
            } else {
                t1
            }, c1 + 1),
        }
    }
}

impl SignalRegistry {
    /// Delivers `signo` to domain `pd`: with an action registered, counts the delivery,
    /// calls `invoke` with the handler call and removes a reset-on-delivery action
    /// afterwards (true); without one nothing is called (false).
    pub fn dispatch_signal<F: Fn(SignalDelivery)>(&mut self, pd_id: u32, signo: u8, invoke: F) -> (delivered: bool)
        requires
            old(self).wf(),
            old(self).action(pd_id, signo) is Some ==> old(self).count(pd_id) < u64::MAX,
            forall|d: SignalDelivery| call_requires(invoke, (d,)),
        ensures
            final(self).wf(),
            delivered == old(self).action(pd_id, signo) is Some,
            match old(self).action(pd_id, signo) {
                Some(a) => call_ensures(
                    invoke,
                    (delivery_for(pd_id, signo, a, (old(self).count(pd_id) + 1) as u64),),
                    (),
                ),
                None => true,
            },
            action_map(&*final(self), pd_id) == pump_fold(action_map(&*old(self), pd_id), seq![signo]).0,
            final(self).count(pd_id) == old(self).count(pd_id) + if delivered { 1int } else { 0int },
            final(self).pending(pd_id) == old(self).pending(pd_id),
            final(self).same_elsewhere(&*old(self), pd_id),
    {
        let ghost t0 = action_map(&*self, pd_id);
        proof {
            assert(seq![signo].drop_last() =~= Seq::<u8>::empty());
            assert(pump_fold(t0, seq![signo].drop_last()) == (t0, 0nat));
            assert(seq![signo].last() == signo);
            assert(t0[signo] == old(self).action(pd_id, signo));
        }
        match self.prepare_dispatch(pd_id, signo) {
            Some(d) => {
                invoke(d);
                let ghost mid = *self;
                self.finish_dispatch(&d);
                proof {
                    assert(action_map(&*self, pd_id) =~= if d.reset_after {
                        t0.insert(signo, None)
                    } else {
                        t0
                    });
                }
                true
            },
            None => {
                proof {
                    assert(action_map(&*self, pd_id) =~= t0);
                }
                false
            },
        }
    }
}

/// The handler calls a pump makes for domain `pd`, in order, when it delivers the
/// signals of `ring` starting from the actions `t` and the delivery count `c0`: each
/// signal with an action gives one call, numbered after the deliveries before it.
pub open spec fn pump_deliveries(pd: u32, t: Map<u8, Option<SigAction>>, c0: nat, ring: Seq<u8>) -> Seq<SignalDelivery>
    decreases ring.len(),
{
    if ring.len() == 0 {
        Seq::empty()
    } else {
        let prev = pump_deliveries(pd, t, c0, ring.drop_last());
        let (t1, c1) = pump_fold(t, ring.drop_last());
        match t1[ring.last()] {
            None => prev,
            Some(a) => prev.push(delivery_for(pd, ring.last(), a, (c0 + c1 + 1) as u64)),
        }
    }
}

/// A pump over a prefix of the ring delivers no more than over the whole ring.
pub proof fn lemma_pump_fold_prefix(t: Map<u8, Option<SigAction>>, ring: Seq<u8>, k: int, j: int)
    requires
        0 <= k <= j <= ring.len(),
    ensures
        pump_fold(t, ring.take(k)).1 <= pump_fold(t, ring.take(j)).1,
    decreases j - k,
{
    if k < j {
        lemma_pump_fold_prefix(t, ring, k, j - 1);
        assert(ring.take(j).drop_last() == ring.take(j - 1));
    }
}

impl SignalRegistry {
    /// Delivers the signals of `ring` to domain `pd`, oldest first, calling `invoke`
    /// with each handler call; returns how many were delivered.
    pub fn pump_pending<F: Fn(SignalDelivery)>(&mut self, pd_id: u32, ring: &mut std::collections::VecDeque<u8>, invoke: F) -> (dispatched: usize)
        requires
            old(self).wf(),
            old(self).count(pd_id) + pump_fold(action_map(&*old(self), pd_id), old(ring)@).1 < u64::MAX,
            forall|d: SignalDelivery| call_requires(invoke, (d,)),
        ensures
            final(self).wf(),
            final(ring)@.len() == 0,
            dispatched == pump_fold(action_map(&*old(self), pd_id), old(ring)@).1,
            action_map(&*final(self), pd_id) == pump_fold(action_map(&*old(self), pd_id), old(ring)@).0,
            final(self).count(pd_id) == old(self).count(pd_id) + dispatched,
            final(self).pending(pd_id) == old(self).pending(pd_id),
            final(self).same_elsewhere(&*old(self), pd_id),
            pump_deliveries(pd_id, action_map(&*old(self), pd_id), old(self).count(pd_id) as nat, old(ring)@).len()
                == dispatched,
            forall|k: int|
                0 <= k < dispatched ==> call_ensures(
                    invoke,
                    (#[trigger] pump_deliveries(
                        pd_id,
                        action_map(&*old(self), pd_id),
                        old(self).count(pd_id) as nat,
                        old(ring)@,
                    )[k],),
                    (),
                ),
    {
        let ghost r0 = old(ring)@;
        let ghost t0 = action_map(&*self, pd_id);
        let ghost c0 = self.count(pd_id);
        let ghost p0 = self.pending(pd_id);
        let ghost base = *self;
        let n0: usize = ring.len();
        let mut dispatched: usize = 0;
        let mut k: usize = 0;
        proof {
            assert(r0.take(0) =~= Seq::<u8>::empty());
        }
        while ring.len() > 0
            invariant
                self.wf(),
                k <= r0.len(),
                r0.len() == n0,
                ring@ == r0.skip(k as int),
                forall|d: SignalDelivery| call_requires(invoke, (d,)),
                action_map(&*self, pd_id) == pump_fold(t0, r0.take(k as int)).0,
                dispatched == pump_fold(t0, r0.take(k as int)).1,
                dispatched <= k,
                self.count(pd_id) == c0 + dispatched,
                c0 + pump_fold(t0, r0).1 < u64::MAX,
                self.pending(pd_id) == p0,
                self.same_elsewhere(&base, pd_id),
                pump_deliveries(pd_id, t0, c0 as nat, r0.take(k as int)).len() == dispatched,
                forall|i: int|
                    0 <= i < dispatched ==> call_ensures(
                        invoke,
                        (#[trigger] pump_deliveries(pd_id, t0, c0 as nat, r0.take(k as int))[i],),
                        (),
                    ),
            decreases ring@.len(),
        {
            let ghost before = *self;
            let ghost dels = pump_deliveries(pd_id, t0, c0 as nat, r0.take(k as int));
            let signo = match ring.pop_front() {
                Some(s) => s,
                None => 0,
            };
            proof {
                assert(signo == r0[k as int]);
                assert(r0.take(k + 1).drop_last() == r0.take(k as int));
                assert(r0.take(k + 1).last() == signo);
                assert(r0.skip(k + 1) == r0.skip(k as int).drop_first());
                assert(action_map(&before, pd_id)[signo] == before.action(pd_id, signo));
                lemma_pump_fold_prefix(t0, r0, k + 1, r0.len() as int);
                assert(r0.take(r0.len() as int) == r0);
            }
            let prepared = self.prepare_dispatch(pd_id, signo);
            match prepared {
                Some(d) => {
                    invoke(d);
                    let ghost mid = *self;
                    self.finish_dispatch(&d);
                    proof {
                        assert(pump_deliveries(pd_id, t0, c0 as nat, r0.take(k + 1)) == dels.push(d));
                        assert forall|i: int| 0 <= i < dispatched + 1 implies call_ensures(
                            invoke,
                            (#[trigger] pump_deliveries(pd_id, t0, c0 as nat, r0.take(k + 1))[i],),
                            (),
                        ) by {
                            if i < dispatched {
                                assert(pump_deliveries(pd_id, t0, c0 as nat, r0.take(k + 1))[i] == dels[i]);
                            }
                        }
                    }
                    dispatched = dispatched + 1;
                    proof {
                        assert(action_map(&*self, pd_id) =~= if d.reset_after {
                            action_map(&before, pd_id).insert(signo, None)
                        } else {
                            action_map(&before, pd_id)
                        });
                    }
                },
                None => {
                    proof {
                        assert(action_map(&*self, pd_id) =~= action_map(&before, pd_id));
                        assert(pump_deliveries(pd_id, t0, c0 as nat, r0.take(k + 1)) == dels);
                    }
                },
            }
            k = k + 1;
        }
        proof {
            assert(r0.take(k as int) == r0);
        }
        dispatched
    }
}

/// A reset-on-delivery action runs once however often its signal is queued: the
/// first delivery removes it and the later copies find no action.
pub proof fn law_reset_action_runs_once(t: Map<u8, Option<SigAction>>, signo: u8, a: SigAction, n: nat)
    requires
        t[signo] == Some(a),
        a.flags & SA_RESETHAND != 0,
        n >= 1,
    ensures
        pump_fold(t, Seq::new(n, |i: int| signo)).1 == 1,
        pump_fold(t, Seq::new(n, |i: int| signo)).0[signo] is None,
    decreases n,
{
    let ring = Seq::new(n, |i: int| signo);
    if n == 1 {
        assert(ring.drop_last() =~= Seq::<u8>::empty());
        assert(pump_fold(t, ring.drop_last()) == (t, 0nat));
    } else {
        law_reset_action_runs_once(t, signo, a, (n - 1) as nat);
        assert(ring.drop_last() =~= Seq::new((n - 1) as nat, |i: int| signo));
    }
}

/// Every delivery of a pump is one handler call: no more calls than signals.
pub proof fn law_pump_calls_bounded(t: Map<u8, Option<SigAction>>, ring: Seq<u8>)
    ensures
        pump_fold(t, ring).1 <= ring.len(),
    decreases ring.len(),
{
    if ring.len() > 0 {
        law_pump_calls_bounded(t, ring.drop_last());
    }
}

} // verus!
