//! The UCGM view pipeline: the projected graph model kept sorted by node id, the
//! frame diffs an update produces, the bounded diff queue, the frame barrier and
//! pump, and the per-frame visualizer with its latest-wins coalescing.
use vstd::prelude::*;

verus! {

/// Execution state of a UCGM node.
#[derive(Clone, Copy, Debug, PartialEq, Eq, Structural)]
pub enum NodeState {
    Idle,
    Pending,
    Ready,
    Consumed,
}

/// A UCGM node (a protection domain or slot).
#[derive(Clone, Copy, Debug, PartialEq, Eq, Structural)]
pub struct NodeView {
    pub id: u32,
    pub slot: u32,
    pub state: NodeState,
    pub is_sync: bool,
}

/// A capability edge between two domains.
#[derive(Clone, Copy, Debug, PartialEq, Eq, Structural)]
pub struct EdgeView {
    pub from_pd: u32,
    pub to_pd: u32,
    pub slot: u32,
    pub is_async: bool,
}

/// A change to the visible graph.
#[derive(Clone, Copy, Debug, PartialEq, Eq, Structural)]
pub enum FrameDiff {
    NodeAdded(NodeView),
    NodeRemoved(u32),
    NodeUpdated(NodeView),
    EdgeAdded(EdgeView),
    EdgeRemoved(EdgeView),
    SnapshotUpdated(u64),
}

// ---------------------------------------------------------------------------
// Node tables: vectors of nodes kept in strictly increasing id order
// ---------------------------------------------------------------------------

/// Ids strictly increase along `s`, so no id occurs twice.
pub open spec fn ids_sorted(s: Seq<NodeView>) -> bool {
    forall|i: int, j: int| 0 <= i < j < s.len() ==> s[i].id < s[j].id
}

/// Some node of `s` has id `k`.
pub open spec fn has_id(s: Seq<NodeView>, k: u32) -> bool {
    exists|i: int| 0 <= i < s.len() && s[i].id == k
}

/// The nodes of `s` as a map from id to node.
pub open spec fn table(s: Seq<NodeView>) -> Map<u32, NodeView> {
    Map::new(
        |k: u32| has_id(s, k),
        |k: u32| s[choose|i: int| 0 <= i < s.len() && s[i].id == k],
    )
}

/// In a sorted table the node at index `i` is what the map holds for its id.
pub proof fn lemma_table_at(s: Seq<NodeView>, i: int)
    requires
        ids_sorted(s),
        0 <= i < s.len(),
    ensures
        table(s).contains_key(s[i].id),
        table(s)[s[i].id] == s[i],
{
    let k = s[i].id;
    assert(has_id(s, k));
    let j = choose|j: int| 0 <= j < s.len() && s[j].id == k;
    if j < i {
        assert(s[j].id < s[i].id);
    }
    if j > i {
        assert(s[i].id < s[j].id);
    }
}

/// Two sorted tables with the same map are the same sequence.
pub proof fn lemma_table_unique(a: Seq<NodeView>, b: Seq<NodeView>)
    requires
        ids_sorted(a),
        ids_sorted(b),
        table(a) == table(b),
    ensures
        a == b,
    decreases a.len() + b.len(),
{
    if a.len() == 0 || b.len() == 0 {
        if a.len() > 0 {
            lemma_table_at(a, 0);
            assert(table(b).contains_key(a[0].id));
        }
        if b.len() > 0 {
            lemma_table_at(b, 0);
            assert(table(a).contains_key(b[0].id));
        }
        assert(a =~= b);
    } else {
        let la = a.last();
        let lb = b.last();
        lemma_table_at(a, a.len() - 1);
        lemma_table_at(b, b.len() - 1);
        assert(table(b).contains_key(la.id));
        assert(table(a).contains_key(lb.id));
        let ja = choose|j: int| 0 <= j < b.len() && b[j].id == la.id;
        let jb = choose|j: int| 0 <= j < a.len() && a[j].id == lb.id;
        assert(la.id <= lb.id) by {
            if ja < b.len() - 1 {
                assert(b[ja].id < b[b.len() - 1].id);
            }
        }
        assert(lb.id <= la.id) by {
            if jb < a.len() - 1 {
                assert(a[jb].id < a[a.len() - 1].id);
            }
        }
        assert(la == lb);
        let a2 = a.drop_last();
        let b2 = b.drop_last();
        assert(table(a2) =~= table(a).remove(la.id)) by {
            assert forall|k: u32| has_id(a2, k) <==> (has_id(a, k) && k != la.id) by {
                if has_id(a, k) && k != la.id {
                    let j = choose|j: int| 0 <= j < a.len() && a[j].id == k;
                    assert(a2[j].id == k);
                }
                if has_id(a2, k) {
                    let j = choose|j: int| 0 <= j < a2.len() && a2[j].id == k;
                    assert(a[j].id < la.id);
                }
            }
            assert forall|k: u32| #[trigger] has_id(a2, k) implies table(a2)[k] == table(a)[k] by {
                let j = choose|j: int| 0 <= j < a2.len() && a2[j].id == k;
                lemma_table_at(a2, j);
                lemma_table_at(a, j);
            }
        }
        assert(table(b2) =~= table(b).remove(lb.id)) by {
            assert forall|k: u32| has_id(b2, k) <==> (has_id(b, k) && k != lb.id) by {
                if has_id(b, k) && k != lb.id {
                    let j = choose|j: int| 0 <= j < b.len() && b[j].id == k;
                    assert(b2[j].id == k);
                }
                if has_id(b2, k) {
                    let j = choose|j: int| 0 <= j < b2.len() && b2[j].id == k;
                    assert(b[j].id < lb.id);
                }
            }
            assert forall|k: u32| #[trigger] has_id(b2, k) implies table(b2)[k] == table(b)[k] by {
                let j = choose|j: int| 0 <= j < b2.len() && b2[j].id == k;
                lemma_table_at(b2, j);
                lemma_table_at(b, j);
            }
        }
        lemma_table_unique(a2, b2);
        assert(a =~= a2.push(la));
        assert(b =~= b2.push(lb));
    }
}

/// The node of id `id` in a sorted table, if any.
pub fn table_get(nodes: &Vec<NodeView>, id: u32) -> (r: Option<NodeView>)
    requires
        ids_sorted(nodes@),
    ensures
        r == (if table(nodes@).contains_key(id) {
            Some(table(nodes@)[id])
        } else {
            None::<NodeView>
        }),
{
    let mut i: usize = 0;
    while i < nodes.len()
        invariant
            i <= nodes@.len(),
            ids_sorted(nodes@),
            forall|j: int| 0 <= j < i ==> nodes@[j].id != id,
        decreases nodes@.len() - i,
    {
        if nodes[i].id == id {
            proof {
                lemma_table_at(nodes@, i as int);
            }
            return Some(nodes[i]);
        }
        i += 1;
    }
    None
}

/// Stores `node` under its id in a sorted table, keeping it sorted.
pub fn table_insert(nodes: &mut Vec<NodeView>, node: NodeView)
    requires
        ids_sorted(old(nodes)@),
    ensures
        ids_sorted(final(nodes)@),
        table(final(nodes)@) == table(old(nodes)@).insert(node.id, node),
{
    let ghost s = nodes@;
    let mut i: usize = 0;
    while i < nodes.len() && nodes[i].id < node.id
        invariant
            i <= nodes@.len(),
            nodes@ == s,
            ids_sorted(s),
            forall|j: int| 0 <= j < i ==> s[j].id < node.id,
        decreases nodes@.len() - i,
    {
        i += 1;
    }
    if i < nodes.len() && nodes[i].id == node.id {
        nodes.set(i, node);
        proof {
            let t = nodes@;
            assert(t == s.update(i as int, node));
            assert(ids_sorted(t));
            assert forall|k: u32| has_id(t, k) <==> has_id(s, k) || k == node.id by {
                if has_id(s, k) {
                    let j = choose|j: int| 0 <= j < s.len() && s[j].id == k;
                    assert(t[j].id == k);
                }
                if has_id(t, k) {
                    let j = choose|j: int| 0 <= j < t.len() && t[j].id == k;
                    assert(s[j].id == k);
                }
                if k == node.id {
                    assert(t[i as int].id == k);
                }
            }
            assert forall|k: u32| #[trigger] has_id(t, k) implies table(t)[k] == table(s).insert(
                node.id,
                node,
            )[k] by {
                let j = choose|j: int| 0 <= j < t.len() && t[j].id == k;
                lemma_table_at(t, j);
                if j != i {
                    lemma_table_at(s, j);
                }
            }
            assert(table(t) =~= table(s).insert(node.id, node));
        }
    } else {
        nodes.insert(i, node);
        proof {
            let t = nodes@;
            assert(t == s.insert(i as int, node));
            assert forall|a: int, b: int| 0 <= a < b < t.len() implies t[a].id < t[b].id by {
                if b < i {
                } else if a < i && b == i {
                } else if a < i && b > i {
                    assert(t[b] == s[b - 1]);
                    if i < s.len() {
                        assert(s[i as int].id <= s[b - 1].id);
                    }
                } else if a == i {
                    assert(t[b] == s[b - 1]);
                    assert(s[i as int].id > node.id);
                    assert(s[i as int].id <= s[b - 1].id);
                } else {
                    assert(t[a] == s[a - 1]);
                    assert(t[b] == s[b - 1]);
                }
            }
            assert forall|k: u32| has_id(t, k) <==> has_id(s, k) || k == node.id by {
                if has_id(s, k) {
                    let j = choose|j: int| 0 <= j < s.len() && s[j].id == k;
                    if j < i {
                        assert(t[j].id == k);
                    } else {
                        assert(t[j + 1].id == k);
                    }
                }
                if has_id(t, k) {
                    let j = choose|j: int| 0 <= j < t.len() && t[j].id == k;
                    if j < i {
                        assert(s[j].id == k);
                    } else if j > i {
                        assert(s[j - 1].id == k);
                    }
                }
                if k == node.id {
                    assert(t[i as int].id == k);
                }
            }
            assert forall|k: u32| #[trigger] has_id(t, k) implies table(t)[k] == table(s).insert(
                node.id,
                node,
            )[k] by {
                let j = choose|j: int| 0 <= j < t.len() && t[j].id == k;
                lemma_table_at(t, j);
                if j < i {
                    lemma_table_at(s, j);
                } else if j > i {
                    lemma_table_at(s, j - 1);
                }
            }
            assert(table(t) =~= table(s).insert(node.id, node));
        }
    }
}

/// Removes the node of id `id` from a sorted table, if there is one.
pub fn table_remove(nodes: &mut Vec<NodeView>, id: u32)
    requires
        ids_sorted(old(nodes)@),
    ensures
        ids_sorted(final(nodes)@),
        table(final(nodes)@) == table(old(nodes)@).remove(id),
{
    let ghost s = nodes@;
    let mut i: usize = 0;
    while i < nodes.len()
        invariant
            i <= nodes@.len(),
            nodes@ == s,
            s == old(nodes)@,
            ids_sorted(s),
            forall|j: int| 0 <= j < i ==> s[j].id != id,
        decreases nodes@.len() - i,
    {
        if nodes[i].id == id {
            nodes.remove(i);
            proof {
                let t = nodes@;
                assert(t == s.remove(i as int));
                assert forall|a: int, b: int| 0 <= a < b < t.len() implies t[a].id < t[b].id by {
                    if a >= i {
                        assert(t[a] == s[a + 1]);
                    }
                    if b >= i {
                        assert(t[b] == s[b + 1]);
                    }
                }
                assert forall|k: u32| has_id(t, k) <==> has_id(s, k) && k != id by {
                    if has_id(s, k) && k != id {
                        let j = choose|j: int| 0 <= j < s.len() && s[j].id == k;
                        if j < i {
                            assert(t[j].id == k);
                        } else {
                            assert(j != i);
                            assert(t[j - 1].id == k);
                        }
                    }
                    if has_id(t, k) {
                        let j = choose|j: int| 0 <= j < t.len() && t[j].id == k;
                        if j < i {
                            assert(s[j].id == k);
                        } else {
                            assert(s[j + 1].id == k);
                            assert(s[i as int].id < s[j + 1].id);
                        }
                    }
                }
                assert forall|k: u32| #[trigger] has_id(t, k) implies table(t)[k] == table(s)[k] by {
                    let j = choose|j: int| 0 <= j < t.len() && t[j].id == k;
                    lemma_table_at(t, j);
                    if j < i {
                        lemma_table_at(s, j);
                    } else {
                        lemma_table_at(s, j + 1);
                    }
                }
                assert(table(t) =~= table(s).remove(id));
            }
            return;
        }
        i += 1;
    }
    proof {
        assert(!has_id(s, id));
        assert(table(s) =~= table(s).remove(id));
    }
}

// ---------------------------------------------------------------------------
// The view model and its update
// ---------------------------------------------------------------------------

/// The visible graph projection: nodes sorted by id, and edges.
pub struct ViewModel {
    pub nodes: Vec<NodeView>,
    pub edges: Vec<EdgeView>,
}

impl ViewModel {
    /// The nodes are kept sorted by id, each id once.
    pub open spec fn wf(&self) -> bool {
        ids_sorted(self.nodes@)
    }
}

impl Default for ViewModel {
    fn default() -> (m: Self)
        ensures
            m.nodes@.len() == 0,
            m.edges@.len() == 0,
    {
        ViewModel { nodes: Vec::new(), edges: Vec::new() }
    }
}

/// The node a snapshot layer of window `id` projects to.
pub open spec fn layer_node(id: u32) -> NodeView {
    NodeView { id, slot: 0, state: NodeState::Ready, is_sync: false }
}

/// The nodes a snapshot with layers `layers` projects to, by id.
pub open spec fn layers_table(layers: Seq<u32>) -> Map<u32, NodeView> {
    Map::new(|k: u32| layers.contains(k), |k: u32| layer_node(k))
}

/// The diff one layer contributes against the current nodes `cur`.
pub open spec fn layer_diff(cur: Map<u32, NodeView>, id: u32) -> Seq<FrameDiff> {
    if cur.contains_key(id) {
        if cur[id] != layer_node(id) {
            seq![FrameDiff::NodeUpdated(layer_node(id))]
        } else {
            Seq::empty()
        }
    } else {
        seq![FrameDiff::NodeAdded(layer_node(id))]
    }
}

/// The added and updated diffs of `layers`, in layer order.
pub open spec fn layer_diffs(cur: Map<u32, NodeView>, layers: Seq<u32>) -> Seq<FrameDiff>
    decreases layers.len(),
{
    if layers.len() == 0 {
        Seq::empty()
    } else {
        layer_diffs(cur, layers.drop_last()) + layer_diff(cur, layers.last())
    }
}

/// The removal diffs of the nodes of `cur` (in their order) whose id no layer has.
pub open spec fn removed_diffs(cur: Seq<NodeView>, layers: Seq<u32>) -> Seq<FrameDiff>
    decreases cur.len(),
{
    if cur.len() == 0 {
        Seq::empty()
    } else {
        removed_diffs(cur.drop_last(), layers) + if layers.contains(cur.last().id) {
            Seq::empty()
        } else {
            seq![FrameDiff::NodeRemoved(cur.last().id)]
        }
    }
}

/// The projection layer: the current view model.
pub struct UCGMView {
    pub model: ViewModel,
}

impl UCGMView {
    pub open spec fn wf(&self) -> bool {
        self.model.wf()
    }

    pub fn new() -> (v: Self)
        ensures
            v.wf(),
            v.model.nodes@.len() == 0,
            v.model.edges@.len() == 0,
    {
        UCGMView { model: ViewModel::default() }
    }

    /// Replaces the model by the projection of a snapshot with window layers `layers`
    /// and returns the diffs: an addition or update per layer whose node is new or
    /// changed, in layer order, then a removal per vanished node, by id.
    pub fn update(&mut self, layers: &[u32]) -> (diffs: Vec<FrameDiff>)
        requires
            old(self).wf(),
        ensures
            final(self).wf(),
            table(final(self).model.nodes@) == layers_table(layers@),
            final(self).model.edges@.len() == 0,
            diffs@ == layer_diffs(table(old(self).model.nodes@), layers@) + removed_diffs(
                old(self).model.nodes@,
                layers@,
            ),
    {
        let mut diffs: Vec<FrameDiff> = Vec::new();
        let mut next = ViewModel::default();
        let ghost cur = table(self.model.nodes@);
        let mut i: usize = 0;
        while i < layers.len()
            invariant
                i <= layers@.len(),
                self.wf(),
                cur == table(self.model.nodes@),
                ids_sorted(next.nodes@),
                next.edges@.len() == 0,
                table(next.nodes@) == layers_table(layers@.subrange(0, i as int)),
                diffs@ == layer_diffs(cur, layers@.subrange(0, i as int)),
            decreases layers@.len() - i,
        {
            let id = layers[i];
            let node = NodeView { id, slot: 0, state: NodeState::Ready, is_sync: false };
            match table_get(&self.model.nodes, id) {
                Some(prev) => {
                    if prev != node {
                        diffs.push(FrameDiff::NodeUpdated(node));
                    }
                },
                None => {
                    diffs.push(FrameDiff::NodeAdded(node));
                },
            }
            table_insert(&mut next.nodes, node);
            proof {
                let pre = layers@.subrange(0, i as int);
                let post = layers@.subrange(0, i + 1);
                assert(post.drop_last() == pre);
                assert(post.last() == id);
                assert(layers_table(post) =~= layers_table(pre).insert(id, node)) by {
                    assert forall|k: u32| post.contains(k) <==> pre.contains(k) || k == id by {
                        if post.contains(k) {
                            let j = choose|j: int| 0 <= j < post.len() && post[j] == k;
                            if j < i {
                                assert(pre[j] == k);
                            }
                        }
                        if pre.contains(k) {
                            let j = choose|j: int| 0 <= j < pre.len() && pre[j] == k;
                            assert(post[j] == k);
                        }
                        if k == id {
                            assert(post[i as int] == k);
                        }
                    }
                }
            }
            i += 1;
        }
        proof {
            assert(layers@.subrange(0, layers@.len() as int) == layers@);
        }
        let ghost old_nodes = self.model.nodes@;
        let mut j: usize = 0;
        let ghost added = diffs@;
        while j < self.model.nodes.len()
            invariant
                j <= old_nodes.len(),
                self.model.nodes@ == old_nodes,
                ids_sorted(next.nodes@),
                next.edges@.len() == 0,
                table(next.nodes@) == layers_table(layers@),
                diffs@ == added + removed_diffs(old_nodes.subrange(0, j as int), layers@),
            decreases old_nodes.len() - j,
        {
            let id = self.model.nodes[j].id;
            let present = table_get(&next.nodes, id);
            proof {
                let pre = old_nodes.subrange(0, j as int);
                let post = old_nodes.subrange(0, j + 1);
                assert(post.drop_last() == pre);
                assert(post.last().id == id);
            }
            if present.is_none() {
                diffs.push(FrameDiff::NodeRemoved(id));
            }
            j += 1;
        }
        proof {
            assert(old_nodes.subrange(0, old_nodes.len() as int) == old_nodes);
        }
        self.model = next;
        diffs
    }

    /// The projection step of a render pass; it changes nothing.
    pub fn render(&self, diffs: &[FrameDiff]) {
    }

    /// The current graph state, for reading.
    pub fn get_snapshot(&self) -> (m: &ViewModel)
        ensures
            *m == self.model,
    {
        &self.model
    }
}

// ---------------------------------------------------------------------------
// The bounded diff queue
// ---------------------------------------------------------------------------

/// The queue after pushing `diff`: the oldest diff leaves when the queue is full.
pub open spec fn queue_after_push(q: Seq<FrameDiff>, capacity: nat, diff: FrameDiff) -> Seq<FrameDiff> {
    if q.len() >= capacity && q.len() > 0 {
        q.drop_first().push(diff)
    } else {
        q.push(diff)
    }
}

/// A queue of frame diffs holding at most `capacity` of them (at least one).
pub struct FrameDiffQueue {
    buffer: std::collections::VecDeque<FrameDiff>,
    capacity: usize,
}

impl FrameDiffQueue {
    pub closed spec fn contents(&self) -> Seq<FrameDiff> {
        self.buffer@
    }

    pub closed spec fn spec_capacity(&self) -> nat {
        self.capacity as nat
    }

    /// The queue never holds more diffs than its capacity, or one when that is 0.
    pub open spec fn wf(&self) -> bool {
        self.contents().len() <= if self.spec_capacity() == 0 {
            1
        } else {
            self.spec_capacity()
        }
    }

    pub fn new(capacity: usize) -> (q: Self)
        ensures
            q.wf(),
            q.contents().len() == 0,
            q.spec_capacity() == capacity,
    {
        FrameDiffQueue { buffer: std::collections::VecDeque::with_capacity(capacity), capacity }
    }

    /// Appends `diff`, dropping the oldest diff when the queue is full.
    pub fn push(&mut self, diff: FrameDiff)
        requires
            old(self).wf(),
        ensures
            final(self).wf(),
            final(self).spec_capacity() == old(self).spec_capacity(),
            final(self).contents() == queue_after_push(
                old(self).contents(),
                old(self).spec_capacity(),
                diff,
            ),
    {
        if self.buffer.len() >= self.capacity {
            self.buffer.pop_front();
        }
        self.buffer.push_back(diff);
        proof {
            let q = old(self).contents();
            if q.len() >= self.capacity && q.len() > 0 {
                assert(q.subrange(1, q.len() as int) == q.drop_first());
            }
        }
    }

    /// Number of diffs held.
    pub fn len(&self) -> (n: usize)
        ensures
            n == self.contents().len(),
    {
        self.buffer.len()
    }
}

// ---------------------------------------------------------------------------
// The frame barrier and pump
// ---------------------------------------------------------------------------

/// The frame counter shared by the update and render phases.
pub struct RenderBarrier {
    pub frame_id: u64,
}

impl RenderBarrier {
    pub fn new() -> (b: Self)
        ensures
            b.frame_id == 0,
    {
        RenderBarrier { frame_id: 0 }
    }

    /// Advances to the next frame and returns its number.
    pub fn next_frame(&mut self) -> (n: u64)
        requires
            old(self).frame_id < u64::MAX,
        ensures
            n == old(self).frame_id + 1,
            final(self).frame_id == n,
    {
        self.frame_id = self.frame_id + 1;
        self.frame_id
    }

    /// The number of the current frame.
    pub fn current_frame(&self) -> (n: u64)
        ensures
            n == self.frame_id,
    {
        self.frame_id
    }
}

/// The UI pipeline: view, frame barrier and the diffs waiting for the renderer.
pub struct FramePump {
    pub view: UCGMView,
    pub barrier: RenderBarrier,
    pub pending_diffs: Vec<FrameDiff>,
}

impl FramePump {
    pub open spec fn wf(&self) -> bool {
        self.view.wf()
    }

    pub fn new(view: UCGMView) -> (p: Self)
        requires
            view.wf(),
        ensures
            p.wf(),
            p.view == view,
            p.barrier.frame_id == 0,
            p.pending_diffs@.len() == 0,
    {
        FramePump { view, barrier: RenderBarrier::new(), pending_diffs: Vec::new() }
    }

    /// One update cycle on a resolved snapshot: when resolution succeeded (status 0),
    /// updates the view from the snapshot's window layers, queues the diffs for the
    /// renderer and advances the frame; otherwise changes nothing.
    pub fn tick(&mut self, status: u64, layers: &[u32])
        requires
            old(self).wf(),
            status == 0 ==> old(self).barrier.frame_id < u64::MAX,
        ensures
            final(self).wf(),
            status != 0 ==> final(self).view == old(self).view && final(self).barrier
                == old(self).barrier && final(self).pending_diffs@ == old(self).pending_diffs@,
            status == 0 ==> {
                &&& table(final(self).view.model.nodes@) == layers_table(layers@)
                &&& final(self).pending_diffs@ == old(self).pending_diffs@ + layer_diffs(
                    table(old(self).view.model.nodes@),
                    layers@,
                ) + removed_diffs(old(self).view.model.nodes@, layers@)
                &&& final(self).barrier.frame_id == old(self).barrier.frame_id + 1
            },
    {
        if status == 0 {
            let mut diffs = self.view.update(layers);
            self.pending_diffs.append(&mut diffs);
            self.barrier.next_frame();
        }
    }

    /// Hands the pending diffs to the renderer and empties the list.
    pub fn pump_to_renderer(&mut self) -> (flushed: Vec<FrameDiff>)
        ensures
            flushed@ == old(self).pending_diffs@,
            final(self).pending_diffs@.len() == 0,
            final(self).view == old(self).view,
            final(self).barrier == old(self).barrier,
    {
        if self.pending_diffs.len() == 0 {
            return Vec::new();
        }
        let mut flushed: Vec<FrameDiff> = Vec::new();
        std::mem::swap(&mut flushed, &mut self.pending_diffs);
        self.view.render(flushed.as_slice());
        flushed
    }

    /// The number of the current frame.
    pub fn frame_id(&self) -> (n: u64)
        ensures
            n == self.barrier.frame_id,
    {
        self.barrier.current_frame()
    }
}

// ---------------------------------------------------------------------------
// Surfaces and the compositor
// ---------------------------------------------------------------------------

/// A composited surface and its bounds.
#[derive(Clone, Copy, Debug)]
pub struct Surface {
    pub surface_id: u32,
    pub bounds: [i32; 4],
}

/// The surfaces the compositor presents.
pub struct SurfaceManager {
    pub surfaces: Vec<Surface>,
}

impl SurfaceManager {
    pub fn new() -> (m: Self)
        ensures
            m.surfaces@.len() == 0,
    {
        SurfaceManager { surfaces: Vec::new() }
    }
}

/// The compositor: the frame pump and the surfaces it presents.
pub struct SilkCompositor {
    pub pump: FramePump,
    pub surface_manager: SurfaceManager,
}

impl SilkCompositor {
    pub fn new(pump: FramePump, surface_manager: SurfaceManager) -> (c: Self)
        ensures
            c.pump == pump,
            c.surface_manager == surface_manager,
    {
        SilkCompositor { pump, surface_manager }
    }

    /// One pass of the compositor loop after a vertical blank: drains the pending
    /// diffs through the pump and returns them.
    pub fn compositor_pass(&mut self) -> (flushed: Vec<FrameDiff>)
        ensures
            flushed@ == old(self).pump.pending_diffs@,
            final(self).pump.pending_diffs@.len() == 0,
            final(self).pump.view == old(self).pump.view,
            final(self).pump.barrier == old(self).pump.barrier,
            final(self).surface_manager == old(self).surface_manager,
    {
        self.pump.pump_to_renderer()
    }
}

// ---------------------------------------------------------------------------
// The per-frame visualizer
// ---------------------------------------------------------------------------

/// A frame-local graph: nodes in id order, edges, and the frame's epoch.
pub struct ViewGraph {
    pub nodes: Vec<NodeView>,
    pub edges: Vec<EdgeView>,
    pub epoch: u64,
}

/// The node map after applying `diffs` in order, the latest diff of an id winning.
pub open spec fn coalesce(m: Map<u32, NodeView>, diffs: Seq<FrameDiff>) -> Map<u32, NodeView>
    decreases diffs.len(),
{
    if diffs.len() == 0 {
        m
    } else {
        let m2 = coalesce(m, diffs.drop_last());
        match diffs.last() {
            FrameDiff::NodeAdded(nv) => m2.insert(nv.id, nv),
            FrameDiff::NodeUpdated(nv) => m2.insert(nv.id, nv),
            FrameDiff::NodeRemoved(id) => m2.remove(id),
            _ => m2,
        }
    }
}

/// The node map of a frame: the snapshot's layers when it was resolved (status 0),
/// then the frame's diffs.
pub open spec fn frame_nodes(status: u64, layers: Seq<u32>, diffs: Seq<FrameDiff>) -> Map<u32, NodeView> {
    coalesce(
        if status == 0 {
            layers_table(layers)
        } else {
            Map::empty()
        },
        diffs,
    )
}

/// Rebuilds the graph model for each vertical-blank tick.
pub struct UCGMVisualizer {}

impl UCGMVisualizer {
    pub fn new() -> (v: Self) {
        UCGMVisualizer {  }
    }

    /// The graph of one frame: the layers of the resolved snapshot (when `status` is
    /// 0), then `diffs` applied latest-wins, nodes sorted by id.
    pub fn process_frame(&self, epoch: u64, status: u64, layers: &[u32], diffs: &[FrameDiff]) -> (g:
        ViewGraph)
        ensures
            g.epoch == epoch,
            g.edges@.len() == 0,
            ids_sorted(g.nodes@),
            table(g.nodes@) == frame_nodes(status, layers@, diffs@),
    {
        let mut nodes: Vec<NodeView> = Vec::new();
        if status == 0 {
            let mut i: usize = 0;
            while i < layers.len()
                invariant
                    i <= layers@.len(),
                    ids_sorted(nodes@),
                    table(nodes@) == layers_table(layers@.subrange(0, i as int)),
                decreases layers@.len() - i,
            {
                let id = layers[i];
                let node = NodeView { id, slot: 0, state: NodeState::Ready, is_sync: false };
                table_insert(&mut nodes, node);
                proof {
                    let pre = layers@.subrange(0, i as int);
                    let post = layers@.subrange(0, i + 1);
                    assert(layers_table(post) =~= layers_table(pre).insert(id, node)) by {
                        assert forall|k: u32| post.contains(k) <==> pre.contains(k) || k == id by {
                            if post.contains(k) {
                                let j = choose|j: int| 0 <= j < post.len() && post[j] == k;
                                if j < i {
                                    assert(pre[j] == k);
                                }
                            }
                            if pre.contains(k) {
                                let j = choose|j: int| 0 <= j < pre.len() && pre[j] == k;
                                assert(post[j] == k);
                            }
                            if k == id {
                                assert(post[i as int] == k);
                            }
                        }
                    }
                }
                i += 1;
            }
            proof {
                assert(layers@.subrange(0, layers@.len() as int) == layers@);
            }
        } else {
            proof {
                assert(table(nodes@) =~= Map::<u32, NodeView>::empty());
            }
        }
        let ghost start = table(nodes@);
        let mut d: usize = 0;
        while d < diffs.len()
            invariant
                d <= diffs@.len(),
                ids_sorted(nodes@),
                table(nodes@) == coalesce(start, diffs@.subrange(0, d as int)),
            decreases diffs@.len() - d,
        {
            proof {
                let pre = diffs@.subrange(0, d as int);
                let post = diffs@.subrange(0, d + 1);
                assert(post.drop_last() == pre);
                assert(post.last() == diffs@[d as int]);
            }
            match diffs[d] {
                FrameDiff::NodeAdded(nv) => {
                    table_insert(&mut nodes, nv);
                },
                FrameDiff::NodeUpdated(nv) => {
                    table_insert(&mut nodes, nv);
                },
                FrameDiff::NodeRemoved(id) => {
                    table_remove(&mut nodes, id);
                },
                _ => {},
            }
            d += 1;
        }
        proof {
            assert(diffs@.subrange(0, diffs@.len() as int) == diffs@);
        }
        ViewGraph { nodes, edges: Vec::new(), epoch }
    }

    /// The projection of a graph to the framebuffer; it changes nothing.
    pub fn render(&self, graph: &ViewGraph) {
    }
}

} // verus!
