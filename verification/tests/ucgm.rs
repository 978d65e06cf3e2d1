use sexos::ucgm::{
    FrameDiff, FrameDiffQueue, FramePump, NodeState, NodeView, RenderBarrier, SilkCompositor,
    SurfaceManager, UCGMView, UCGMVisualizer,
};

fn ready(id: u32) -> NodeView {
    NodeView { id, slot: 0, state: NodeState::Ready, is_sync: false }
}

#[test]
fn update_reports_added_and_removed() {
    let mut v = UCGMView::new();
    let d = v.update(&[5, 2]);
    assert_eq!(d, vec![FrameDiff::NodeAdded(ready(5)), FrameDiff::NodeAdded(ready(2))]);
    assert_eq!(v.model.nodes, vec![ready(2), ready(5)]);
    let d = v.update(&[2, 7]);
    assert_eq!(d, vec![FrameDiff::NodeAdded(ready(7)), FrameDiff::NodeRemoved(5)]);
    assert_eq!(v.model.nodes, vec![ready(2), ready(7)]);
    assert_eq!(v.get_snapshot().nodes, vec![ready(2), ready(7)]);
}

#[test]
fn same_snapshot_is_quiet() {
    let mut v = UCGMView::new();
    v.update(&[1, 2, 3]);
    assert!(v.update(&[3, 2, 1]).is_empty());
}

#[test]
fn changed_node_is_updated() {
    let mut v = UCGMView::new();
    v.model.nodes = vec![NodeView { id: 4, slot: 9, state: NodeState::Idle, is_sync: true }];
    assert_eq!(v.update(&[4]), vec![FrameDiff::NodeUpdated(ready(4))]);
}

#[test]
fn replaying_diffs_rebuilds_the_view() {
    let mut v = UCGMView::new();
    v.update(&[1, 2, 3]);
    let before = v.model.nodes.clone();
    let diffs = v.update(&[3, 4]);
    let vis = UCGMVisualizer::new();
    // start from the old view as a snapshot, then apply the diffs latest-wins
    let old_ids: Vec<u32> = before.iter().map(|n| n.id).collect();
    let g = vis.process_frame(9, 0, &old_ids, &diffs);
    assert_eq!(g.nodes, v.model.nodes);
    assert_eq!(g.epoch, 9);
}

#[test]
fn visualizer_coalesces_latest_wins() {
    let vis = UCGMVisualizer::new();
    let n = NodeView { id: 8, slot: 1, state: NodeState::Pending, is_sync: true };
    let diffs = vec![
        FrameDiff::NodeAdded(ready(8)),
        FrameDiff::NodeUpdated(n),
        FrameDiff::NodeRemoved(3),
        FrameDiff::SnapshotUpdated(1),
    ];
    let g = vis.process_frame(1, 0, &[3, 10], &diffs);
    assert_eq!(g.nodes, vec![n, ready(10)]);
    let g = vis.process_frame(2, 1, &[3, 10], &[]);
    assert!(g.nodes.is_empty());
    vis.render(&g);
}

#[test]
fn queue_drops_oldest_when_full() {
    let mut q = FrameDiffQueue::new(2);
    q.push(FrameDiff::NodeRemoved(1));
    q.push(FrameDiff::NodeRemoved(2));
    q.push(FrameDiff::NodeRemoved(3));
    assert_eq!(q.len(), 2);
    let mut z = FrameDiffQueue::new(0);
    z.push(FrameDiff::NodeRemoved(1));
    z.push(FrameDiff::NodeRemoved(2));
    assert_eq!(z.len(), 1);
}

#[test]
fn pump_batches_until_flushed() {
    let mut p = FramePump::new(UCGMView::new());
    p.tick(0, &[1]);
    p.tick(5, &[2]);
    p.tick(0, &[1, 2]);
    assert_eq!(p.frame_id(), 2);
    let flushed = p.pump_to_renderer();
    assert_eq!(flushed, vec![FrameDiff::NodeAdded(ready(1)), FrameDiff::NodeAdded(ready(2))]);
    assert!(p.pump_to_renderer().is_empty());
    let mut b = RenderBarrier::new();
    assert_eq!(b.next_frame(), 1);
    assert_eq!(b.current_frame(), 1);
    let mut c = SilkCompositor::new(p, SurfaceManager::new());
    c.pump.tick(0, &[]);
    assert_eq!(c.compositor_pass().len(), 2);
}
