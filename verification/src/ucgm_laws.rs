//! Laws of the UCGM view pipeline: the diffs of an update carry the old view to the
//! new one, and a repeated update reports nothing.
use vstd::prelude::*;
use crate::ucgm::{
    coalesce, has_id, ids_sorted, layer_diff, layer_diffs, layer_node, layers_table, lemma_table_at,
    removed_diffs, table, FrameDiff, NodeView,
};

verus! {

proof fn lemma_coalesce_append(m: Map<u32, NodeView>, a: Seq<FrameDiff>, b: Seq<FrameDiff>)
    ensures
        coalesce(m, a + b) == coalesce(coalesce(m, a), b),
    decreases b.len(),
{
    if b.len() == 0 {
        assert(a + b == a);
    } else {
        lemma_coalesce_append(m, a, b.drop_last());
        assert((a + b).drop_last() == a + b.drop_last());
        assert((a + b).last() == b.last());
    }
}

/// Applying the additions and updates of `layers` to `cur` gives every layer id its
/// layer node and leaves the other nodes of `cur` as they were.
proof fn lemma_coalesce_layer_diffs(cur: Map<u32, NodeView>, layers: Seq<u32>)
    ensures
        coalesce(cur, layer_diffs(cur, layers)) == Map::new(
            |k: u32| cur.contains_key(k) || layers.contains(k),
            |k: u32|
                if layers.contains(k) {
                    layer_node(k)
                } else {
                    cur[k]
                },
        ),
    decreases layers.len(),
{
    let target = Map::new(
        |k: u32| cur.contains_key(k) || layers.contains(k),
        |k: u32|
            if layers.contains(k) {
                layer_node(k)
            } else {
                cur[k]
            },
    );
    if layers.len() == 0 {
        assert(coalesce(cur, layer_diffs(cur, layers)) =~= target);
    } else {
        let pre = layers.drop_last();
        let id = layers.last();
        lemma_coalesce_layer_diffs(cur, pre);
        let m1 = coalesce(cur, layer_diffs(cur, pre));
        lemma_coalesce_append(cur, layer_diffs(cur, pre), layer_diff(cur, id));
        assert forall|k: u32| layers.contains(k) <==> pre.contains(k) || k == id by {
            if layers.contains(k) {
                let j = choose|j: int| 0 <= j < layers.len() && layers[j] == k;
                if j < layers.len() - 1 {
                    assert(pre[j] == k);
                }
            }
            if pre.contains(k) {
                let j = choose|j: int| 0 <= j < pre.len() && pre[j] == k;
                assert(layers[j] == k);
            }
            if k == id {
                assert(layers[layers.len() - 1] == k);
            }
        }
        let d = layer_diff(cur, id);
        if cur.contains_key(id) && cur[id] == layer_node(id) {
            assert(d.len() == 0);
            assert(coalesce(m1, d) == m1);
        } else {
            assert(d.len() == 1);
            assert(d.drop_last().len() == 0);
            assert(coalesce(m1, d.drop_last()) == m1);
            assert(coalesce(m1, d) == m1.insert(id, layer_node(id)));
        }
        assert(coalesce(m1, d) =~= target);
    }
}

/// Applying the removals for `s` against `layers` to `m` drops exactly the ids of `s`
/// that no layer has.
proof fn lemma_coalesce_removed(m: Map<u32, NodeView>, s: Seq<NodeView>, layers: Seq<u32>)
    ensures
        coalesce(m, removed_diffs(s, layers)) == Map::new(
            |k: u32| m.contains_key(k) && !(has_id(s, k) && !layers.contains(k)),
            |k: u32| m[k],
        ),
    decreases s.len(),
{
    let target = Map::new(
        |k: u32| m.contains_key(k) && !(has_id(s, k) && !layers.contains(k)),
        |k: u32| m[k],
    );
    if s.len() == 0 {
        assert(coalesce(m, removed_diffs(s, layers)) =~= target);
    } else {
        let pre = s.drop_last();
        let last = s.last();
        lemma_coalesce_removed(m, pre, layers);
        let m1 = coalesce(m, removed_diffs(pre, layers));
        let tail = if layers.contains(last.id) {
            Seq::<FrameDiff>::empty()
        } else {
            seq![FrameDiff::NodeRemoved(last.id)]
        };
        assert(removed_diffs(s, layers) == removed_diffs(pre, layers) + tail);
        lemma_coalesce_append(m, removed_diffs(pre, layers), tail);
        assert forall|k: u32| has_id(s, k) <==> has_id(pre, k) || k == last.id by {
            if has_id(s, k) {
                let j = choose|j: int| 0 <= j < s.len() && s[j].id == k;
                if j < s.len() - 1 {
                    assert(pre[j].id == k);
                }
            }
            if has_id(pre, k) {
                let j = choose|j: int| 0 <= j < pre.len() && pre[j].id == k;
                assert(s[j].id == k);
            }
            if k == last.id {
                assert(s[s.len() - 1].id == k);
            }
        }
        if layers.contains(last.id) {
            assert(coalesce(m1, tail) == m1);
        } else {
            assert(tail.drop_last().len() == 0);
            assert(coalesce(m1, tail.drop_last()) == m1);
            assert(coalesce(m1, tail) == m1.remove(last.id));
        }
        assert(coalesce(m1, tail) =~= target);
    }
}

/// The diffs an update reports carry the view it started from to the view it leaves:
/// applied in order to the old nodes, they give exactly the snapshot's nodes.
pub proof fn law_update_diffs_replay(s: Seq<NodeView>, layers: Seq<u32>)
    requires
        ids_sorted(s),
    ensures
        coalesce(table(s), layer_diffs(table(s), layers) + removed_diffs(s, layers)) == layers_table(
            layers,
        ),
{
    let cur = table(s);
    lemma_coalesce_append(cur, layer_diffs(cur, layers), removed_diffs(s, layers));
    lemma_coalesce_layer_diffs(cur, layers);
    let m1 = coalesce(cur, layer_diffs(cur, layers));
    lemma_coalesce_removed(m1, s, layers);
    assert(coalesce(m1, removed_diffs(s, layers)) =~= layers_table(layers));
}

proof fn lemma_no_removals(s: Seq<NodeView>, layers: Seq<u32>)
    requires
        forall|i: int| 0 <= i < s.len() ==> layers.contains(#[trigger] s[i].id),
    ensures
        removed_diffs(s, layers).len() == 0,
    decreases s.len(),
{
    if s.len() > 0 {
        assert(layers.contains(s[s.len() - 1].id));
        lemma_no_removals(s.drop_last(), layers);
    }
}

proof fn lemma_no_layer_diffs(cur: Map<u32, NodeView>, layers: Seq<u32>)
    requires
        forall|i: int| 0 <= i < layers.len() ==> cur.contains_key(#[trigger] layers[i]) && cur[layers[i]]
            == layer_node(layers[i]),
    ensures
        layer_diffs(cur, layers).len() == 0,
    decreases layers.len(),
{
    if layers.len() > 0 {
        assert(cur.contains_key(layers[layers.len() - 1]));
        lemma_no_layer_diffs(cur, layers.drop_last());
    }
}

/// Once the view shows a snapshot, updating it with the same snapshot reports no
/// diff.
pub proof fn law_update_same_snapshot_quiet(s: Seq<NodeView>, layers: Seq<u32>)
    requires
        ids_sorted(s),
        table(s) == layers_table(layers),
    ensures
        layer_diffs(table(s), layers) + removed_diffs(s, layers) == Seq::<FrameDiff>::empty(),
{
    assert forall|i: int| 0 <= i < s.len() implies layers.contains(#[trigger] s[i].id) by {
        lemma_table_at(s, i);
    }
    lemma_no_removals(s, layers);
    assert forall|i: int| 0 <= i < layers.len() implies table(s).contains_key(#[trigger] layers[i])
        && table(s)[layers[i]] == layer_node(layers[i]) by {
        assert(layers.contains(layers[i]));
    }
    lemma_no_layer_diffs(table(s), layers);
    assert(layer_diffs(table(s), layers) + removed_diffs(s, layers) =~= Seq::<FrameDiff>::empty());
}

} // verus!
