//! The node and wire flattener: every node's wires are appended to one wire
//! list of the device, the root wire first, and the node refers to them by
//! their index in that list.

use vstd::prelude::*;
use crate::document::{NodeRecord, WireRecord};
use crate::fabric::{Alike, Node, NodeView, WireCategory, WireRefView};
use crate::interner::{
    grown_by,
    lemma_grown_by_chain,
    lemma_grown_by_two,
    resolves,
    Interner,
};

verus! {

/// The index of a wire category in the document's list of wire types.
pub open spec fn category_index(category: WireCategory) -> usize {
    match category {
        WireCategory::General => 0,
        WireCategory::Special => 1,
        WireCategory::Global => 2,
    }
}

/// The wires of `wires` that are not `root`, in their order.
pub open spec fn without_root(wires: Seq<WireRefView>, root: WireRefView) -> Seq<WireRefView>
    decreases wires.len(),
{
    if wires.len() == 0 {
        Seq::empty()
    } else if wires.last() == root {
        without_root(wires.drop_last(), root)
    } else {
        without_root(wires.drop_last(), root).push(wires.last())
    }
}

/// The wires that a node adds to the device's wire list: its root, then its
/// other member wires in their order.
pub open spec fn node_wires(node: NodeView) -> Seq<WireRefView> {
    seq![node.root] + without_root(node.wires, node.root)
}

/// The names of the wires: of each that of its tile and its own.
pub open spec fn wires_names(wires: Seq<WireRefView>) -> Set<Seq<char>>
    decreases wires.len(),
{
    if wires.len() == 0 {
        Set::empty()
    } else {
        wires_names(wires.drop_last()).union(set![wires.last().tile, wires.last().wire])
    }
}

/// The names in the nodes: those of the wires that they add to the wire list.
pub open spec fn nodes_names(nodes: Seq<NodeView>) -> Set<Seq<char>>
    decreases nodes.len(),
{
    if nodes.len() == 0 {
        Set::empty()
    } else {
        nodes_names(nodes.drop_last()).union(wires_names(node_wires(nodes.last())))
    }
}

/// A wire of the device's wire list, by names.
pub struct WireEntry {
    pub tile: Seq<char>,
    pub wire: Seq<char>,
    pub category: WireCategory,
}

/// The entries that a node adds to the device's wire list.
pub open spec fn node_entries(node: NodeView) -> Seq<WireEntry> {
    Seq::new(
        node_wires(node).len(),
        |k: int|
            WireEntry {
                tile: node_wires(node)[k].tile,
                wire: node_wires(node)[k].wire,
                category: node.category,
            },
    )
}

/// The device's wire list: the entries of the nodes, node after node.
pub open spec fn device_wires(nodes: Seq<NodeView>) -> Seq<WireEntry>
    decreases nodes.len(),
{
    if nodes.len() == 0 {
        Seq::empty()
    } else {
        device_wires(nodes.drop_last()) + node_entries(nodes.last())
    }
}

/// The index in the device's wire list of the first wire of node `n`.
pub open spec fn node_base(nodes: Seq<NodeView>, n: int) -> nat {
    device_wires(nodes.take(n)).len()
}

/// `count` consecutive indices from `base` on.
pub open spec fn run_from(base: nat, count: nat) -> Seq<usize> {
    Seq::new(count, |k: int| (base + k) as usize)
}

impl WireRecord {
    /// The record names the tile and the wire of `entry` and has its wire type.
    pub open spec fn encodes(&self, table: Seq<Seq<char>>, entry: WireEntry) -> bool {
        &&& resolves(table, self.tile, entry.tile)
        &&& resolves(table, self.wire, entry.wire)
        &&& self.wire_type == category_index(entry.category)
    }
}

/// `records`, from position `from` on, encode `entries` one by one.
pub open spec fn wires_encode(
    table: Seq<Seq<char>>,
    records: Seq<WireRecord>,
    from: int,
    entries: Seq<WireEntry>,
) -> bool {
    &&& records.len() == from + entries.len()
    &&& forall|i: int|
        from <= i < records.len() ==> (#[trigger] records[i]).encodes(table, entries[i - from])
}

/// The wire records of a device encode its wire list, and each node record
/// holds the consecutive indices of the node's own wires.
pub open spec fn nodes_flattened(
    table: Seq<Seq<char>>,
    wires: Seq<WireRecord>,
    records: Seq<NodeRecord>,
    nodes: Seq<NodeView>,
) -> bool {
    &&& wires_encode(table, wires, 0, device_wires(nodes))
    &&& records.len() == nodes.len()
    &&& forall|n: int|
        0 <= n < records.len() ==> (#[trigger] records[n]).wires@ == run_from(
            node_base(nodes, n),
            node_wires(nodes[n]).len(),
        )
}

/// No wire of `without_root` is the root, each is a member, and no member
/// other than the root is left out.
pub proof fn lemma_without_root(wires: Seq<WireRefView>, root: WireRefView)
    ensures
        without_root(wires, root).len() <= wires.len(),
        forall|k: int|
            0 <= k < without_root(wires, root).len() ==> (#[trigger] without_root(wires, root)[k])
                != root && wires.contains(without_root(wires, root)[k]),
        forall|i: int|
            0 <= i < wires.len() && wires[i] != root ==> without_root(wires, root).contains(
                #[trigger] wires[i],
            ),
    decreases wires.len(),
{
    if wires.len() > 0 {
        let front = wires.drop_last();
        lemma_without_root(front, root);
        let kept = without_root(wires, root);
        let before = without_root(front, root);
        assert forall|k: int| 0 <= k < kept.len() implies (#[trigger] kept[k]) != root
            && wires.contains(kept[k]) by {
            if k < before.len() {
                assert(kept[k] == before[k]);
                let i = choose|i: int| 0 <= i < front.len() && front[i] == before[k];
                assert(wires[i] == kept[k]);
            } else {
                assert(kept[k] == wires[wires.len() - 1]);
            }
        }
        assert forall|i: int| 0 <= i < wires.len() && wires[i] != root implies kept.contains(
            #[trigger] wires[i],
        ) by {
            if i < front.len() {
                assert(front[i] == wires[i]);
                let k = choose|k: int| 0 <= k < before.len() && before[k] == front[i];
                assert(kept[k] == wires[i]);
            } else {
                assert(kept[kept.len() - 1] == wires[i]);
            }
        }
    }
}

/// The member wires of a node form a set that holds the root: no wire occurs
/// twice among them, and the root is one of them.
pub open spec fn members_form_set(node: NodeView) -> bool {
    node.wires.no_duplicates() && node.wires.contains(node.root)
}

/// Among wires of which none occurs twice, leaving out the root leaves out one
/// wire if the root is among them, and none if it is not; what is left has no
/// wire twice.
pub proof fn lemma_without_root_of_set(wires: Seq<WireRefView>, root: WireRefView)
    requires
        wires.no_duplicates(),
    ensures
        without_root(wires, root).no_duplicates(),
        wires.contains(root) ==> without_root(wires, root).len() == wires.len() - 1,
        !wires.contains(root) ==> without_root(wires, root).len() == wires.len(),
    decreases wires.len(),
{
    if wires.len() > 0 {
        let front = wires.drop_last();
        let last = wires.last();
        let kept = without_root(wires, root);
        let before = without_root(front, root);
        assert forall|i: int, j: int| 0 <= i < front.len() && 0 <= j < front.len() && i != j implies front[i]
            != front[j] by {
            assert(front[i] == wires[i] && front[j] == wires[j]);
        }
        lemma_without_root_of_set(front, root);
        lemma_without_root(front, root);
        assert(!front.contains(last)) by {
            if front.contains(last) {
                let i = choose|i: int| 0 <= i < front.len() && front[i] == last;
                assert(wires[i] == wires[wires.len() - 1]);
            }
        }
        if last == root {
            assert(wires.contains(root)) by {
                assert(wires[wires.len() - 1] == root);
            }
        } else {
            assert(wires.contains(root) <==> front.contains(root)) by {
                if wires.contains(root) {
                    let i = choose|i: int| 0 <= i < wires.len() && wires[i] == root;
                    assert(front[i] == root);
                }
                if front.contains(root) {
                    let i = choose|i: int| 0 <= i < front.len() && front[i] == root;
                    assert(wires[i] == root);
                }
            }
            assert forall|i: int, j: int| 0 <= i < kept.len() && 0 <= j < kept.len() && i != j implies kept[i]
                != kept[j] by {
                if i < before.len() && j < before.len() {
                    assert(kept[i] == before[i] && kept[j] == before[j]);
                } else if i < before.len() {
                    assert(kept[i] == before[i]);
                    assert(front.contains(before[i]));
                } else {
                    assert(kept[j] == before[j]);
                    assert(front.contains(before[j]));
                }
            }
        }
    }
}

/// A node whose members form a set that holds the root adds as many wires to
/// the wire list as it has members, and none of them twice.
pub proof fn lemma_node_of_set(node: NodeView)
    requires
        members_form_set(node),
    ensures
        node_wires(node).len() == node.wires.len(),
        node_wires(node).no_duplicates(),
{
    lemma_without_root_of_set(node.wires, node.root);
    lemma_without_root(node.wires, node.root);
    let others = without_root(node.wires, node.root);
    let all = node_wires(node);
    assert forall|i: int, j: int| 0 <= i < all.len() && 0 <= j < all.len() && i != j implies all[i]
        != all[j] by {
        if i > 0 {
            assert(all[i] == others[i - 1]);
        }
        if j > 0 {
            assert(all[j] == others[j - 1]);
        }
    }
}

/// The first wire of a node is its root, and no later wire of the node equals
/// the root; every later wire is a member of the node.
pub proof fn lemma_root_first(node: NodeView)
    ensures
        node_wires(node).len() >= 1,
        node_wires(node)[0] == node.root,
        forall|k: int|
            1 <= k < node_wires(node).len() ==> (#[trigger] node_wires(node)[k]) != node.root
                && node.wires.contains(node_wires(node)[k]),
{
    lemma_without_root(node.wires, node.root);
    let others = without_root(node.wires, node.root);
    assert forall|k: int| 1 <= k < node_wires(node).len() implies (#[trigger] node_wires(node)[k])
        != node.root && node.wires.contains(node_wires(node)[k]) by {
        assert(node_wires(node)[k] == others[k - 1]);
    }
}

/// The wire lists of the first `n` nodes are a prefix of the device's wire list.
pub proof fn lemma_device_wires_prefix(nodes: Seq<NodeView>, n: int)
    requires
        0 <= n <= nodes.len(),
    ensures
        device_wires(nodes.take(n)).is_prefix_of(device_wires(nodes)),
    decreases nodes.len() - n,
{
    if n == nodes.len() {
        assert(nodes.take(n) =~= nodes);
    } else {
        lemma_device_wires_prefix(nodes, n + 1);
        assert(nodes.take(n + 1).drop_last() =~= nodes.take(n));
    }
}

/// Wire `k` of node `n` stands in the device's wire list at the node's base
/// plus `k`, and that index is within the list.
pub proof fn lemma_node_wire_position(nodes: Seq<NodeView>, n: int, k: int)
    requires
        0 <= n < nodes.len(),
        0 <= k < node_wires(nodes[n]).len(),
    ensures
        node_base(nodes, n) + k < device_wires(nodes).len(),
        device_wires(nodes)[node_base(nodes, n) + k] == node_entries(nodes[n])[k],
{
    lemma_device_wires_prefix(nodes, n + 1);
    assert(nodes.take(n + 1).drop_last() =~= nodes.take(n));
    assert(nodes.take(n + 1).last() == nodes[n]);
    let upto = device_wires(nodes.take(n + 1));
    assert(upto[node_base(nodes, n) + k] == node_entries(nodes[n])[k]);
}

/// Every position of the device's wire list belongs to a node: it is the
/// node's base plus the position of one of the node's wires.
pub proof fn lemma_wire_owner(nodes: Seq<NodeView>, p: int) -> (owner: (int, int))
    requires
        0 <= p < device_wires(nodes).len(),
    ensures
        0 <= owner.0 < nodes.len(),
        0 <= owner.1 < node_wires(nodes[owner.0]).len(),
        node_base(nodes, owner.0) + owner.1 == p,
    decreases nodes.len(),
{
    let front = nodes.drop_last();
    let before = device_wires(front).len();
    if p >= before {
        assert(nodes.take(nodes.len() - 1) =~= front);
        (nodes.len() - 1, p - before)
    } else {
        let owner = lemma_wire_owner(front, p);
        assert(front.take(owner.0) =~= nodes.take(owner.0));
        owner
    }
}

/// In a flattened device the wire list has no gap: every wire record is
/// referred to by a node.
pub proof fn lemma_no_unused_wire(
    table: Seq<Seq<char>>,
    wires: Seq<WireRecord>,
    records: Seq<NodeRecord>,
    nodes: Seq<NodeView>,
    p: int,
)
    requires
        nodes_flattened(table, wires, records, nodes),
        wires.len() <= usize::MAX,
        0 <= p < wires.len(),
    ensures
        exists|n: int, k: int|
            0 <= n < records.len() && 0 <= k < records[n].wires@.len() && #[trigger] records[n].wires@[k]
                == p,
{
    let (n, k) = lemma_wire_owner(nodes, p);
    assert(records[n].wires@ == run_from(node_base(nodes, n), node_wires(nodes[n]).len()));
    assert(records[n].wires@[k] == p);
}

/// In a flattened device every index that a node holds is an index of the wire
/// list, and of a wire that was in the list when the node was done; the node's
/// first index is that of its root wire, and none of its other indices is that
/// of a wire equal to the root.
pub proof fn lemma_flattened_nodes(
    table: Seq<Seq<char>>,
    wires: Seq<WireRecord>,
    records: Seq<NodeRecord>,
    nodes: Seq<NodeView>,
    n: int,
    k: int,
)
    requires
        nodes_flattened(table, wires, records, nodes),
        wires.len() <= usize::MAX,
        0 <= n < nodes.len(),
        0 <= k < records[n].wires@.len(),
    ensures
        records[n].wires@[k] < node_base(nodes, n + 1) <= wires.len(),
        k == 0 ==> resolves(table, wires[records[n].wires@[k] as int].tile, nodes[n].root.tile)
            && resolves(table, wires[records[n].wires@[k] as int].wire, nodes[n].root.wire),
        k > 0 ==> !(resolves(table, wires[records[n].wires@[k] as int].tile, nodes[n].root.tile)
            && resolves(table, wires[records[n].wires@[k] as int].wire, nodes[n].root.wire)),
{
    lemma_node_wire_position(nodes, n, k);
    lemma_root_first(nodes[n]);
    lemma_device_wires_prefix(nodes, n + 1);
    assert(nodes.take(n + 1).drop_last() =~= nodes.take(n));
    assert(nodes.take(n + 1).last() == nodes[n]);
    let index = records[n].wires@[k];
    assert(index == node_base(nodes, n) + k);
    assert(wires[index as int].encodes(table, device_wires(nodes)[index as int]));
    if k > 0 {
        let w = node_wires(nodes[n])[k];
        assert(w != nodes[n].root);
        assert(w.tile != nodes[n].root.tile || w.wire != nodes[n].root.wire);
    }
}

/// The index of a wire category in the document's list of wire types.
pub fn wire_type_index(category: WireCategory) -> (index: usize)
    ensures
        index == category_index(category),
{
    match category {
        WireCategory::General => 0,
        WireCategory::Special => 1,
        WireCategory::Global => 2,
    }
}

/// Flattens one node: appends its wires to `wires`, the root first and then
/// each member that is not the root, and returns the node's record, which
/// holds their indices.
pub fn flatten_node(node: &Node, ids: &mut Interner, wires: &mut Vec<WireRecord>) -> (record:
    NodeRecord)
    ensures
        grown_by(old(ids)@, final(ids)@, wires_names(node_wires(node.deep_view()))),
        final(ids)@.no_duplicates(),
        old(wires)@.is_prefix_of(final(wires)@),
        wires_encode(
            final(ids)@,
            final(wires)@,
            old(wires)@.len() as int,
            node_entries(node.deep_view()),
        ),
        record.wires@ == run_from(old(wires)@.len(), node_wires(node.deep_view()).len()),
{
    let ghost view = node.deep_view();
    let ghost start = wires@.len();
    let wire_type = wire_type_index(node.category);
    let mut indices: Vec<usize> = Vec::new();
    let ghost t0 = ids@;
    let tile = ids.intern(node.root.tile.as_str());
    let ghost t1 = ids@;
    let wire = ids.intern(node.root.wire.as_str());
    indices.push(wires.len());
    wires.push(WireRecord { tile, wire, wire_type });
    proof {
        lemma_grown_by_two(t0, t1, ids@, view.root.tile, view.root.wire);
        assert(seq![view.root].drop_last() =~= Seq::<WireRefView>::empty());
        assert(view.wires.take(0) =~= Seq::<WireRefView>::empty());
        assert(seq![view.root] + without_root(view.wires.take(0), view.root) =~= seq![view.root]);
        assert(seq![view.root].last() == view.root);
        assert(wires_names(Seq::<WireRefView>::empty()) =~= Set::<Seq<char>>::empty());
        assert(wires_names(seq![view.root].drop_last()) =~= Set::<Seq<char>>::empty());
        assert(wires_names(seq![view.root]) =~= set![view.root.tile, view.root.wire]);
    }
    let mut i: usize = 0;
    while i < node.wires.len()
        invariant
            i <= node.wires.len(),
            view == node.deep_view(),
            start == old(wires)@.len(),
            wire_type == category_index(view.category),
            grown_by(
                old(ids)@,
                ids@,
                wires_names(seq![view.root] + without_root(view.wires.take(i as int), view.root)),
            ),
            ids@.no_duplicates(),
            old(wires)@.is_prefix_of(wires@),
            wires@.len() == start + 1 + without_root(view.wires.take(i as int), view.root).len(),
            indices@.len() + start == wires@.len(),
            forall|k: int| 0 <= k < indices@.len() ==> #[trigger] indices@[k] == start + k,
            forall|p: int|
                start <= p < wires@.len() ==> (#[trigger] wires@[p]).encodes(
                    ids@,
                    WireEntry {
                        tile: (seq![view.root] + without_root(
                            view.wires.take(i as int),
                            view.root,
                        ))[p - start].tile,
                        wire: (seq![view.root] + without_root(
                            view.wires.take(i as int),
                            view.root,
                        ))[p - start].wire,
                        category: view.category,
                    },
                ),
        decreases node.wires.len() - i,
    {
        let member = &node.wires[i];
        let ghost held = seq![view.root] + without_root(view.wires.take(i as int), view.root);
        proof {
            assert(view.wires.take(i + 1).drop_last() =~= view.wires.take(i as int));
            assert(view.wires.take(i + 1).last() == view.wires[i as int]);
            assert(view.wires[i as int] == member.deep_view());
        }
        if !member.alike(&node.root) {
            let ghost before = ids@;
            let tile = ids.intern(member.tile.as_str());
            let ghost mid = ids@;
            let wire = ids.intern(member.wire.as_str());
            indices.push(wires.len());
            wires.push(WireRecord { tile, wire, wire_type });
            proof {
                let next = seq![view.root] + without_root(view.wires.take(i + 1), view.root);
                assert(next =~= held.push(member.deep_view()));
                assert(next.drop_last() =~= held);
                lemma_grown_by_two(before, mid, ids@, member.tile@, member.wire@);
                lemma_grown_by_chain(
                    old(ids)@,
                    before,
                    ids@,
                    wires_names(held),
                    set![member.tile@, member.wire@],
                    wires_names(next),
                );
            }
        }
        i += 1;
    }
    proof {
        assert(view.wires.take(node.wires.len() as int) =~= view.wires);
        assert(indices@ =~= run_from(start, node_wires(view).len()));
    }
    NodeRecord { wires: indices }
}

/// Flattens the nodes of a device into its wire list and its node list.
pub fn flatten_nodes(nodes: &Vec<Node>, ids: &mut Interner) -> (out: (
    Vec<WireRecord>,
    Vec<NodeRecord>,
))
    ensures
        grown_by(old(ids)@, final(ids)@, nodes_names(nodes.deep_view())),
        final(ids)@.no_duplicates(),
        nodes_flattened(final(ids)@, out.0@, out.1@, nodes.deep_view()),
{
    let ghost all = nodes.deep_view();
    let mut wires: Vec<WireRecord> = Vec::new();
    let mut records: Vec<NodeRecord> = Vec::new();
    proof {
        use_type_invariant(&*ids);
    }
    let mut n: usize = 0;
    while n < nodes.len()
        invariant
            n <= nodes.len(),
            all == nodes.deep_view(),
            grown_by(old(ids)@, ids@, nodes_names(all.take(n as int))),
            ids@.no_duplicates(),
            records@.len() == n,
            wires_encode(ids@, wires@, 0, device_wires(all.take(n as int))),
            forall|m: int|
                0 <= m < n ==> (#[trigger] records@[m]).wires@ == run_from(
                    node_base(all, m),
                    node_wires(all[m]).len(),
                ),
        decreases nodes.len() - n,
    {
        let ghost before = wires@;
        let ghost table = ids@;
        let record = flatten_node(&nodes[n], ids, &mut wires);
        proof {
            assert(all.take(n + 1).drop_last() =~= all.take(n as int));
            assert(all.take(n + 1).last() == all[n as int]);
            lemma_grown_by_chain(
                old(ids)@,
                table,
                ids@,
                nodes_names(all.take(n as int)),
                wires_names(node_wires(all[n as int])),
                nodes_names(all.take(n + 1)),
            );
            let upto = device_wires(all.take(n as int));
            let next = device_wires(all.take(n + 1));
            assert(next == upto + node_entries(all[n as int]));
            assert forall|p: int| 0 <= p < wires@.len() implies (#[trigger] wires@[p]).encodes(
                ids@,
                next[p],
            ) by {
                if p < before.len() {
                    assert(wires@[p] == before[p]);
                    assert(before[p].encodes(table, upto[p]));
                }
            }
        }
        records.push(record);
        n += 1;
    }
    proof {
        assert(all.take(nodes.len() as int) =~= all);
    }
    (wires, records)
}

} // verus!
