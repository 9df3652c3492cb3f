use vstd::prelude::*;
use crate::tree::{rejected, rising, visited, NodeId, Payload, Tree};

verus! {

/// Taking a value out of a rising sequence leaves a rising sequence with
/// the other values.
pub proof fn lemma_remove_value_rising(ids: Seq<NodeId>, id: NodeId)
    requires
        rising(ids),
    ensures
        rising(ids.remove_value(id)),
        forall|x: NodeId| ids.remove_value(id).contains(x) <==> ids.contains(x) && x != id,
{
    ids.index_of_first_ensures(id);
    let rest = ids.remove_value(id);
    match ids.index_of_first(id) {
        Some(at) => {
            assert forall|x: NodeId| rest.contains(x) <==> ids.contains(x) && x != id by {
                if rest.contains(x) {
                    let j = choose|j: int| 0 <= j < rest.len() && rest[j] == x;
                    if j < at {
                        assert(ids[j] == x);
                    } else {
                        assert(ids[j + 1] == x);
                    }
                }
                if ids.contains(x) && x != id {
                    let j = choose|j: int| 0 <= j < ids.len() && ids[j] == x;
                    if j < at {
                        assert(rest[j] == x);
                    } else {
                        assert(rest[j - 1] == x);
                    }
                }
            }
        },
        None => {},
    }
}

/// What two sequences hold, one after the other, is what either holds.
pub proof fn lemma_concat_contains<A>(first: Seq<A>, second: Seq<A>, x: A)
    ensures
        (first + second).contains(x) <==> first.contains(x) || second.contains(x),
{
    let all = first + second;
    if all.contains(x) {
        let j = choose|j: int| 0 <= j < all.len() && all[j] == x;
        if j < first.len() {
            assert(first[j] == x);
        } else {
            assert(second[j - first.len()] == x);
        }
    }
    if first.contains(x) {
        let j = choose|j: int| 0 <= j < first.len() && first[j] == x;
        assert(all[j] == x);
    }
    if second.contains(x) {
        let j = choose|j: int| 0 <= j < second.len() && second[j] == x;
        assert(all[first.len() + j] == x);
    }
}

/// Two sequences without repeats that share no value give one without repeats.
pub proof fn lemma_concat_no_duplicates(first: Seq<NodeId>, second: Seq<NodeId>)
    requires
        first.no_duplicates(),
        second.no_duplicates(),
        forall|a: int, b: int|
            0 <= a < first.len() && 0 <= b < second.len() ==> first[a] != second[b],
    ensures
        (first + second).no_duplicates(),
{
    let all = first + second;
    assert forall|a: int, b: int|
        0 <= a < all.len() && 0 <= b < all.len() && a != b implies all[a] != all[b] by {
        if a < first.len() && b < first.len() {
        } else if a >= first.len() && b >= first.len() {
            assert(second[a - first.len()] != second[b - first.len()]);
        } else if a < first.len() {
            assert(first[a] != second[b - first.len()]);
        } else {
            assert(first[b] != second[a - first.len()]);
        }
    }
}

/// A visit in two parts came to the nodes that either part came to.
pub proof fn lemma_visited_concat(
    first: Seq<(NodeId, usize)>,
    second: Seq<(NodeId, usize)>,
    x: NodeId,
)
    ensures
        visited(first + second, x) <==> visited(first, x) || visited(second, x),
{
    let all = first + second;
    if visited(all, x) {
        let j = choose|j: int| 0 <= j < all.len() && (#[trigger] all[j]).0 == x;
        if j < first.len() {
            assert(first[j].0 == x);
        } else {
            assert(second[j - first.len()].0 == x);
        }
    }
    if visited(first, x) {
        let j = choose|j: int| 0 <= j < first.len() && (#[trigger] first[j]).0 == x;
        assert(all[j].0 == x);
    }
    if visited(second, x) {
        let j = choose|j: int| 0 <= j < second.len() && (#[trigger] second[j]).0 == x;
        assert(all[first.len() + j].0 == x);
    }
}

/// Where every verdict is `true`, no node is rejected.
pub proof fn lemma_rejected_none(order: Seq<(NodeId, usize)>, verdicts: Seq<bool>)
    requires
        forall|j: int| 0 <= j < verdicts.len() ==> verdicts[j],
    ensures
        rejected(order, verdicts) == Seq::<NodeId>::empty(),
    decreases order.len(),
{
    if order.len() != 0 && verdicts.len() == order.len() {
        lemma_rejected_none(order.drop_last(), verdicts.drop_last());
    }
}

/// Where every verdict is `false`, every visited node is rejected.
pub proof fn lemma_rejected_all(order: Seq<(NodeId, usize)>, verdicts: Seq<bool>, x: NodeId)
    requires
        verdicts.len() == order.len(),
        forall|j: int| 0 <= j < verdicts.len() ==> !verdicts[j],
        visited(order, x),
    ensures
        rejected(order, verdicts).contains(x),
    decreases order.len(),
{
    let j = choose|j: int| 0 <= j < order.len() && (#[trigger] order[j]).0 == x;
    let rest = rejected(order.drop_last(), verdicts.drop_last());
    if j == order.len() - 1 {
        assert(rest.push(order.last().0).last() == x);
    } else {
        assert(order.drop_last()[j].0 == x);
        lemma_rejected_all(order.drop_last(), verdicts.drop_last(), x);
        let q = choose|q: int| 0 <= q < rest.len() && rest[q] == x;
        assert(rest.push(order.last().0)[q] == x);
    }
}

impl Tree {
    /// Inserting under a live node keeps the tree well-formed.
    pub proof fn lemma_inserted_wf(self, parent: NodeId, data: Option<Payload>)
        requires
            self.wf(),
            self.live(parent as int),
            self.nodes.len() < usize::MAX,
        ensures
            self.inserted(parent, data).wf(),
    {
        let after = self.inserted(parent, data);
        let id = self.nodes.len() as usize;
        assert forall|i: int| after.live(i) implies #[trigger] after.sound(i) by {
            if i == id {
                assert(after.node(parent as int).children.last() == id);
            } else {
                assert(self.sound(i));
                if i != 0 {
                    let p = self.node(i).parent->0;
                    let k = choose|k: int|
                        0 <= k < self.node(p as int).children.len() && self.node(
                            p as int,
                        ).children[k] == i as usize;
                    assert(after.node(p as int).children[k] == i as usize);
                }
                assert forall|k: int| 0 <= k < after.node(i).children.len() implies after.linked(
                    i,
                    #[trigger] after.node(i).children[k],
                ) by {
                    if k < self.node(i).children.len() {
                        assert(self.linked(i, self.node(i).children[k]));
                    }
                }
                assert forall|j: int, k: int|
                    0 <= j < k < after.node(i).children.len() implies after.node(i).children[j]
                    < after.node(i).children[k] by {
                    if k == self.node(i).children.len() {
                        assert(self.linked(i, self.node(i).children[j]));
                    }
                }
            }
        }
    }

    /// Two nodes of which each is under the other are one node; what is
    /// under a node has no smaller id.
    pub proof fn lemma_under_order(self, id: int, top: int)
        requires
            self.under(id, top),
        ensures
            top <= id,
        decreases id,
    {
        if id != top {
            self.lemma_under_order(self.node(id).parent->0 as int, top);
        }
    }

    /// Of two nodes that a node is under, the one with the larger id is under the other.
    pub proof fn lemma_under_chain(self, id: int, first: int, second: int)
        requires
            self.under(id, first),
            self.under(id, second),
            first <= second,
        ensures
            self.under(second, first),
        decreases id,
    {
        if id == second {
        } else if id == first {
            self.lemma_under_order(id, second);
        } else {
            self.lemma_under_chain(self.node(id).parent->0 as int, first, second);
        }
    }

    /// What is under a child of a node is under the node.
    pub proof fn lemma_under_parent(self, id: int, child: int, top: int)
        requires
            self.under(id, child),
            self.under(child, top),
        ensures
            self.under(id, top),
        decreases id,
    {
        if id != child {
            self.lemma_under_parent(self.node(id).parent->0 as int, child, top);
        }
    }

    /// A listed node of the first `k` children's subtrees is live and under
    /// one of those children, which the lemma gives.
    pub proof fn lemma_below_under(self, id: int, k: int, x: NodeId) -> (m: int)
        requires
            self.wf(),
            self.live(id),
            0 <= k <= self.node(id).children.len(),
            self.below(id, k).contains(x),
        ensures
            0 <= m < k,
            self.live(x as int),
            self.under(x as int, self.node(id).children[m] as int),
        decreases self.nodes.len() - id, k,
    {
        let child = self.node(id).children[k - 1];
        assert(self.sound(id));
        assert(self.linked(id, child));
        assert(self.sound(child as int));
        lemma_concat_contains(self.below(id, k - 1), self.subtree(child as int), x);
        if self.below(id, k - 1).contains(x) {
            self.lemma_below_under(id, k - 1, x)
        } else {
            self.lemma_subtree_under(child as int, x);
            k - 1
        }
    }

    /// A listed node of a subtree is live and under the top of the subtree.
    pub proof fn lemma_subtree_under(self, id: int, x: NodeId)
        requires
            self.wf(),
            self.live(id),
            self.subtree(id).contains(x),
        ensures
            self.live(x as int),
            self.under(x as int, id),
            id <= x,
        decreases self.nodes.len() - id, self.node(id).children.len() + 1,
    {
        let n = self.node(id).children.len() as int;
        lemma_concat_contains(self.below(id, n), seq![id as usize], x);
        if self.below(id, n).contains(x) {
            let m = self.lemma_below_under(id, n, x);
            let child = self.node(id).children[m];
            assert(self.sound(id));
            assert(self.linked(id, child));
            assert(self.sound(child as int));
            assert(self.under(id, id));
            assert(self.under(child as int, id));
            self.lemma_under_parent(x as int, child as int, id);
        } else {
            assert(seq![id as usize][0] == id);
        }
        self.lemma_under_order(x as int, id);
    }

    /// The listing of a subtree ends with its top.
    pub proof fn lemma_subtree_last(self, id: int)
        requires
            self.wf(),
            self.live(id),
        ensures
            self.subtree(id).len() > 0,
            self.subtree(id).last() == id,
            self.subtree(id).contains(id as usize),
    {
        let list = self.subtree(id);
        let head = self.below(id, self.node(id).children.len() as int);
        assert(list =~= head.push(id as usize));
        assert(list[list.len() - 1] == id);
    }

    /// The listing of the first `k` children's subtrees holds those children.
    pub proof fn lemma_below_has_child(self, id: int, k: int, m: int)
        requires
            self.wf(),
            self.live(id),
            0 <= m < k <= self.node(id).children.len(),
        ensures
            self.below(id, k).contains(self.node(id).children[m]),
        decreases k,
    {
        let child = self.node(id).children[k - 1];
        assert(self.sound(id));
        assert(self.linked(id, child));
        assert(self.sound(child as int));
        lemma_concat_contains(
            self.below(id, k - 1),
            self.subtree(child as int),
            self.node(id).children[m],
        );
        if m < k - 1 {
            self.lemma_below_has_child(id, k - 1, m);
        } else {
            self.lemma_subtree_last(child as int);
        }
    }

    /// With a node, the listing of the first `k` children's subtrees holds its children.
    pub proof fn lemma_below_children(self, id: int, k: int, x: NodeId, c: NodeId)
        requires
            self.wf(),
            self.live(id),
            0 <= k <= self.node(id).children.len(),
            self.below(id, k).contains(x),
            self.node(x as int).children.contains(c),
        ensures
            self.below(id, k).contains(c),
        decreases self.nodes.len() - id, k,
    {
        let child = self.node(id).children[k - 1];
        assert(self.sound(id));
        assert(self.linked(id, child));
        assert(self.sound(child as int));
        lemma_concat_contains(self.below(id, k - 1), self.subtree(child as int), x);
        lemma_concat_contains(self.below(id, k - 1), self.subtree(child as int), c);
        if self.below(id, k - 1).contains(x) {
            self.lemma_below_children(id, k - 1, x, c);
        } else {
            self.lemma_subtree_children(child as int, x, c);
        }
    }

    /// With a node, the listing of a subtree holds its children.
    pub proof fn lemma_subtree_children(self, id: int, x: NodeId, c: NodeId)
        requires
            self.wf(),
            self.live(id),
            self.subtree(id).contains(x),
            self.node(x as int).children.contains(c),
        ensures
            self.subtree(id).contains(c),
        decreases self.nodes.len() - id, self.node(id).children.len() + 1,
    {
        let n = self.node(id).children.len() as int;
        lemma_concat_contains(self.below(id, n), seq![id as usize], x);
        lemma_concat_contains(self.below(id, n), seq![id as usize], c);
        if self.below(id, n).contains(x) {
            self.lemma_below_children(id, n, x, c);
        } else {
            assert(seq![id as usize][0] == id);
            let m = choose|m: int| 0 <= m < n && self.node(id).children[m] == c;
            self.lemma_below_has_child(id, n, m);
        }
    }

    /// The listing of a subtree holds every live node under its top.
    pub proof fn lemma_under_listed(self, id: int, x: int)
        requires
            self.wf(),
            self.live(id),
            self.live(x),
            self.under(x, id),
        ensures
            self.subtree(id).contains(x as usize),
        decreases x,
    {
        if x == id {
            self.lemma_subtree_last(id);
        } else {
            assert(self.sound(x));
            let p = self.node(x).parent->0;
            self.lemma_under_listed(id, p as int);
            self.lemma_subtree_children(id, p, x as usize);
        }
    }

    /// The listing of the first `k` children's subtrees names no node twice.
    pub proof fn lemma_below_no_duplicates(self, id: int, k: int)
        requires
            self.wf(),
            self.live(id),
            0 <= k <= self.node(id).children.len(),
        ensures
            self.below(id, k).no_duplicates(),
        decreases self.nodes.len() - id, k,
    {
        if k > 0 {
            let child = self.node(id).children[k - 1];
            assert(self.sound(id));
            assert(self.linked(id, child));
            assert(self.sound(child as int));
            let head = self.below(id, k - 1);
            let tail = self.subtree(child as int);
            self.lemma_below_no_duplicates(id, k - 1);
            self.lemma_subtree_no_duplicates(child as int);
            assert forall|a: int, b: int| 0 <= a < head.len() && 0 <= b < tail.len() implies head[a]
                != tail[b] by {
                if head[a] == tail[b] {
                    let x = head[a];
                    assert(head.contains(x));
                    assert(tail.contains(x));
                    let m = self.lemma_below_under(id, k - 1, x);
                    self.lemma_subtree_under(child as int, x);
                    let other = self.node(id).children[m];
                    assert(self.linked(id, other));
                    assert(self.sound(other as int));
                    assert(other < child);
                    self.lemma_under_chain(x as int, other as int, child as int);
                    self.lemma_under_order(id, other as int);
                }
            }
            lemma_concat_no_duplicates(head, tail);
        }
    }

    /// The listing of a subtree names no node twice.
    pub proof fn lemma_subtree_no_duplicates(self, id: int)
        requires
            self.wf(),
            self.live(id),
        ensures
            self.subtree(id).no_duplicates(),
        decreases self.nodes.len() - id, self.node(id).children.len() + 1,
    {
        let n = self.node(id).children.len() as int;
        let head = self.below(id, n);
        self.lemma_below_no_duplicates(id, n);
        let top = seq![id as usize];
        assert forall|a: int, b: int|
            0 <= a < head.len() && 0 <= b < top.len() implies #[trigger] head[a]
            != #[trigger] top[b] by {
            if head[a] == id {
                assert(head.contains(head[a]));
                let m = self.lemma_below_under(id, n, head[a]);
                let child = self.node(id).children[m];
                assert(self.sound(id));
                assert(self.linked(id, child));
                assert(self.sound(child as int));
                self.lemma_under_order(id, child as int);
            }
        }
        lemma_concat_no_duplicates(head, top);
    }

    /// A listed node of a subtree, unless it is the top, has its parent listed.
    pub proof fn lemma_subtree_parent(self, id: int, x: NodeId)
        requires
            self.wf(),
            self.live(id),
            self.subtree(id).contains(x),
            x != id,
        ensures
            self.node(x as int).parent is Some,
            self.subtree(id).contains(self.node(x as int).parent->0),
    {
        self.lemma_subtree_under(id, x);
        assert(self.sound(x as int));
        self.lemma_under_listed(id, self.node(x as int).parent->0 as int);
    }

    /// Removing a node and what hangs under it keeps the tree well-formed.
    pub proof fn lemma_removed_wf(self, id: int)
        requires
            self.wf(),
        ensures
            self.removed(id).wf(),
    {
        if self.live(id) && id != 0 {
            let after = self.removed(id);
            let gone = self.subtree(id);
            assert(self.sound(id));
            let above = self.node(id).parent->0;
            self.lemma_subtree_last(id);
            assert(!gone.contains(0usize)) by {
                if gone.contains(0usize) {
                    self.lemma_subtree_under(id, 0usize);
                }
            }
            assert forall|i: int| after.live(i) implies #[trigger] after.sound(i) by {
                assert(self.live(i));
                assert(self.sound(i));
                assert(!gone.contains(i as usize));
                lemma_remove_value_rising(self.node(i).children, id as usize);
                if i != 0 {
                    let p = self.node(i).parent->0;
                    assert(self.sound(p as int));
                    if gone.contains(p) {
                        self.lemma_subtree_children(id, p, i as usize);
                    }
                    lemma_remove_value_rising(self.node(p as int).children, id as usize);
                    assert(after.node(p as int).children.contains(i as usize));
                }
                assert forall|k: int| 0 <= k < after.node(i).children.len() implies after.linked(
                    i,
                    #[trigger] after.node(i).children[k],
                ) by {
                    let c = after.node(i).children[k];
                    assert(after.node(i).children.contains(c));
                    assert(self.node(i).children.contains(c));
                    let m = choose|m: int|
                        0 <= m < self.node(i).children.len() && self.node(i).children[m] == c;
                    assert(self.linked(i, self.node(i).children[m]));
                    if gone.contains(c) {
                        if c != id {
                            self.lemma_subtree_parent(id, c);
                        }
                    }
                }
            }
        }
    }

    /// Emptying one slot takes one from the number of live nodes.
    pub proof fn lemma_live_below_drop(self, after: Tree, at: int, k: int)
        requires
            self.nodes.len() == after.nodes.len(),
            self.live(at),
            !after.live(at),
            forall|i: int| i != at ==> self.live(i) == after.live(i),
            0 <= k <= self.nodes.len(),
        ensures
            after.live_below(k) == self.live_below(k) - if at < k {
                1int
            } else {
                0int
            },
        decreases k,
    {
        if k > 0 {
            self.lemma_live_below_drop(after, at, k - 1);
        }
    }

    /// A visit of the first `k` children's subtrees comes to the nodes
    /// that the listing of those subtrees holds.
    pub proof fn lemma_walk_below_ids(self, id: int, k: int, depth: usize, x: NodeId)
        requires
            self.wf(),
            self.live(id),
            0 <= k <= self.node(id).children.len(),
        ensures
            visited(self.walk_below(id, k, depth), x) <==> self.below(id, k).contains(x),
        decreases self.nodes.len() - id, k,
    {
        if k > 0 {
            let child = self.node(id).children[k - 1];
            assert(self.sound(id));
            assert(self.linked(id, child));
            assert(self.sound(child as int));
            let n = self.node(child as int).children.len() as int;
            let deeper = (depth + 1) as usize;
            self.lemma_walk_below_ids(id, k - 1, depth, x);
            self.lemma_walk_below_ids(child as int, n, deeper, x);
            let head = self.walk_below(id, k - 1, depth);
            let mid = seq![(child, depth)];
            let tail = self.walk(child as int, deeper);
            lemma_visited_concat(head, mid, x);
            lemma_visited_concat(head + mid, tail, x);
            assert(visited(mid, x) <==> x == child) by {
                assert(mid[0].0 == child);
            }
            lemma_concat_contains(self.below(id, k - 1), self.subtree(child as int), x);
            lemma_concat_contains(self.below(child as int, n), seq![child], x);
            assert(seq![child].contains(x) <==> x == child) by {
                assert(seq![child][0] == child);
            }
        }
    }

    /// Every live node is under the root.
    pub proof fn lemma_under_root(self, id: int)
        requires
            self.wf(),
            self.live(id),
        ensures
            self.under(id, 0),
        decreases id,
    {
        if id != 0 {
            assert(self.sound(id));
            self.lemma_under_root(self.node(id).parent->0 as int);
        }
    }

    /// A visit from the root comes to every live node but the root, and to no other.
    pub proof fn lemma_walk_reaches(self, x: NodeId)
        requires
            self.wf(),
        ensures
            visited(self.walk(0, 0), x) <==> self.live(x as int) && x != 0,
    {
        let n = self.node(0).children.len() as int;
        self.lemma_walk_below_ids(0, n, 0, x);
        lemma_concat_contains(self.below(0, n), seq![0usize], x);
        assert(seq![0usize].contains(x) <==> x == 0) by {
            assert(seq![0usize][0] == 0);
        }
        if self.live(x as int) && x != 0 {
            self.lemma_under_root(x as int);
            self.lemma_under_listed(0, x as int);
        }
        if self.below(0, n).contains(x) {
            let m = self.lemma_below_under(0, n, x);
            assert(self.sound(0));
            assert(self.linked(0, self.node(0).children[m]));
            assert(self.sound(self.node(0).children[m] as int));
            self.lemma_under_order(x as int, self.node(0).children[m] as int);
        }
    }

    /// No removal brings a node to life, and a node that is removed is not
    /// live afterwards, unless it is the root.
    pub proof fn lemma_removed_live(self, id: int)
        requires
            self.wf(),
        ensures
            self.removed(id).nodes.len() == self.nodes.len(),
            forall|i: int| self.removed(id).live(i) ==> self.live(i),
            id != 0 ==> !self.removed(id).live(id),
    {
        if self.live(id) && id != 0 {
            self.lemma_subtree_last(id);
        }
    }

    /// A tree without some nodes is well-formed, has no node that the tree
    /// had not, and has none of those nodes, the root apart.
    pub proof fn lemma_without(self, ids: Seq<NodeId>)
        requires
            self.wf(),
        ensures
            self.without(ids).wf(),
            self.without(ids).nodes.len() == self.nodes.len(),
            forall|i: int| self.without(ids).live(i) ==> self.live(i),
            forall|x: NodeId| ids.contains(x) && x != 0 ==> !self.without(ids).live(x as int),
        decreases ids.len(),
    {
        if ids.len() > 0 {
            let before = self.without(ids.drop_last());
            self.lemma_without(ids.drop_last());
            before.lemma_removed_wf(ids.last() as int);
            before.lemma_removed_live(ids.last() as int);
            assert forall|x: NodeId| ids.contains(x) && x != 0 implies !self.without(ids).live(
                x as int,
            ) by {
                let j = choose|j: int| 0 <= j < ids.len() && ids[j] == x;
                if j < ids.len() - 1 {
                    assert(ids.drop_last()[j] == x);
                    assert(ids.drop_last().contains(x));
                    assert(!before.live(x as int));
                } else {
                    assert(!before.removed(ids.last() as int).live(ids.last() as int));
                }
            }
        }
    }

    /// A tree in which only the root is live has one live node.
    pub proof fn lemma_only_root(self, k: int)
        requires
            self.live(0),
            forall|i: int| i != 0 ==> !self.live(i),
            1 <= k <= self.nodes.len(),
        ensures
            self.live_below(k) == 1,
        decreases k,
    {
        if k > 1 {
            self.lemma_only_root(k - 1);
        } else {
            assert(self.live_below(0) == 0);
        }
    }

    /// Where the first children cannot be written out, more of them cannot either.
    pub proof fn lemma_renderable_below(self, id: int, k: int, n: int)
        requires
            !self.renderable_below(id, k),
            k <= n <= self.node(id).children.len(),
        ensures
            !self.renderable_below(id, n),
        decreases n - k,
    {
        if k < n {
            self.lemma_renderable_below(id, k, n - 1);
        }
    }

    /// A well-formed tree has at least one live node, the root.
    pub proof fn lemma_count_root(self, k: int)
        requires
            self.live(0),
            1 <= k <= self.nodes.len(),
        ensures
            self.live_below(k) >= 1,
        decreases k,
    {
        if k > 1 {
            self.lemma_count_root(k - 1);
        } else {
            assert(self.live_below(0) == 0);
        }
    }

    /// Ids are never given out again: a node that is inserted after a
    /// removal gets the id that follows all ids given out before, those of
    /// the removed nodes among them.
    pub proof fn lemma_ids_never_reused(
        self,
        id: int,
        parent: NodeId,
        data: Option<Payload>,
    )
        requires
            self.wf(),
            0 <= id < self.nodes.len(),
            self.removed(id).live(parent as int),
        ensures
            ({
                let after = self.removed(id).inserted(parent, data);
                let fresh = self.nodes.len() as int;
                &&& after.nodes.len() == self.nodes.len() + 1
                &&& after.live(fresh)
                &&& after.node(fresh).parent == Some(parent)
                &&& after.node(fresh).data == data
                &&& id < fresh
                &&& forall|i: int|
                    #[trigger] after.live(i) && i != fresh ==> self.live(i) && i < fresh
            }),
    {
        self.lemma_removed_live(id);
    }

    /// Emptying the slots of some live nodes, each named once, takes their
    /// number from the number of live nodes.
    pub proof fn lemma_count_without(self, after: Tree, gone: Seq<NodeId>)
        requires
            self.nodes.len() == after.nodes.len(),
            self.nodes.len() <= usize::MAX,
            gone.no_duplicates(),
            forall|k: int| 0 <= k < gone.len() ==> self.live(#[trigger] gone[k] as int),
            forall|x: NodeId| after.live(x as int) == (self.live(x as int) && !gone.contains(x)),
        ensures
            after.count() == self.count() - gone.len(),
        decreases gone.len(),
    {
        if gone.len() == 0 {
            assert forall|i: int| self.live(i) == after.live(i) by {
                if 0 <= i < self.nodes.len() {
                    assert(after.live(i as usize as int) == self.live(i as usize as int));
                }
            }
            self.lemma_live_below_same(after, self.nodes.len() as int);
        } else {
            let rest = gone.drop_last();
            let last = gone.last();
            let between = Tree {
                nodes: Seq::new(
                    self.nodes.len(),
                    |i: int|
                        if rest.contains(i as usize) {
                            None
                        } else {
                            self.nodes[i]
                        },
                ),
            };
            assert forall|k: int| 0 <= k < rest.len() implies self.live(
                #[trigger] rest[k] as int,
            ) by {
                assert(rest[k] == gone[k]);
            }
            self.lemma_count_without(between, rest);
            assert(!rest.contains(last)) by {
                if rest.contains(last) {
                    let k = choose|k: int| 0 <= k < rest.len() && rest[k] == last;
                    assert(gone[k] == gone[gone.len() - 1]);
                }
            }
            assert(self.live(gone[gone.len() - 1] as int));
            assert forall|i: int| i != last implies between.live(i) == after.live(i) by {
                if 0 <= i < self.nodes.len() {
                    let x = i as usize;
                    lemma_concat_contains(rest, seq![last], x);
                    assert(gone =~= rest + seq![last]);
                    if seq![last].contains(x) {
                        let k = choose|k: int| 0 <= k < 1 && seq![last][k] == x;
                    }
                    assert(after.live(x as int) == (self.live(x as int) && !gone.contains(x)));
                }
            }
            assert(!after.live(last as int)) by {
                assert(gone[gone.len() - 1] == last);
            }
            between.lemma_live_below_drop(after, last as int, self.nodes.len() as int);
        }
    }

    /// Trees with the same live slots have as many live nodes.
    pub proof fn lemma_live_below_same(self, after: Tree, k: int)
        requires
            self.nodes.len() == after.nodes.len(),
            forall|i: int| self.live(i) == after.live(i),
            0 <= k <= self.nodes.len(),
        ensures
            after.live_below(k) == self.live_below(k),
        decreases k,
    {
        if k > 0 {
            self.lemma_live_below_same(after, k - 1);
        }
    }

    /// Removing a node that has `k` live nodes under it takes `k + 1` from
    /// the number of live nodes: the listing of its subtree names the node
    /// and the live nodes under it, each once, and those are the nodes that go.
    pub proof fn lemma_removed_count(self, id: int)
        requires
            self.wf(),
            self.live(id),
            id != 0,
        ensures
            self.subtree(id).no_duplicates(),
            forall|x: NodeId|
                self.subtree(id).contains(x) <==> self.live(x as int) && self.under(x as int, id),
            self.removed(id).count() == self.count() - self.subtree(id).len(),
    {
        let gone = self.subtree(id);
        let after = self.removed(id);
        self.lemma_subtree_no_duplicates(id);
        assert forall|x: NodeId| gone.contains(x) <==> self.live(x as int) && self.under(
            x as int,
            id,
        ) by {
            if gone.contains(x) {
                self.lemma_subtree_under(id, x);
            }
            if self.live(x as int) && self.under(x as int, id) {
                self.lemma_under_listed(id, x as int);
            }
        }
        assert forall|k: int| 0 <= k < gone.len() implies self.live(#[trigger] gone[k] as int) by {
            assert(gone.contains(gone[k]));
        }
        assert forall|x: NodeId| after.live(x as int) == (self.live(x as int) && !gone.contains(
            x,
        )) by {
            if x < self.nodes.len() && gone.contains(x) {
                assert(after.nodes[x as int] is None);
            }
        }
        self.lemma_count_without(after, gone);
    }
}

} // verus!
