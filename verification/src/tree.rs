use vstd::prelude::*;
use crate::attribute::AttributeView;
use crate::tag::Tag;

verus! {

/// The id by which a node is known to its tree.
pub type NodeId = usize;

/// The id of the node that every tree has and that holds no payload.
pub const ROOT_NODE_ID: NodeId = 0;

/// What an element holds: its tag and its attributes in their order.
pub struct ElementView {
    /// The tag of the element.
    pub tag: Tag,
    /// The attributes in the order in which they were written; a name may
    /// occur more than once.
    pub attributes: Seq<AttributeView>,
}

/// What a node carries: an element or a run of text.
pub enum Payload {
    /// An element with its tag and attributes.
    Element(ElementView),
    /// A run of text.
    Data(Seq<char>),
}

/// A node as the tree sees it.
pub struct NodeView {
    /// The id of the node, which is the position of its slot.
    pub id: NodeId,
    /// The id of the parent; the root has none.
    pub parent: Option<NodeId>,
    /// The ids of the children, in document order.
    pub children: Seq<NodeId>,
    /// What the node carries; the root carries nothing.
    pub data: Option<Payload>,
}

/// A tree as a sequence of slots: the node that an id names, or nothing
/// where the node was removed.
pub struct Tree {
    /// The slots, by id. The sequence grows with every node that is made
    /// and never shrinks.
    pub nodes: Seq<Option<NodeView>>,
}

impl NodeView {
    /// A node that belongs to no tree yet.
    pub open spec fn detached(data: Payload) -> NodeView {
        NodeView { id: 0, parent: None, children: Seq::empty(), data: Some(data) }
    }
}

/// A sequence of ids in rising order.
pub open spec fn rising(ids: Seq<NodeId>) -> bool {
    forall|j: int, k: int| 0 <= j < k < ids.len() ==> ids[j] < ids[k]
}

/// The attributes of a start tag as HTML text: each after a space.
pub open spec fn attributes_html(attributes: Seq<AttributeView>) -> Seq<char>
    decreases attributes.len(),
{
    if attributes.len() == 0 {
        Seq::empty()
    } else {
        attributes_html(attributes.drop_last()) + " "@ + attributes.last().html()
    }
}

impl ElementView {
    /// Whether the name and the value of every attribute is well-formed UTF-8.
    pub open spec fn renderable(self) -> bool {
        forall|i: int|
            0 <= i < self.attributes.len() ==> (#[trigger] self.attributes[i]).renderable()
    }

    /// The start tag of the element.
    pub open spec fn html(self) -> Seq<char> {
        "<"@ + self.tag.name() + attributes_html(self.attributes) + ">"@
    }

    /// The end tag of the element.
    pub open spec fn closing(self) -> Seq<char> {
        "</"@ + self.tag.name() + ">"@
    }
}

/// Whether a payload, if there is one, can be written out.
pub open spec fn payload_renderable(data: Option<Payload>) -> bool {
    match data {
        Some(Payload::Element(element)) => element.renderable(),
        _ => true,
    }
}

/// What is written where a node begins: the start tag of an element, or the text.
pub open spec fn opening_html(data: Option<Payload>) -> Seq<char> {
    match data {
        Some(Payload::Element(element)) => element.html(),
        Some(Payload::Data(text)) => text,
        None => Seq::empty(),
    }
}

/// What is written where a node ends: the end tag of an element, and
/// nothing for any other node.
pub open spec fn closing_html(data: Option<Payload>) -> Seq<char> {
    match data {
        Some(Payload::Element(element)) => element.closing(),
        _ => Seq::empty(),
    }
}

/// Two spaces for every level of depth.
pub open spec fn indent(depth: nat) -> Seq<char>
    decreases depth,
{
    if depth == 0 {
        Seq::empty()
    } else {
        indent((depth - 1) as nat) + "  "@
    }
}

/// A line of the outline of a tree: the node's depth as indentation, its
/// id, what kind of node it is, and what it holds.
pub open spec fn outline_line(depth: usize, id: NodeId, kind: Seq<char>, text: Seq<char>) -> Seq<
    char,
> {
    indent(depth as nat) + "node("@ + crate::text::decimal(id as nat) + ") "@ + kind + ": "@
        + text + "\n"@
}

/// The line of the outline for a node: for an element its start tag, for
/// text the text as `{:?}` writes it, and nothing for a node without payload.
pub open spec fn outline_of(depth: usize, id: NodeId, data: Option<Payload>) -> Seq<char> {
    match data {
        Some(Payload::Element(element)) => outline_line(depth, id, "element"@, element.html()),
        Some(Payload::Data(text)) => outline_line(
            depth,
            id,
            "data"@,
            crate::text::debug_quoted(text),
        ),
        None => Seq::empty(),
    }
}

/// Whether a visit came to the node `x`.
pub open spec fn visited(order: Seq<(NodeId, usize)>, x: NodeId) -> bool {
    exists|j: int| 0 <= j < order.len() && (#[trigger] order[j]).0 == x
}

/// The ids of the visited nodes that got the verdict `false`, in the order of the visit.
pub open spec fn rejected(order: Seq<(NodeId, usize)>, verdicts: Seq<bool>) -> Seq<NodeId>
    decreases order.len(),
{
    if order.len() == 0 || verdicts.len() != order.len() {
        Seq::empty()
    } else if verdicts.last() {
        rejected(order.drop_last(), verdicts.drop_last())
    } else {
        rejected(order.drop_last(), verdicts.drop_last()).push(order.last().0)
    }
}

impl Tree {
    /// Whether `id` names a node that has not been removed.
    pub open spec fn live(self, id: int) -> bool {
        0 <= id < self.nodes.len() && self.nodes[id] is Some
    }

    /// The node that `id` names.
    pub open spec fn node(self, id: int) -> NodeView {
        self.nodes[id]->0
    }

    /// The tree with nothing but its root.
    pub open spec fn empty() -> Tree {
        Tree {
            nodes: seq![
                Some(NodeView { id: 0, parent: None, children: Seq::empty(), data: None }),
            ],
        }
    }

    /// Whether `child` is a live node that names `id` as its parent.
    pub open spec fn linked(self, id: int, child: NodeId) -> bool {
        self.live(child as int) && self.node(child as int).parent == Some(id as usize)
    }

    /// What holds of every live node: it knows its id; unless it is the
    /// root it has a live parent with a smaller id, which lists it among
    /// its children; and its child list names live children of its own, each
    /// once and in the order in which they were made.
    pub open spec fn sound(self, id: int) -> bool {
        let node = self.node(id);
        &&& node.id == id
        &&& id != 0 ==> {
            &&& node.parent is Some
            &&& node.parent->0 < id
            &&& self.live(node.parent->0 as int)
            &&& self.node(node.parent->0 as int).children.contains(id as usize)
        }
        &&& rising(node.children)
        &&& forall|k: int|
            0 <= k < node.children.len() ==> self.linked(id, #[trigger] node.children[k])
    }

    /// The invariant of a tree: the root is there and has neither a parent
    /// nor a payload, and every live node is sound.
    pub open spec fn wf(self) -> bool {
        &&& self.nodes.len() <= usize::MAX
        &&& self.live(0)
        &&& self.node(0).parent is None
        &&& self.node(0).data is None
        &&& forall|i: int| self.live(i) ==> #[trigger] self.sound(i)
    }

    /// The number of live nodes among the first `k` slots.
    pub open spec fn live_below(self, k: int) -> nat
        decreases k,
    {
        if k <= 0 {
            0
        } else {
            self.live_below(k - 1) + if self.live(k - 1) {
                1nat
            } else {
                0nat
            }
        }
    }

    /// The number of live nodes, the root among them.
    pub open spec fn count(self) -> nat {
        self.live_below(self.nodes.len() as int)
    }

    /// The tree with one more node: it gets the next id, hangs last under
    /// `parent` and carries `data`.
    pub open spec fn inserted(self, parent: NodeId, data: Option<Payload>) -> Tree {
        let id = self.nodes.len() as usize;
        let above = self.node(parent as int);
        Tree {
            nodes: self.nodes.update(
                parent as int,
                Some(NodeView { children: above.children.push(id), ..above }),
            ).push(Some(NodeView { id, parent: Some(parent), children: Seq::empty(), data })),
        }
    }

    /// Whether `top` is `id` itself or lies on the way from `id` up to the root.
    pub open spec fn under(self, id: int, top: int) -> bool
        decreases id,
    {
        id == top || (self.live(id) && self.node(id).parent is Some && self.node(id).parent->0 < id
            && self.under(self.node(id).parent->0 as int, top))
    }

    /// The subtrees of the first `k` children of `id`, one after the other.
    pub open spec fn below(self, id: int, k: int) -> Seq<NodeId>
        decreases self.nodes.len() - id, k,
    {
        if k <= 0 || !self.live(id) || k > self.node(id).children.len() {
            Seq::empty()
        } else {
            let child = self.node(id).children[k - 1];
            self.below(id, k - 1) + if id < child < self.nodes.len() {
                self.subtree(child as int)
            } else {
                Seq::empty()
            }
        }
    }

    /// The node `id` and all that hangs under it, every node after its
    /// children; empty where `id` names no live node.
    pub open spec fn subtree(self, id: int) -> Seq<NodeId>
        decreases self.nodes.len() - id, self.node(id).children.len() + 1,
    {
        if !self.live(id) {
            Seq::empty()
        } else {
            self.below(id, self.node(id).children.len() as int) + seq![id as usize]
        }
    }

    /// The tree without the node `id` and all that hangs under it: their
    /// slots are empty, and the parent of `id` no longer lists it. Nothing
    /// changes where `id` names no live node, or names the root.
    pub open spec fn removed(self, id: int) -> Tree {
        if !self.live(id) || id == 0 {
            self
        } else {
            let gone = self.subtree(id);
            let above = self.node(id).parent;
            Tree {
                nodes: Seq::new(
                    self.nodes.len(),
                    |i: int|
                        if gone.contains(i as usize) {
                            None
                        } else if above == Some(i as usize) && self.nodes[i] is Some {
                            Some(
                                NodeView {
                                    children: self.node(i).children.remove_value(id as usize),
                                    ..self.node(i)
                                },
                            )
                        } else {
                            self.nodes[i]
                        },
                ),
            }
        }
    }

    /// The tree without the nodes that `ids` names, taken out one after the
    /// other, each with all that hangs under it.
    pub open spec fn without(self, ids: Seq<NodeId>) -> Tree
        decreases ids.len(),
    {
        if ids.len() == 0 {
            self
        } else {
            self.without(ids.drop_last()).removed(ids.last() as int)
        }
    }

    /// The nodes under the first `k` children of `id`, those children among
    /// them, in document order, each with its depth; the children are at `depth`.
    pub open spec fn walk_below(self, id: int, k: int, depth: usize) -> Seq<(NodeId, usize)>
        decreases self.nodes.len() - id, k,
    {
        if k <= 0 || !self.live(id) || k > self.node(id).children.len() {
            Seq::empty()
        } else {
            let child = self.node(id).children[k - 1];
            self.walk_below(id, k - 1, depth) + seq![(child, depth)] + if id < child
                < self.nodes.len() {
                self.walk(child as int, (depth + 1) as usize)
            } else {
                Seq::empty()
            }
        }
    }

    /// The nodes under `id` in document order, every node before its
    /// children, each with its depth; the children of `id` are at `depth`.
    pub open spec fn walk(self, id: int, depth: usize) -> Seq<(NodeId, usize)>
        decreases self.nodes.len() - id, self.node(id).children.len() + 1,
    {
        if !self.live(id) {
            Seq::empty()
        } else {
            self.walk_below(id, self.node(id).children.len() as int, depth)
        }
    }

    /// The first `k` children of `id`, with all under them, as HTML text.
    pub open spec fn html_below(self, id: int, k: int) -> Seq<char>
        decreases self.nodes.len() - id, k,
    {
        if k <= 0 || !self.live(id) || k > self.node(id).children.len() {
            Seq::empty()
        } else {
            let child = self.node(id).children[k - 1];
            self.html_below(id, k - 1) + if id < child < self.nodes.len() {
                self.html_of(child as int)
            } else {
                Seq::empty()
            }
        }
    }

    /// The node `id` as HTML text: what begins it, its children in their
    /// order, and what ends it.
    pub open spec fn html_of(self, id: int) -> Seq<char>
        decreases self.nodes.len() - id, self.node(id).children.len() + 1,
    {
        if !self.live(id) {
            Seq::empty()
        } else {
            opening_html(self.node(id).data) + self.html_below(
                id,
                self.node(id).children.len() as int,
            ) + closing_html(self.node(id).data)
        }
    }

    /// The whole tree as HTML text.
    pub open spec fn html(self) -> Seq<char> {
        self.html_of(0)
    }

    /// Whether the first `k` children of `id`, and all under them, can be written out.
    pub open spec fn renderable_below(self, id: int, k: int) -> bool
        decreases self.nodes.len() - id, k,
    {
        if k <= 0 || !self.live(id) || k > self.node(id).children.len() {
            true
        } else {
            let child = self.node(id).children[k - 1];
            self.renderable_below(id, k - 1) && (id < child < self.nodes.len()
                ==> self.renderable_of(child as int))
        }
    }

    /// Whether the node `id` and all under it can be written out.
    pub open spec fn renderable_of(self, id: int) -> bool
        decreases self.nodes.len() - id, self.node(id).children.len() + 1,
    {
        self.live(id) ==> payload_renderable(self.node(id).data) && self.renderable_below(
            id,
            self.node(id).children.len() as int,
        )
    }

    /// Whether the whole tree can be written out.
    pub open spec fn renderable(self) -> bool {
        self.renderable_of(0)
    }

    /// The outline of the nodes that a visit came to, a line for each.
    pub open spec fn outline(self, order: Seq<(NodeId, usize)>) -> Seq<char>
        decreases order.len(),
    {
        if order.len() == 0 {
            Seq::empty()
        } else {
            self.outline(order.drop_last()) + outline_of(
                order.last().1,
                order.last().0,
                self.node(order.last().0 as int).data,
            )
        }
    }

    /// Whether every element that a visit came to can be written out.
    pub open spec fn outline_renderable(self, order: Seq<(NodeId, usize)>) -> bool {
        forall|k: int|
            0 <= k < order.len() ==> payload_renderable(
                self.node((#[trigger] order[k]).0 as int).data,
            )
    }
}

} // verus!
